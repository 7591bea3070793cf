//! The integer types that a numeric array can hold, and sequences of them
//! as bytes.

use crate::primitive::{
    bytes2, bytes4, bytes8, get_u16, get_u32, get_u64, in_range, is_width,
    lemma_scalar_round_trip, put_u16, put_u32, put_u64, scalar_bytes, scalar_value, ByteOrder,
    LengthMismatch,
};
use vstd::prelude::*;

verus! {

/// An integer type of fixed width that is stored in a numeric array.
pub trait Scalar: Copy {
    /// The number of bytes that one value takes.
    spec fn width() -> nat;

    /// Whether the type has negative values.
    spec fn signed() -> bool;

    /// The value as a mathematical integer.
    spec fn to_int(self) -> int;

    /// The width is a supported one, and every value lies in the range that
    /// the width and the signedness give.
    proof fn lemma_valid(self)
        ensures
            is_width(Self::width()),
            in_range(self.to_int(), Self::width(), Self::signed()),
    ;

    /// The number of bytes that one value takes.
    fn size() -> (r: usize)
        ensures
            r == Self::width(),
            is_width(Self::width()),
    ;

    /// Writes the bytes of the value at the end of `out`.
    fn encode(self, order: ByteOrder, out: &mut Vec<u8>)
        ensures
            final(out)@ == old(out)@ + scalar_bytes(self.to_int(), Self::width(), order),
    ;

    /// Reads a value from a slice that holds exactly its bytes. A slice of
    /// any other length is refused.
    fn decode(bytes: &[u8], order: ByteOrder) -> (r: Result<Self, LengthMismatch>)
        ensures
            match r {
                Ok(v) => bytes@.len() == Self::width() && v.to_int() == scalar_value(
                    bytes@,
                    Self::signed(),
                    order,
                ),
                Err(e) => bytes@.len() != Self::width() && e == (LengthMismatch {
                    expected: Self::width() as usize,
                    found: bytes@.len() as usize,
                }),
            },
    ;
}

impl Scalar for u8 {
    open spec fn width() -> nat {
        1
    }

    open spec fn signed() -> bool {
        false
    }

    open spec fn to_int(self) -> int {
        self as int
    }

    proof fn lemma_valid(self) {
    }

    fn size() -> (r: usize) {
        1
    }

    fn encode(self, order: ByteOrder, out: &mut Vec<u8>) {
        out.push(self);
        assert(out@ =~= old(out)@ + seq![self]);
    }

    fn decode(bytes: &[u8], order: ByteOrder) -> (r: Result<Self, LengthMismatch>) {
        if bytes.len() != 1 {
            return Err(LengthMismatch { expected: 1, found: bytes.len() });
        }
        Ok(bytes[0])
    }
}

impl Scalar for i8 {
    open spec fn width() -> nat {
        1
    }

    open spec fn signed() -> bool {
        true
    }

    open spec fn to_int(self) -> int {
        self as int
    }

    proof fn lemma_valid(self) {
    }

    fn size() -> (r: usize) {
        1
    }

    fn encode(self, order: ByteOrder, out: &mut Vec<u8>) {
        let wide: i16 = self as i16;
        let u: u8 = if wide < 0 {
            (wide + 0x100) as u8
        } else {
            wide as u8
        };
        out.push(u);
        assert(out@ =~= old(out)@ + seq![u]);
    }

    fn decode(bytes: &[u8], order: ByteOrder) -> (r: Result<Self, LengthMismatch>) {
        if bytes.len() != 1 {
            return Err(LengthMismatch { expected: 1, found: bytes.len() });
        }
        let u: i16 = bytes[0] as i16;
        if u >= 0x80 {
            Ok((u - 0x100) as i8)
        } else {
            Ok(u as i8)
        }
    }
}

impl Scalar for u16 {
    open spec fn width() -> nat {
        2
    }

    open spec fn signed() -> bool {
        false
    }

    open spec fn to_int(self) -> int {
        self as int
    }

    proof fn lemma_valid(self) {
    }

    fn size() -> (r: usize) {
        2
    }

    fn encode(self, order: ByteOrder, out: &mut Vec<u8>) {
        put_u16(self, order, out);
    }

    fn decode(bytes: &[u8], order: ByteOrder) -> (r: Result<Self, LengthMismatch>) {
        if bytes.len() != 2 {
            return Err(LengthMismatch { expected: 2, found: bytes.len() });
        }
        assert(bytes@.subrange(0, 2) =~= bytes@);
        Ok(get_u16(bytes, 0, order))
    }
}

impl Scalar for i16 {
    open spec fn width() -> nat {
        2
    }

    open spec fn signed() -> bool {
        true
    }

    open spec fn to_int(self) -> int {
        self as int
    }

    proof fn lemma_valid(self) {
    }

    fn size() -> (r: usize) {
        2
    }

    fn encode(self, order: ByteOrder, out: &mut Vec<u8>) {
        let wide: i32 = self as i32;
        let u: u16 = if wide < 0 {
            (wide + 0x1_0000) as u16
        } else {
            wide as u16
        };
        put_u16(u, order, out);
    }

    fn decode(bytes: &[u8], order: ByteOrder) -> (r: Result<Self, LengthMismatch>) {
        if bytes.len() != 2 {
            return Err(LengthMismatch { expected: 2, found: bytes.len() });
        }
        assert(bytes@.subrange(0, 2) =~= bytes@);
        let u: i32 = get_u16(bytes, 0, order) as i32;
        if u >= 0x8000 {
            Ok((u - 0x1_0000) as i16)
        } else {
            Ok(u as i16)
        }
    }
}

impl Scalar for u32 {
    open spec fn width() -> nat {
        4
    }

    open spec fn signed() -> bool {
        false
    }

    open spec fn to_int(self) -> int {
        self as int
    }

    proof fn lemma_valid(self) {
    }

    fn size() -> (r: usize) {
        4
    }

    fn encode(self, order: ByteOrder, out: &mut Vec<u8>) {
        put_u32(self, order, out);
    }

    fn decode(bytes: &[u8], order: ByteOrder) -> (r: Result<Self, LengthMismatch>) {
        if bytes.len() != 4 {
            return Err(LengthMismatch { expected: 4, found: bytes.len() });
        }
        assert(bytes@.subrange(0, 4) =~= bytes@);
        Ok(get_u32(bytes, 0, order))
    }
}

impl Scalar for i32 {
    open spec fn width() -> nat {
        4
    }

    open spec fn signed() -> bool {
        true
    }

    open spec fn to_int(self) -> int {
        self as int
    }

    proof fn lemma_valid(self) {
    }

    fn size() -> (r: usize) {
        4
    }

    fn encode(self, order: ByteOrder, out: &mut Vec<u8>) {
        let wide: i64 = self as i64;
        let u: u32 = if wide < 0 {
            (wide + 0x1_0000_0000) as u32
        } else {
            wide as u32
        };
        put_u32(u, order, out);
    }

    fn decode(bytes: &[u8], order: ByteOrder) -> (r: Result<Self, LengthMismatch>) {
        if bytes.len() != 4 {
            return Err(LengthMismatch { expected: 4, found: bytes.len() });
        }
        assert(bytes@.subrange(0, 4) =~= bytes@);
        let u: i64 = get_u32(bytes, 0, order) as i64;
        if u >= 0x8000_0000 {
            Ok((u - 0x1_0000_0000) as i32)
        } else {
            Ok(u as i32)
        }
    }
}

impl Scalar for u64 {
    open spec fn width() -> nat {
        8
    }

    open spec fn signed() -> bool {
        false
    }

    open spec fn to_int(self) -> int {
        self as int
    }

    proof fn lemma_valid(self) {
    }

    fn size() -> (r: usize) {
        8
    }

    fn encode(self, order: ByteOrder, out: &mut Vec<u8>) {
        put_u64(self, order, out);
    }

    fn decode(bytes: &[u8], order: ByteOrder) -> (r: Result<Self, LengthMismatch>) {
        if bytes.len() != 8 {
            return Err(LengthMismatch { expected: 8, found: bytes.len() });
        }
        assert(bytes@.subrange(0, 8) =~= bytes@);
        Ok(get_u64(bytes, 0, order))
    }
}

impl Scalar for i64 {
    open spec fn width() -> nat {
        8
    }

    open spec fn signed() -> bool {
        true
    }

    open spec fn to_int(self) -> int {
        self as int
    }

    proof fn lemma_valid(self) {
    }

    fn size() -> (r: usize) {
        8
    }

    fn encode(self, order: ByteOrder, out: &mut Vec<u8>) {
        let wide: i128 = self as i128;
        let u: u64 = if wide < 0 {
            (wide + 0x1_0000_0000_0000_0000) as u64
        } else {
            wide as u64
        };
        put_u64(u, order, out);
    }

    fn decode(bytes: &[u8], order: ByteOrder) -> (r: Result<Self, LengthMismatch>) {
        if bytes.len() != 8 {
            return Err(LengthMismatch { expected: 8, found: bytes.len() });
        }
        assert(bytes@.subrange(0, 8) =~= bytes@);
        let u: i128 = get_u64(bytes, 0, order) as i128;
        if u >= 0x8000_0000_0000_0000 {
            Ok((u - 0x1_0000_0000_0000_0000) as i64)
        } else {
            Ok(u as i64)
        }
    }
}

/// The values of a sequence of scalars as mathematical integers.
pub open spec fn ints<T: Scalar>(values: Seq<T>) -> Seq<int> {
    Seq::new(values.len(), |i: int| values[i].to_int())
}

/// The bytes of a sequence of numbers of one width: the bytes of each
/// number, in the order of the numbers.
pub open spec fn encode_values(values: Seq<int>, width: nat, order: ByteOrder) -> Seq<u8>
    decreases values.len(),
{
    if values.len() == 0 {
        Seq::empty()
    } else {
        encode_values(values.drop_last(), width, order) + scalar_bytes(
            values.last(),
            width,
            order,
        )
    }
}

/// The numbers that a sequence of bytes holds, `width` bytes each. Bytes
/// at the front that do not fill a number are left out.
pub open spec fn decode_values(bytes: Seq<u8>, width: nat, signed: bool, order: ByteOrder) -> Seq<
    int,
>
    decreases bytes.len(),
{
    if width == 0 || bytes.len() < width {
        Seq::empty()
    } else {
        decode_values(bytes.subrange(0, bytes.len() - width), width, signed, order).push(
            scalar_value(bytes.subrange(bytes.len() - width, bytes.len() as int), signed, order),
        )
    }
}

/// Whether every number of the sequence is a value of the integer type
/// with this width and signedness.
pub open spec fn all_in_range(values: Seq<int>, width: nat, signed: bool) -> bool {
    forall|i: int| 0 <= i < values.len() ==> in_range(#[trigger] values[i], width, signed)
}

/// The bytes of one number of a supported width are `width` many.
pub proof fn lemma_scalar_bytes_len(v: int, width: nat, order: ByteOrder)
    requires
        is_width(width),
    ensures
        scalar_bytes(v, width, order).len() == width,
{
    reveal(bytes2);
    reveal(bytes4);
    reveal(bytes8);
}

/// A sequence of `n` numbers takes `n * width` bytes.
pub proof fn lemma_encode_values_len(values: Seq<int>, width: nat, order: ByteOrder)
    requires
        is_width(width),
    ensures
        encode_values(values, width, order).len() == values.len() * width,
    decreases values.len(),
{
    if values.len() > 0 {
        lemma_encode_values_len(values.drop_last(), width, order);
        lemma_scalar_bytes_len(values.last(), width, order);
        assert((values.len() - 1) * width + width == values.len() * width) by (nonlinear_arith);
    }
}

/// Encoding one more number appends its bytes.
pub proof fn lemma_encode_values_push(values: Seq<int>, v: int, width: nat, order: ByteOrder)
    ensures
        encode_values(values.push(v), width, order) == encode_values(values, width, order)
            + scalar_bytes(v, width, order),
{
    assert(values.push(v).drop_last() =~= values);
}

/// Decoding bytes that end with one more number appends that number.
pub proof fn lemma_decode_values_append(
    bytes: Seq<u8>,
    last: Seq<u8>,
    width: nat,
    signed: bool,
    order: ByteOrder,
)
    requires
        width > 0,
        last.len() == width,
    ensures
        decode_values(bytes + last, width, signed, order) == decode_values(
            bytes,
            width,
            signed,
            order,
        ).push(scalar_value(last, signed, order)),
{
    let all = bytes + last;
    assert(all.subrange(0, all.len() - width) =~= bytes);
    assert(all.subrange(all.len() - width, all.len() as int) =~= last);
}

/// Numbers in range are decoded from their own bytes.
pub proof fn lemma_values_round_trip(values: Seq<int>, width: nat, signed: bool, order: ByteOrder)
    requires
        is_width(width),
        all_in_range(values, width, signed),
    ensures
        decode_values(encode_values(values, width, order), width, signed, order) == values,
    decreases values.len(),
{
    if values.len() == 0 {
        assert(decode_values(Seq::<u8>::empty(), width, signed, order) =~= values);
    } else {
        let front = values.drop_last();
        lemma_values_round_trip(front, width, signed, order);
        lemma_scalar_round_trip(values.last(), width, signed, order);
        lemma_decode_values_append(
            encode_values(front, width, order),
            scalar_bytes(values.last(), width, order),
            width,
            signed,
            order,
        );
        assert(front.push(values.last()) =~= values);
    }
}

/// The values of a vector of scalars lie in the range of their type.
pub proof fn lemma_ints_in_range<T: Scalar>(values: Seq<T>)
    ensures
        all_in_range(ints(values), T::width(), T::signed()),
{
    assert forall|i: int| 0 <= i < values.len() implies in_range(
        #[trigger] ints(values)[i],
        T::width(),
        T::signed(),
    ) by {
        values[i].lemma_valid();
    }
}

/// Writes the bytes of every value, in order, at the end of `out`.
pub fn encode_all<T: Scalar>(values: &[T], order: ByteOrder, out: &mut Vec<u8>)
    ensures
        final(out)@ == old(out)@ + encode_values(ints(values@), T::width(), order),
{
    let n = values.len();
    let mut i: usize = 0;
    while i < n
        invariant
            i <= n,
            n == values@.len(),
            out@ == old(out)@ + encode_values(ints(values@.take(i as int)), T::width(), order),
        decreases n - i,
    {
        let ghost before = out@;
        values[i].encode(order, out);
        proof {
            let done = ints(values@.take(i as int));
            assert(ints(values@.take(i + 1)) =~= done.push(values@[i as int].to_int()));
            lemma_encode_values_push(done, values@[i as int].to_int(), T::width(), order);
            crate::sequences::lemma_append_twice(
                old(out)@,
                encode_values(done, T::width(), order),
                scalar_bytes(values@[i as int].to_int(), T::width(), order),
            );
        }
        i += 1;
    }
    assert(values@.take(n as int) =~= values@);
}

/// Reads the values that `bytes` holds, one after the other. Gives `None`
/// for bytes that do not hold whole values.
pub fn decode_all<T: Scalar>(bytes: &[u8], order: ByteOrder) -> (r: Option<Vec<T>>)
    ensures
        match r {
            Some(values) => bytes@.len() as int % T::width() as int == 0 && ints(values@)
                == decode_values(bytes@, T::width(), T::signed(), order),
            None => bytes@.len() as int % T::width() as int != 0,
        },
{
    let width = T::size();
    if bytes.len() % width != 0 {
        return None;
    }
    let count = bytes.len() / width;
    let mut values: Vec<T> = Vec::new();
    let mut i: usize = 0;
    assert(bytes@.len() == count * width) by (nonlinear_arith)
        requires
            count == bytes@.len() as int / width as int,
            bytes@.len() as int % width as int == 0,
            width > 0,
    ;
    assert(ints(values@) =~= decode_values(
        bytes@.take(0),
        T::width(),
        T::signed(),
        order,
    ));
    while i < count
        invariant
            i <= count,
            width == T::width(),
            is_width(T::width()),
            bytes@.len() == count * width,
            bytes@.len() <= usize::MAX,
            values@.len() == i,
            ints(values@) == decode_values(
                bytes@.take(i * width),
                T::width(),
                T::signed(),
                order,
            ),
        decreases count - i,
    {
        assert(i * width + width <= count * width && (i + 1) * width == i * width + width)
            by (nonlinear_arith)
            requires
                i < count,
                width > 0,
        ;
        let chunk = vstd::slice::slice_subrange(bytes, i * width, i * width + width);
        let ghost before = values@;
        match T::decode(chunk, order) {
            Ok(v) => {
                values.push(v);
                proof {
                    let front = bytes@.take(i * width);
                    assert(bytes@.take((i + 1) * width) =~= front + chunk@);
                    lemma_decode_values_append(front, chunk@, T::width(), T::signed(), order);
                    assert(ints(values@) =~= ints(before).push(v.to_int()));
                }
            },
            Err(_) => {
                return None;
            },
        }
        i += 1;
    }
    assert(bytes@.take(count * width) =~= bytes@);
    Some(values)
}

} // verus!
