//! Fixed-width integers as byte sequences, in either byte order.
//!
//! A number of `width` bytes is described by its base-256 digits. The
//! digits are taken by repeated division, so every fact about them is
//! linear arithmetic. Signed numbers are stored in two's complement.

use crate::sequences::lemma_append_twice;
use vstd::prelude::*;

verus! {

/// The order in which the bytes of a multi-byte integer are laid out.
#[derive(Clone, Copy, Debug, PartialEq, Eq, Structural)]
pub enum ByteOrder {
    /// Least significant byte first.
    Little,
    /// Most significant byte first.
    Big,
}

/// A byte slice did not have the width of the number to decode.
#[derive(Clone, Copy, Debug, PartialEq, Eq, Structural)]
pub struct LengthMismatch {
    /// The width of the number, in bytes.
    pub expected: usize,
    /// The length of the slice that was given.
    pub found: usize,
}

/// The two bytes of `v`, for `0 <= v < 2^16`.
#[verifier::opaque]
pub open spec fn bytes2(v: int, order: ByteOrder) -> Seq<u8> {
    let b0 = (v % 256) as u8;
    let b1 = (v / 256 % 256) as u8;
    match order {
        ByteOrder::Little => seq![b0, b1],
        ByteOrder::Big => seq![b1, b0],
    }
}

/// The four bytes of `v`, for `0 <= v < 2^32`.
#[verifier::opaque]
pub open spec fn bytes4(v: int, order: ByteOrder) -> Seq<u8> {
    let b0 = (v % 256) as u8;
    let b1 = (v / 256 % 256) as u8;
    let b2 = (v / 256 / 256 % 256) as u8;
    let b3 = (v / 256 / 256 / 256 % 256) as u8;
    match order {
        ByteOrder::Little => seq![b0, b1, b2, b3],
        ByteOrder::Big => seq![b3, b2, b1, b0],
    }
}

/// The eight bytes of `v`, for `0 <= v < 2^64`: the four bytes of each half.
#[verifier::opaque]
pub open spec fn bytes8(v: int, order: ByteOrder) -> Seq<u8> {
    let low = bytes4(v % 0x1_0000_0000, order);
    let high = bytes4(v / 0x1_0000_0000 % 0x1_0000_0000, order);
    match order {
        ByteOrder::Little => low + high,
        ByteOrder::Big => high + low,
    }
}

/// The number that two bytes stand for.
#[verifier::opaque]
pub open spec fn value2(s: Seq<u8>, order: ByteOrder) -> int {
    match order {
        ByteOrder::Little => s[0] + 256 * s[1],
        ByteOrder::Big => s[1] + 256 * s[0],
    }
}

/// The number that four bytes stand for.
#[verifier::opaque]
pub open spec fn value4(s: Seq<u8>, order: ByteOrder) -> int {
    match order {
        ByteOrder::Little => s[0] + 256 * (s[1] + 256 * (s[2] + 256 * s[3])),
        ByteOrder::Big => s[3] + 256 * (s[2] + 256 * (s[1] + 256 * s[0])),
    }
}

/// The number that eight bytes stand for.
#[verifier::opaque]
pub open spec fn value8(s: Seq<u8>, order: ByteOrder) -> int {
    match order {
        ByteOrder::Little => value4(s.subrange(0, 4), order) + 0x1_0000_0000 * value4(
            s.subrange(4, 8),
            order,
        ),
        ByteOrder::Big => value4(s.subrange(4, 8), order) + 0x1_0000_0000 * value4(
            s.subrange(0, 4),
            order,
        ),
    }
}

/// Whether `width` is the width in bytes of a supported number.
pub open spec fn is_width(width: nat) -> bool {
    width == 1 || width == 2 || width == 4 || width == 8
}

/// The count of the numbers that `width` bytes can tell apart: `256^width`.
pub open spec fn modulus(width: nat) -> int {
    if width == 1 {
        0x100
    } else if width == 2 {
        0x1_0000
    } else if width == 4 {
        0x1_0000_0000
    } else {
        0x1_0000_0000_0000_0000
    }
}

/// Whether `v` is a value of the integer type with this width and signedness.
pub open spec fn in_range(v: int, width: nat, signed: bool) -> bool {
    if signed {
        -modulus(width) / 2 <= v < modulus(width) / 2
    } else {
        0 <= v < modulus(width)
    }
}

/// The `width` bytes of `v`, for `0 <= v < 256^width`.
pub open spec fn unsigned_bytes(v: int, width: nat, order: ByteOrder) -> Seq<u8> {
    if width == 1 {
        seq![v as u8]
    } else if width == 2 {
        bytes2(v, order)
    } else if width == 4 {
        bytes4(v, order)
    } else {
        bytes8(v, order)
    }
}

/// The number below `256^s.len()` that the bytes `s` stand for.
pub open spec fn unsigned_value(s: Seq<u8>, order: ByteOrder) -> int {
    if s.len() == 1 {
        s[0] as int
    } else if s.len() == 2 {
        value2(s, order)
    } else if s.len() == 4 {
        value4(s, order)
    } else {
        value8(s, order)
    }
}

/// The `width` bytes of `v`; a negative `v` is stored in two's complement.
pub open spec fn scalar_bytes(v: int, width: nat, order: ByteOrder) -> Seq<u8> {
    unsigned_bytes(
        if v < 0 {
            v + modulus(width)
        } else {
            v
        },
        width,
        order,
    )
}

/// The number that the bytes `s` stand for, read as two's complement
/// where `signed` is set.
pub open spec fn scalar_value(s: Seq<u8>, signed: bool, order: ByteOrder) -> int {
    let u = unsigned_value(s, order);
    if signed && u >= modulus(s.len()) / 2 {
        u - modulus(s.len())
    } else {
        u
    }
}

/// A byte below a multiple of 256 is recovered by division with remainder.
pub proof fn lemma_low_byte(a: int, t: int)
    requires
        0 <= a < 256,
    ensures
        (a + 256 * t) % 256 == a,
        (a + 256 * t) / 256 == t,
{
}

/// Two bytes decode to the number they were made from.
pub proof fn lemma_value2_bytes2(v: int, order: ByteOrder)
    requires
        0 <= v < 0x1_0000,
    ensures
        bytes2(v, order).len() == 2,
        value2(bytes2(v, order), order) == v,
{
    reveal(bytes2);
    reveal(value2);
}

/// Four bytes decode to the number they were made from.
pub proof fn lemma_value4_bytes4(v: int, order: ByteOrder)
    requires
        0 <= v < 0x1_0000_0000,
    ensures
        bytes4(v, order).len() == 4,
        value4(bytes4(v, order), order) == v,
{
    reveal(bytes4);
    reveal(value4);
}

/// Four bytes are the encoding of the number they stand for.
pub proof fn lemma_bytes4_value4(s: Seq<u8>, order: ByteOrder)
    requires
        s.len() == 4,
    ensures
        0 <= value4(s, order) < 0x1_0000_0000,
        bytes4(value4(s, order), order) == s,
{
    reveal(bytes4);
    reveal(value4);
    let (a, b, c, d) = match order {
        ByteOrder::Little => (s[0] as int, s[1] as int, s[2] as int, s[3] as int),
        ByteOrder::Big => (s[3] as int, s[2] as int, s[1] as int, s[0] as int),
    };
    let v = value4(s, order);
    assert(v == a + 256 * (b + 256 * (c + 256 * d)));
    lemma_low_byte(a, b + 256 * (c + 256 * d));
    lemma_low_byte(b, c + 256 * d);
    lemma_low_byte(c, d);
    assert(bytes4(v, order) =~= s);
}

/// Eight bytes decode to the number they were made from.
pub proof fn lemma_value8_bytes8(v: int, order: ByteOrder)
    requires
        0 <= v < 0x1_0000_0000_0000_0000,
    ensures
        bytes8(v, order).len() == 8,
        value8(bytes8(v, order), order) == v,
{
    reveal(bytes8);
    reveal(value8);
    let low = v % 0x1_0000_0000;
    let high = v / 0x1_0000_0000 % 0x1_0000_0000;
    assert(high == v / 0x1_0000_0000);
    lemma_value4_bytes4(low, order);
    lemma_value4_bytes4(high, order);
    let s = bytes8(v, order);
    match order {
        ByteOrder::Little => {
            assert(s.subrange(0, 4) =~= bytes4(low, order));
            assert(s.subrange(4, 8) =~= bytes4(high, order));
        },
        ByteOrder::Big => {
            assert(s.subrange(0, 4) =~= bytes4(high, order));
            assert(s.subrange(4, 8) =~= bytes4(low, order));
        },
    }
}

/// A number in range is decoded from its own bytes, whatever the width,
/// the signedness and the byte order.
pub proof fn lemma_scalar_round_trip(v: int, width: nat, signed: bool, order: ByteOrder)
    requires
        is_width(width),
        in_range(v, width, signed),
    ensures
        scalar_bytes(v, width, order).len() == width,
        scalar_value(scalar_bytes(v, width, order), signed, order) == v,
{
    let u = if v < 0 {
        v + modulus(width)
    } else {
        v
    };
    if width == 2 {
        lemma_value2_bytes2(u, order);
    } else if width == 4 {
        lemma_value4_bytes4(u, order);
    } else if width == 8 {
        lemma_value8_bytes8(u, order);
    }
}

/// Calls `u16::to_ne_bytes` of the standard library. The bytes come in the
/// byte order of the machine that runs the call, which is one of the two;
/// nothing says which.
#[verifier::external_body]
fn native_bytes_of_u16(v: u16) -> (r: [u8; 2])
    ensures
        r@ == bytes2(v as int, ByteOrder::Little) || r@ == bytes2(v as int, ByteOrder::Big),
{
    v.to_ne_bytes()
}

impl ByteOrder {
    /// The byte order of the machine that runs the call: the order that
    /// [`ByteOrder::of_one`] finds in the machine's bytes of the number one.
    ///
    /// The result depends on the machine, so the contract leaves it open.
    pub fn native() -> ByteOrder {
        ByteOrder::of_one(native_bytes_of_u16(1))
    }

    /// The byte order that two bytes are in, if they are the bytes of the
    /// number one: little-endian where the first byte is one, big-endian
    /// where it is not.
    pub fn of_one(bytes: [u8; 2]) -> (r: ByteOrder)
        ensures
            r == order_of_one(bytes@),
            forall|order: ByteOrder| bytes@ == bytes2(1, order) ==> r == order,
    {
        proof {
            lemma_order_of_one(ByteOrder::Little);
            lemma_order_of_one(ByteOrder::Big);
        }
        if bytes[0] == 1 {
            ByteOrder::Little
        } else {
            ByteOrder::Big
        }
    }

    /// Whether this is the little-endian order.
    pub fn is_little_endian(self) -> (r: bool)
        ensures
            r == (self == ByteOrder::Little),
    {
        match self {
            ByteOrder::Little => true,
            ByteOrder::Big => false,
        }
    }
}

/// The byte order that two bytes are in, if they are the bytes of the
/// number one.
pub open spec fn order_of_one(bytes: Seq<u8>) -> ByteOrder {
    if bytes[0] == 1 {
        ByteOrder::Little
    } else {
        ByteOrder::Big
    }
}

/// The bytes of the number one tell the byte order that they are in.
pub proof fn lemma_order_of_one(order: ByteOrder)
    ensures
        order_of_one(bytes2(1, order)) == order,
{
    reveal(bytes2);
}

/// Writes the two bytes of `v` at the end of `out`.
pub fn put_u16(v: u16, order: ByteOrder, out: &mut Vec<u8>)
    ensures
        final(out)@ == old(out)@ + bytes2(v as int, order),
{
    let b0: u8 = (v % 256) as u8;
    let b1: u8 = (v / 256) as u8;
    match order {
        ByteOrder::Little => {
            out.push(b0);
            out.push(b1);
        },
        ByteOrder::Big => {
            out.push(b1);
            out.push(b0);
        },
    }
    assert(out@ =~= old(out)@ + bytes2(v as int, order)) by {
        reveal(bytes2);
    }
}

/// Writes the four bytes of `v` at the end of `out`.
pub fn put_u32(v: u32, order: ByteOrder, out: &mut Vec<u8>)
    ensures
        final(out)@ == old(out)@ + bytes4(v as int, order),
{
    let b0: u8 = (v % 256) as u8;
    let b1: u8 = (v / 256 % 256) as u8;
    let b2: u8 = (v / 256 / 256 % 256) as u8;
    let b3: u8 = (v / 256 / 256 / 256) as u8;
    match order {
        ByteOrder::Little => {
            out.push(b0);
            out.push(b1);
            out.push(b2);
            out.push(b3);
        },
        ByteOrder::Big => {
            out.push(b3);
            out.push(b2);
            out.push(b1);
            out.push(b0);
        },
    }
    assert(out@ =~= old(out)@ + bytes4(v as int, order)) by {
        reveal(bytes4);
    }
}

/// Writes the eight bytes of `v` at the end of `out`.
pub fn put_u64(v: u64, order: ByteOrder, out: &mut Vec<u8>)
    ensures
        final(out)@ == old(out)@ + bytes8(v as int, order),
{
    let low: u32 = (v % 0x1_0000_0000) as u32;
    let high: u32 = (v / 0x1_0000_0000) as u32;
    assert(high as int == (v as int) / 0x1_0000_0000 % 0x1_0000_0000);
    reveal(bytes8);
    match order {
        ByteOrder::Little => {
            put_u32(low, order, out);
            put_u32(high, order, out);
            proof {
                lemma_append_twice(
                    old(out)@,
                    bytes4(low as int, order),
                    bytes4(high as int, order),
                );
            }
        },
        ByteOrder::Big => {
            put_u32(high, order, out);
            put_u32(low, order, out);
            proof {
                lemma_append_twice(
                    old(out)@,
                    bytes4(high as int, order),
                    bytes4(low as int, order),
                );
            }
        },
    }
}

/// Reads the number that the two bytes from `at` on stand for.
pub fn get_u16(bytes: &[u8], at: usize, order: ByteOrder) -> (r: u16)
    requires
        at + 2 <= bytes@.len(),
    ensures
        r == value2(bytes@.subrange(at as int, at + 2), order),
{
    reveal(value2);
    let a: u16 = bytes[at] as u16;
    let b: u16 = bytes[at + 1] as u16;
    match order {
        ByteOrder::Little => a + 256 * b,
        ByteOrder::Big => b + 256 * a,
    }
}

/// Reads the number that the four bytes from `at` on stand for.
pub fn get_u32(bytes: &[u8], at: usize, order: ByteOrder) -> (r: u32)
    requires
        at + 4 <= bytes@.len(),
    ensures
        r == value4(bytes@.subrange(at as int, at + 4), order),
{
    reveal(value4);
    let a: u32 = bytes[at] as u32;
    let b: u32 = bytes[at + 1] as u32;
    let c: u32 = bytes[at + 2] as u32;
    let d: u32 = bytes[at + 3] as u32;
    match order {
        ByteOrder::Little => a + 256 * (b + 256 * (c + 256 * d)),
        ByteOrder::Big => d + 256 * (c + 256 * (b + 256 * a)),
    }
}

/// Reads the number that the eight bytes from `at` on stand for.
pub fn get_u64(bytes: &[u8], at: usize, order: ByteOrder) -> (r: u64)
    requires
        at + 8 <= bytes@.len(),
    ensures
        r == value8(bytes@.subrange(at as int, at + 8), order),
{
    reveal(value8);
    assert(bytes.len() == bytes@.len());
    let first: u64 = get_u32(bytes, at, order) as u64;
    let second: u64 = get_u32(bytes, at + 4, order) as u64;
    proof {
        let s = bytes@.subrange(at as int, at + 8);
        assert(s.subrange(0, 4) =~= bytes@.subrange(at as int, at + 4));
        assert(s.subrange(4, 8) =~= bytes@.subrange(at + 4, at + 8));
        lemma_bytes4_value4(s.subrange(0, 4), order);
        lemma_bytes4_value4(s.subrange(4, 8), order);
    }
    match order {
        ByteOrder::Little => first + 0x1_0000_0000 * second,
        ByteOrder::Big => second + 0x1_0000_0000 * first,
    }
}

} // verus!
