//! The layout of a Level-5 MAT-file, as functions from values to bytes.
//!
//! A file is a header of 128 bytes and then data elements. A data element
//! is a tag of eight bytes (a type code and a length, four bytes each),
//! the payload, and zero bytes up to the next multiple of eight. A matrix
//! is a data element whose payload is a row of such elements.

use crate::parse::types::{numeric_payload, ArrayFlags, DataType, MatrixView, NumericView};
use crate::primitive::{
    bytes2, bytes4, lemma_low_byte, lemma_value2_bytes2, lemma_value4_bytes4, ByteOrder,
};
use crate::scalar::{encode_values, lemma_encode_values_len};
use crate::sequences::{lemma_append_twice, lemma_split};
use vstd::prelude::*;
use vstd::utf8::encode_utf8;

verus! {

/// The number of zero bytes that follow a payload of `n` bytes.
pub open spec fn padding(n: int) -> int {
    (8 - n % 8) % 8
}

/// `n` bytes, each of them `byte`.
pub open spec fn repeated(byte: u8, n: int) -> Seq<u8> {
    Seq::new(n as nat, |i: int| byte)
}

/// The number of bytes of a data element with a payload of `n` bytes:
/// tag, payload and padding.
pub open spec fn framed_size(n: int) -> int {
    8 + n + padding(n)
}

/// What a length field holds of a length: its low 32 bits.
pub open spec fn length_field(n: int) -> u32 {
    (n % 0x1_0000_0000) as u32
}

/// The length that the tag of a data element declares for a payload of `n`
/// bytes. A matrix counts its padding, every other type does not.
pub open spec fn declared_length(data_type: DataType, n: int) -> u32 {
    if data_type == DataType::Matrix {
        length_field(n + padding(n))
    } else {
        length_field(n)
    }
}

/// The eight bytes of a tag.
pub open spec fn tag(code: u32, declared: u32, order: ByteOrder) -> Seq<u8> {
    bytes4(code as int, order) + bytes4(declared as int, order)
}

/// The bytes of a data element: tag, payload, padding.
#[verifier::opaque]
pub open spec fn element(data_type: DataType, payload: Seq<u8>, order: ByteOrder) -> Seq<u8> {
    tag(data_type.spec_code(), declared_length(data_type, payload.len() as int), order) + payload
        + repeated(0, padding(payload.len() as int))
}

/// The flag byte of the array flags: `complex` is bit 3, `global` bit 2,
/// `logical` bit 1.
pub open spec fn flag_bits(flags: ArrayFlags) -> int {
    (if flags.complex {
        8int
    } else {
        0int
    }) + (if flags.global {
        4int
    } else {
        0int
    }) + (if flags.logical {
        2int
    } else {
        0int
    })
}

/// The first word of the array flags: the class code in the lowest byte,
/// the flag byte above it.
pub open spec fn flags_word(flags: ArrayFlags) -> int {
    flags.class.spec_code() + 256 * flag_bits(flags)
}

/// The payload of the array flags: the flags word, then `nzmax`, each a
/// 32-bit word in the byte order of the file. In a little-endian file the
/// class code is byte 0 and the flag byte is byte 1
/// ([`lemma_array_flags_bytes`]).
pub open spec fn array_flags_payload(flags: ArrayFlags, order: ByteOrder) -> Seq<u8> {
    bytes4(flags_word(flags), order) + bytes4(flags.nzmax as int, order)
}

/// The payload of the dimensions: four bytes for each.
pub open spec fn dimensions_payload(dimensions: Seq<int>, order: ByteOrder) -> Seq<u8> {
    encode_values(dimensions, 4, order)
}

/// The payload of the name: its bytes in UTF-8, with nothing after them.
pub open spec fn name_payload(name: Seq<char>) -> Seq<u8> {
    encode_utf8(name)
}

/// The array flags as a data element.
pub open spec fn array_flags_element(flags: ArrayFlags, order: ByteOrder) -> Seq<u8> {
    element(DataType::UInt32, array_flags_payload(flags, order), order)
}

/// The dimensions as a data element.
pub open spec fn dimensions_element(dimensions: Seq<int>, order: ByteOrder) -> Seq<u8> {
    element(DataType::Int32, dimensions_payload(dimensions, order), order)
}

/// The name as a data element.
pub open spec fn name_element(name: Seq<char>, order: ByteOrder) -> Seq<u8> {
    element(DataType::Int8, name_payload(name), order)
}

/// One numeric part, real or imaginary, as a data element.
pub open spec fn numeric_element(data: NumericView, order: ByteOrder) -> Seq<u8> {
    element(data.kind, numeric_payload(data, order), order)
}

/// The imaginary part as a data element, or nothing where there is none.
pub open spec fn optional_numeric_element(data: Option<NumericView>, order: ByteOrder) -> Seq<
    u8,
> {
    match data {
        Some(part) => numeric_element(part, order),
        None => Seq::empty(),
    }
}

/// The payload of a matrix: array flags, dimensions, name, real part and,
/// if there is one, imaginary part, each as a data element.
pub open spec fn matrix_payload(matrix: MatrixView, order: ByteOrder) -> Seq<u8> {
    array_flags_element(matrix.flags, order) + dimensions_element(matrix.dimensions, order)
        + name_element(matrix.name, order) + numeric_element(matrix.real_part, order)
        + optional_numeric_element(matrix.imaginary_part, order)
}

/// A matrix as a data element.
pub open spec fn matrix_element(matrix: MatrixView, order: ByteOrder) -> Seq<u8> {
    element(DataType::Matrix, matrix_payload(matrix, order), order)
}

/// The number of bytes of the dimensions as a data element.
pub open spec fn dimensions_size(count: int) -> int {
    framed_size(4 * count)
}

/// The number of bytes of a numeric part as a data element.
pub open spec fn numeric_size(data_type: DataType, count: int) -> int {
    framed_size(count * data_type.width())
}

/// The number of bytes of the imaginary part as a data element, or zero
/// where there is none.
pub open spec fn optional_numeric_size(data: Option<NumericView>) -> int {
    match data {
        Some(part) => numeric_size(part.kind, part.values.len() as int),
        None => 0,
    }
}

/// The number of bytes of the payload of a matrix, from the lengths of its
/// parts alone.
pub open spec fn matrix_size(matrix: MatrixView) -> int {
    16 + dimensions_size(matrix.dimensions.len() as int) + framed_size(
        name_payload(matrix.name).len() as int,
    ) + numeric_size(matrix.real_part.kind, matrix.real_part.values.len() as int)
        + optional_numeric_size(matrix.imaginary_part)
}

/// The data elements of a row of matrices, one after the other.
pub open spec fn matrix_elements(matrices: Seq<MatrixView>, order: ByteOrder) -> Seq<u8>
    decreases matrices.len(),
{
    if matrices.len() == 0 {
        Seq::empty()
    } else {
        matrix_element(matrices.first(), order) + matrix_elements(matrices.drop_first(), order)
    }
}

/// The bytes of a file: the header, then the matrices. The description
/// must not be longer than 116 bytes.
pub open spec fn file(text: Seq<u8>, matrices: Seq<MatrixView>, order: ByteOrder) -> Seq<u8> {
    header(text, order) + matrix_elements(matrices, order)
}

/// The description that stands in for one of fewer than four bytes.
pub open spec fn default_description() -> Seq<u8> {
    encode_utf8("MATLAB 5.0 MAT-file"@)
}

/// The description that a header carries for a given text.
pub open spec fn effective_description(text: Seq<u8>) -> Seq<u8> {
    if text.len() < 4 {
        default_description()
    } else {
        text
    }
}

/// The two bytes that tell the byte order of a file: the letters `M` and
/// `I` as one 16-bit number, `M` in its high byte.
pub open spec fn endian_marker(order: ByteOrder) -> Seq<u8> {
    bytes2(0x4D49, order)
}

/// The 128 bytes of a header: the description, filled up with spaces to
/// 116 bytes; eight zero bytes; the version; the byte-order marker. The
/// description must not be longer than 116 bytes.
pub open spec fn header(text: Seq<u8>, order: ByteOrder) -> Seq<u8> {
    let description = effective_description(text);
    description + repeated(0x20, 116 - description.len()) + repeated(0, 8) + seq![0u8, 1u8]
        + endian_marker(order)
}

/// The padding fills a payload up to the next multiple of eight.
pub proof fn lemma_padding(n: int)
    requires
        0 <= n,
    ensures
        0 <= padding(n) < 8,
        (n + padding(n)) % 8 == 0,
        n % 8 == 0 ==> padding(n) == 0,
        framed_size(n) % 8 == 0,
{
}

/// A tag has eight bytes.
pub proof fn lemma_tag_len(code: u32, declared: u32, order: ByteOrder)
    ensures
        tag(code, declared, order).len() == 8,
{
    lemma_value4_bytes4(code as int, order);
    lemma_value4_bytes4(declared as int, order);
}

/// A data element has the framed size of its payload, a multiple of eight.
pub proof fn lemma_element_len(data_type: DataType, payload: Seq<u8>, order: ByteOrder)
    ensures
        element(data_type, payload, order).len() == framed_size(payload.len() as int),
        element(data_type, payload, order).len() % 8 == 0,
{
    reveal(element);
    lemma_tag_len(
        data_type.spec_code(),
        declared_length(data_type, payload.len() as int),
        order,
    );
    lemma_padding(payload.len() as int);
}

/// The array flags take sixteen bytes: their payload has eight and needs
/// no padding.
pub proof fn lemma_array_flags_len(flags: ArrayFlags, order: ByteOrder)
    ensures
        0 <= flags_word(flags) < 0x1_0000_0000,
        array_flags_payload(flags, order).len() == 8,
        array_flags_element(flags, order).len() == 16,
{
    lemma_value4_bytes4(flags_word(flags), order);
    lemma_value4_bytes4(flags.nzmax as int, order);
    lemma_element_len(DataType::UInt32, array_flags_payload(flags, order), order);
}

/// **Array flags, byte by byte.** In a little-endian file, byte 0 of the
/// payload is the class code, byte 1 holds the flags (`complex` in bit 3,
/// `global` in bit 2, `logical` in bit 1), bytes 2 and 3 are zero, and
/// bytes 4 to 7 are `nzmax`. In a big-endian file the two words are stored
/// high byte first: byte 3 is the class code and byte 2 holds the flags.
pub proof fn lemma_array_flags_bytes(flags: ArrayFlags, order: ByteOrder)
    ensures
        ({
            let payload = array_flags_payload(flags, order);
            let (low, second, third, high) = match order {
                ByteOrder::Little => (0int, 1int, 2int, 3int),
                ByteOrder::Big => (3int, 2int, 1int, 0int),
            };
            &&& payload.len() == 8
            &&& payload[low] == flags.class.spec_code()
            &&& payload[second] == flag_bits(flags)
            &&& payload[third] == 0
            &&& payload[high] == 0
            &&& payload.subrange(4, 8) == bytes4(flags.nzmax as int, order)
        }),
{
    reveal(bytes4);
    let payload = array_flags_payload(flags, order);
    lemma_low_byte(flags.class.spec_code() as int, flag_bits(flags));
    assert(payload.subrange(4, 8) =~= bytes4(flags.nzmax as int, order));
}

/// A numeric part has as many payload bytes as its values take.
pub proof fn lemma_numeric_len(data: NumericView, order: ByteOrder)
    requires
        data.kind.is_numeric(),
    ensures
        numeric_payload(data, order).len() == data.values.len() * data.kind.width(),
        numeric_element(data, order).len() == numeric_size(data.kind, data.values.len() as int),
{
    lemma_encode_values_len(data.values, data.kind.width(), order);
    lemma_element_len(data.kind, numeric_payload(data, order), order);
}

/// The dimensions have four payload bytes each.
pub proof fn lemma_dimensions_len(dimensions: Seq<int>, order: ByteOrder)
    ensures
        dimensions_payload(dimensions, order).len() == 4 * dimensions.len(),
        dimensions_element(dimensions, order).len() == dimensions_size(dimensions.len() as int),
{
    lemma_encode_values_len(dimensions, 4, order);
    lemma_element_len(DataType::Int32, dimensions_payload(dimensions, order), order);
}

/// The imaginary part, if there is one, has the size that its length gives.
pub proof fn lemma_optional_numeric_len(data: Option<NumericView>, order: ByteOrder)
    requires
        data matches Some(part) ==> part.kind.is_numeric(),
    ensures
        optional_numeric_element(data, order).len() == optional_numeric_size(data),
        optional_numeric_size(data) % 8 == 0,
        optional_numeric_size(data) >= 0,
{
    match data {
        Some(part) => {
            lemma_numeric_len(part, order);
            lemma_element_len(part.kind, numeric_payload(part, order), order);
        },
        None => {},
    }
}

/// Sixteen bytes and four further multiples of eight make a multiple of
/// eight.
proof fn lemma_sum_of_multiples(b: int, c: int, d: int, e: int)
    requires
        b % 8 == 0,
        c % 8 == 0,
        d % 8 == 0,
        e % 8 == 0,
    ensures
        (16 + b + c + d + e) % 8 == 0,
{
}

/// The size computed from the lengths of the parts is the length of the
/// payload that is written, and it is a multiple of eight.
pub proof fn lemma_matrix_payload_len(matrix: MatrixView, order: ByteOrder)
    requires
        matrix.real_part.kind.is_numeric(),
        matrix.imaginary_part matches Some(part) ==> part.kind.is_numeric(),
    ensures
        matrix_payload(matrix, order).len() == matrix_size(matrix),
        matrix_size(matrix) % 8 == 0,
        matrix_size(matrix) >= 40,
{
    let b = dimensions_size(matrix.dimensions.len() as int);
    let c = framed_size(name_payload(matrix.name).len() as int);
    let d = numeric_size(matrix.real_part.kind, matrix.real_part.values.len() as int);
    let e = optional_numeric_size(matrix.imaginary_part);
    lemma_array_flags_len(matrix.flags, order);
    lemma_dimensions_len(matrix.dimensions, order);
    lemma_element_len(DataType::Int32, dimensions_payload(matrix.dimensions, order), order);
    lemma_element_len(DataType::Int8, name_payload(matrix.name), order);
    lemma_numeric_len(matrix.real_part, order);
    lemma_element_len(matrix.real_part.kind, numeric_payload(matrix.real_part, order), order);
    lemma_optional_numeric_len(matrix.imaginary_part, order);
    lemma_sum_of_multiples(b, c, d, e);
}

/// The default description has 19 bytes, the letters of its text.
pub proof fn lemma_default_description()
    ensures
        default_description().len() == 19,
{
    reveal_strlit("MATLAB 5.0 MAT-file");
    let chars = "MATLAB 5.0 MAT-file"@;
    assert(vstd::utf8::is_ascii_chars(chars));
    vstd::utf8::is_ascii_chars_encode_utf8(chars);
}

/// The byte-order marker reads `IM` in a little-endian file and `MI` in a
/// big-endian one.
pub proof fn lemma_endian_marker()
    ensures
        endian_marker(ByteOrder::Little) == seq![0x49u8, 0x4Du8],
        endian_marker(ByteOrder::Big) == seq![0x4Du8, 0x49u8],
{
    reveal(bytes2);
    assert(endian_marker(ByteOrder::Little) =~= seq![0x49u8, 0x4Du8]);
    assert(endian_marker(ByteOrder::Big) =~= seq![0x4Du8, 0x49u8]);
}

/// **Header.** A header has 128 bytes. The description stands at the
/// front and is filled up with spaces to 116 bytes; eight zero bytes
/// follow; bytes 124 and 125 hold the version, 0 and 1; the last two bytes
/// are the byte-order marker.
pub proof fn lemma_header_layout(text: Seq<u8>, order: ByteOrder)
    requires
        effective_description(text).len() <= 116,
    ensures
        header(text, order).len() == 128,
        header(text, order)[124] == 0,
        header(text, order)[125] == 1,
        header(text, order).subrange(0, effective_description(text).len() as int)
            == effective_description(text),
        header(text, order).subrange(126, 128) == endian_marker(order),
        forall|i: int|
            effective_description(text).len() <= i < 116 ==> #[trigger] header(text, order)[i]
                == 0x20,
        forall|i: int| 116 <= i < 124 ==> #[trigger] header(text, order)[i] == 0,
{
    lemma_value2_bytes2(0x4D49, order);
    let description = effective_description(text);
    let h = header(text, order);
    assert(h.subrange(0, description.len() as int) =~= description);
    assert(h.subrange(126, 128) =~= endian_marker(order));
}

/// A matrix as a data element has eight bytes more than its payload.
pub proof fn lemma_matrix_element_len(matrix: MatrixView, order: ByteOrder)
    requires
        matrix.real_part.kind.is_numeric(),
        matrix.imaginary_part matches Some(part) ==> part.kind.is_numeric(),
    ensures
        matrix_element(matrix, order).len() == 8 + matrix_size(matrix),
{
    lemma_matrix_payload_len(matrix, order);
    lemma_element_len(DataType::Matrix, matrix_payload(matrix, order), order);
    lemma_padding(matrix_size(matrix));
}

/// Writing one more matrix appends its data element to the row.
pub proof fn lemma_matrix_elements_push(
    matrices: Seq<MatrixView>,
    matrix: MatrixView,
    order: ByteOrder,
)
    ensures
        matrix_elements(matrices.push(matrix), order) == matrix_elements(matrices, order)
            + matrix_element(matrix, order),
    decreases matrices.len(),
{
    let longer = matrices.push(matrix);
    if matrices.len() == 0 {
        assert(longer.drop_first() =~= Seq::<MatrixView>::empty());
        assert(matrix_elements(longer.drop_first(), order) =~= Seq::<u8>::empty());
        assert(longer.first() == matrix);
        assert(matrix_elements(longer, order) =~= matrix_element(matrix, order));
        assert(matrix_elements(matrices, order) + matrix_element(matrix, order)
            =~= matrix_element(matrix, order));
    } else {
        assert(longer.drop_first() =~= matrices.drop_first().push(matrix));
        assert(longer.first() == matrices.first());
        lemma_matrix_elements_push(matrices.drop_first(), matrix, order);
        lemma_append_twice(
            matrix_element(matrices.first(), order),
            matrix_elements(matrices.drop_first(), order),
            matrix_element(matrix, order),
        );
    }
}

/// A file with one more matrix is the file and, after it, the data
/// element of that matrix. So a header and the matrices that are written
/// after it, one by one, make a file.
pub proof fn lemma_file_push(
    text: Seq<u8>,
    matrices: Seq<MatrixView>,
    matrix: MatrixView,
    order: ByteOrder,
)
    ensures
        file(text, Seq::empty(), order) == header(text, order),
        file(text, matrices.push(matrix), order) == file(text, matrices, order)
            + matrix_element(matrix, order),
{
    assert(file(text, Seq::empty(), order) =~= header(text, order));
    lemma_matrix_elements_push(matrices, matrix, order);
    lemma_append_twice(
        header(text, order),
        matrix_elements(matrices, order),
        matrix_element(matrix, order),
    );
}

/// **Padding.** In a data element, the tag takes the first eight bytes,
/// the payload follows, and after the payload stand exactly
/// `(8 - n mod 8) mod 8` bytes, all of them zero, for a payload of `n`
/// bytes. So the element ends on a multiple of eight.
pub proof fn lemma_element_layout(data_type: DataType, payload: Seq<u8>, order: ByteOrder)
    ensures
        element(data_type, payload, order).len() == 8 + payload.len() + padding(
            payload.len() as int,
        ),
        padding(payload.len() as int) == (8 - payload.len() % 8) % 8,
        element(data_type, payload, order).len() % 8 == 0,
        element(data_type, payload, order).subrange(0, 8) == tag(
            data_type.spec_code(),
            declared_length(data_type, payload.len() as int),
            order,
        ),
        element(data_type, payload, order).subrange(8, 8 + payload.len() as int) == payload,
        forall|i: int|
            8 + payload.len() <= i < element(data_type, payload, order).len()
                ==> #[trigger] element(data_type, payload, order)[i] == 0,
{
    reveal(element);
    let n = payload.len() as int;
    let t = tag(data_type.spec_code(), declared_length(data_type, n), order);
    lemma_tag_len(data_type.spec_code(), declared_length(data_type, n), order);
    lemma_padding(n);
    let written = element(data_type, payload, order);
    assert(written.subrange(0, 8) =~= t);
    assert(written.subrange(8, 8 + n) =~= payload);
}

/// **Length field.** The tag of a matrix declares the length of the
/// payload with its padding; the tag of any other data element declares
/// the length of the payload without the padding that follows it. (A
/// length field holds the low 32 bits of a length.)
pub proof fn lemma_declared_length(data_type: DataType, n: int)
    requires
        0 <= n,
        n + padding(n) < 0x1_0000_0000,
    ensures
        data_type == DataType::Matrix ==> declared_length(data_type, n) == n + padding(n),
        data_type != DataType::Matrix ==> declared_length(data_type, n) == n,
{
    lemma_padding(n);
}

/// A data element whose payload needs no padding is the tag and the
/// payload.
pub proof fn lemma_element_without_padding(
    data_type: DataType,
    payload: Seq<u8>,
    order: ByteOrder,
)
    requires
        payload.len() % 8 == 0,
    ensures
        element(data_type, payload, order) == tag(
            data_type.spec_code(),
            length_field(payload.len() as int),
            order,
        ) + payload,
{
    reveal(element);
    lemma_padding(payload.len() as int);
    assert(repeated(0, 0) =~= Seq::<u8>::empty());
    assert(element(data_type, payload, order) =~= tag(
        data_type.spec_code(),
        length_field(payload.len() as int),
        order,
    ) + payload);
}

/// **Length field of a matrix.** The tag of a matrix declares the sum of
/// the sizes of its parts, each with its tag and its padding: sixteen
/// bytes of array flags, the dimensions, the name, the real part and, if
/// there is one, the imaginary part. That sum is a multiple of eight, so
/// the matrix itself needs no padding.
pub proof fn lemma_matrix_declared_length(matrix: MatrixView, order: ByteOrder)
    requires
        matrix.real_part.kind.is_numeric(),
        matrix.imaginary_part matches Some(part) ==> part.kind.is_numeric(),
        matrix_size(matrix) < 0x1_0000_0000,
    ensures
        matrix_element(matrix, order) == tag(
            DataType::Matrix.spec_code(),
            matrix_size(matrix) as u32,
            order,
        ) + matrix_payload(matrix, order),
        matrix_size(matrix) == array_flags_element(matrix.flags, order).len()
            + dimensions_element(matrix.dimensions, order).len() + name_element(
            matrix.name,
            order,
        ).len() + numeric_element(matrix.real_part, order).len() + optional_numeric_element(
            matrix.imaginary_part,
            order,
        ).len(),
{
    lemma_matrix_payload_len(matrix, order);
    lemma_element_without_padding(DataType::Matrix, matrix_payload(matrix, order), order);
    lemma_array_flags_len(matrix.flags, order);
    lemma_dimensions_len(matrix.dimensions, order);
    lemma_element_len(DataType::Int8, name_payload(matrix.name), order);
    lemma_numeric_len(matrix.real_part, order);
    lemma_optional_numeric_len(matrix.imaginary_part, order);
}

/// Where each part of a matrix starts in the payload of the matrix.
pub struct PartOffsets {
    pub dimensions: int,
    pub name: int,
    pub real_part: int,
    pub imaginary_part: int,
    pub end: int,
}

/// The offsets of the parts of a matrix from the start of its payload.
/// The array flags stand at offset zero.
pub open spec fn part_offsets(matrix: MatrixView) -> PartOffsets {
    let dimensions: int = 16;
    let name = dimensions + dimensions_size(matrix.dimensions.len() as int);
    let real_part = name + framed_size(name_payload(matrix.name).len() as int);
    let imaginary_part = real_part + numeric_size(
        matrix.real_part.kind,
        matrix.real_part.values.len() as int,
    );
    let end = imaginary_part + optional_numeric_size(matrix.imaginary_part);
    PartOffsets { dimensions, name, real_part, imaginary_part, end }
}

/// **Alignment.** Every part of a matrix starts at a multiple of eight
/// from the start of the payload of the matrix, and the parts stand one
/// right after the other.
pub proof fn lemma_parts_aligned(matrix: MatrixView, order: ByteOrder)
    requires
        matrix.real_part.kind.is_numeric(),
        matrix.imaginary_part matches Some(part) ==> part.kind.is_numeric(),
    ensures
        ({
            let at = part_offsets(matrix);
            let payload = matrix_payload(matrix, order);
            &&& at.dimensions % 8 == 0
            &&& at.name % 8 == 0
            &&& at.real_part % 8 == 0
            &&& at.imaginary_part % 8 == 0
            &&& at.end == payload.len()
            &&& payload.subrange(0, at.dimensions) == array_flags_element(matrix.flags, order)
            &&& payload.subrange(at.dimensions, at.name) == dimensions_element(
                matrix.dimensions,
                order,
            )
            &&& payload.subrange(at.name, at.real_part) == name_element(matrix.name, order)
            &&& payload.subrange(at.real_part, at.imaginary_part) == numeric_element(
                matrix.real_part,
                order,
            )
            &&& payload.subrange(at.imaginary_part, at.end) == optional_numeric_element(
                matrix.imaginary_part,
                order,
            )
        }),
{
    let at = part_offsets(matrix);
    let payload = matrix_payload(matrix, order);
    let a = array_flags_element(matrix.flags, order);
    let b = dimensions_element(matrix.dimensions, order);
    let c = name_element(matrix.name, order);
    let d = numeric_element(matrix.real_part, order);
    let e = optional_numeric_element(matrix.imaginary_part, order);
    lemma_array_flags_len(matrix.flags, order);
    lemma_dimensions_len(matrix.dimensions, order);
    lemma_element_len(DataType::Int32, dimensions_payload(matrix.dimensions, order), order);
    lemma_element_len(DataType::Int8, name_payload(matrix.name), order);
    lemma_numeric_len(matrix.real_part, order);
    lemma_element_len(matrix.real_part.kind, numeric_payload(matrix.real_part, order), order);
    lemma_optional_numeric_len(matrix.imaginary_part, order);
    lemma_matrix_payload_len(matrix, order);
    assert(payload.subrange(0, payload.len() as int) =~= payload);
    lemma_split(payload, 0, at.end, a + b + c + d, e);
    lemma_split(payload, 0, at.imaginary_part, a + b + c, d);
    lemma_split(payload, 0, at.real_part, a + b, c);
    lemma_split(payload, 0, at.name, a, b);
}

/// **Short descriptions.** A text of fewer than four bytes is not
/// refused: the header carries the default description of 19 bytes in
/// its place.
pub proof fn lemma_short_description(text: Seq<u8>)
    requires
        text.len() < 4,
    ensures
        effective_description(text) == default_description(),
        effective_description(text).len() == 19,
{
    lemma_default_description();
}

/// **Empty name.** A name of no characters is written as a tag alone:
/// eight bytes, a declared length of zero, no padding.
pub proof fn lemma_empty_name_element(order: ByteOrder)
    ensures
        name_payload(Seq::<char>::empty()).len() == 0,
        name_element(Seq::empty(), order) == tag(DataType::Int8.spec_code(), 0, order),
        name_element(Seq::empty(), order).len() == 8,
{
    reveal(element);
    let payload = name_payload(Seq::<char>::empty());
    assert(payload =~= Seq::<u8>::empty());
    lemma_tag_len(DataType::Int8.spec_code(), 0, order);
    assert(name_element(Seq::empty(), order) =~= tag(DataType::Int8.spec_code(), 0, order));
}

} // verus!
