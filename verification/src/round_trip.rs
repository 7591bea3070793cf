//! What is written is read back: the parser, applied to the bytes that
//! the format gives for a file, returns the matrices of that file.
//!
//! The lemmas follow the format from the inside out: a data element, each
//! part of a matrix, a matrix, a row of matrices, a file.

use crate::format::{
    array_flags_element, array_flags_payload, declared_length, dimensions_element,
    dimensions_payload, dimensions_size, effective_description, element, flag_bits,
    flags_word, framed_size, header, lemma_array_flags_len, lemma_dimensions_len,
    lemma_element_len, lemma_header_layout, lemma_matrix_payload_len, lemma_numeric_len,
    lemma_optional_numeric_len, lemma_padding, matrix_element, matrix_elements,
    matrix_payload, matrix_size, name_element, name_payload, numeric_element, numeric_size,
    optional_numeric_element, optional_numeric_size, padding, repeated, tag,
};
use crate::parse::reader::{
    spec_decode_flags, spec_parse, spec_parse_array_flags, spec_parse_dimensions,
    spec_parse_element, spec_parse_elements, spec_parse_header, spec_parse_imaginary,
    spec_parse_matrix, spec_parse_name, spec_parse_numeric, spec_read_element, HeaderView,
    ParseError, RawElement,
};
use crate::parse::types::{numeric_payload, ArrayFlags, DataType, MatrixView, NumericView};
use crate::primitive::{
    bytes2, bytes4, lemma_low_byte, lemma_value2_bytes2, lemma_value4_bytes4, value2,
    ByteOrder,
};
use crate::scalar::{all_in_range, lemma_values_round_trip};
use crate::sequences::{lemma_split, lemma_subrange_of_subrange};
use crate::write::{lemma_row_vector_wf, row_vector};
use vstd::prelude::*;

verus! {

/// The tag of a data element is read back from where the element was
/// written, and the payload is found behind it, if the length of payload
/// and padding fits a length field of 32 bits.
pub proof fn lemma_read_written_element(
    src: Seq<u8>,
    pos: int,
    end: int,
    data_type: DataType,
    payload: Seq<u8>,
    order: ByteOrder,
)
    requires
        0 <= pos,
        pos + framed_size(payload.len() as int) <= end <= src.len() <= usize::MAX,
        src.subrange(pos, pos + framed_size(payload.len() as int)) == element(
            data_type,
            payload,
            order,
        ),
        payload.len() + padding(payload.len() as int) < 0x1_0000_0000,
        data_type == DataType::Matrix ==> payload.len() % 8 == 0,
    ensures
        spec_read_element(src, pos, end, order) == Ok::<RawElement, ParseError>(
            RawElement {
                code: data_type.spec_code(),
                declared: payload.len() as u32,
                start: (pos + 8) as usize,
                next: (pos + framed_size(payload.len() as int)) as usize,
            },
        ),
        src.subrange(pos + 8, pos + 8 + payload.len()) == payload,
{
    reveal(spec_read_element);
    let n = payload.len() as int;
    let written = element(data_type, payload, order);
    let code = data_type.spec_code();
    let declared = declared_length(data_type, n);
    lemma_padding(n);
    assert(declared == n);
    lemma_element_len(data_type, payload, order);
    lemma_value4_bytes4(code as int, order);
    lemma_value4_bytes4(declared as int, order);
    assert(written == bytes4(code as int, order) + bytes4(declared as int, order) + payload
        + repeated(0, padding(n))) by {
        reveal(element);
    }
    assert(written.subrange(0, 4) =~= bytes4(code as int, order));
    assert(written.subrange(4, 8) =~= bytes4(declared as int, order));
    assert(written.subrange(8, 8 + n) =~= payload);
    lemma_subrange_of_subrange(src, pos, pos + framed_size(n), 0, 4);
    lemma_subrange_of_subrange(src, pos, pos + framed_size(n), 4, 8);
    lemma_subrange_of_subrange(src, pos, pos + framed_size(n), 8, 8 + n);
    lemma_padding(declared as int);
}

/// The flags are found again in the word that was made of them.
pub proof fn lemma_decode_flags_word(flags: ArrayFlags)
    requires
        flags.class.spec_is_numeric(),
    ensures
        0 <= flags_word(flags) < 0x1_0000_0000,
        spec_decode_flags(flags_word(flags) as u32, flags.nzmax) == Some(flags),
{
    let class = flags.class.spec_code() as int;
    let bits = flag_bits(flags);
    lemma_low_byte(class, bits);
    flags.class.lemma_code_round_trip();
    let decoded = spec_decode_flags(flags_word(flags) as u32, flags.nzmax)->0;
    assert(decoded.complex == flags.complex);
    assert(decoded.global == flags.global);
    assert(decoded.logical == flags.logical);
}

/// The array flags are read back from where they were written.
pub proof fn lemma_parse_written_array_flags(
    src: Seq<u8>,
    pos: int,
    end: int,
    flags: ArrayFlags,
    order: ByteOrder,
)
    requires
        0 <= pos,
        pos + 16 <= end <= src.len() <= usize::MAX,
        src.subrange(pos, pos + 16) == array_flags_element(flags, order),
        flags.class.spec_is_numeric(),
    ensures
        spec_parse_array_flags(src, pos, end, order) == Ok::<(ArrayFlags, usize), ParseError>(
            (flags, (pos + 16) as usize),
        ),
{
    reveal(spec_parse_array_flags);
    let payload = array_flags_payload(flags, order);
    lemma_array_flags_len(flags, order);
    lemma_padding(8);
    lemma_read_written_element(src, pos, end, DataType::UInt32, payload, order);
    lemma_decode_flags_word(flags);
    lemma_value4_bytes4(flags_word(flags), order);
    lemma_value4_bytes4(flags.nzmax as int, order);
    assert(payload.subrange(0, 4) =~= bytes4(flags_word(flags), order));
    assert(payload.subrange(4, 8) =~= bytes4(flags.nzmax as int, order));
    lemma_subrange_of_subrange(src, pos + 8, pos + 16, 0, 4);
    lemma_subrange_of_subrange(src, pos + 8, pos + 16, 4, 8);
}

/// The dimensions are read back from where they were written.
pub proof fn lemma_parse_written_dimensions(
    src: Seq<u8>,
    pos: int,
    end: int,
    dimensions: Seq<int>,
    order: ByteOrder,
)
    requires
        0 <= pos,
        dimensions.len() <= 3,
        all_in_range(dimensions, 4, true),
        pos + dimensions_size(dimensions.len() as int) <= end <= src.len() <= usize::MAX,
        src.subrange(pos, pos + dimensions_size(dimensions.len() as int)) == dimensions_element(
            dimensions,
            order,
        ),
    ensures
        spec_parse_dimensions(src, pos, end, order) == Ok::<(Seq<int>, usize), ParseError>(
            (dimensions, (pos + dimensions_size(dimensions.len() as int)) as usize),
        ),
{
    reveal(spec_parse_dimensions);
    let payload = dimensions_payload(dimensions, order);
    lemma_dimensions_len(dimensions, order);
    lemma_padding(payload.len() as int);
    lemma_read_written_element(src, pos, end, DataType::Int32, payload, order);
    lemma_values_round_trip(dimensions, 4, true, order);
}

/// The name is read back from where it was written.
pub proof fn lemma_parse_written_name(
    src: Seq<u8>,
    pos: int,
    end: int,
    name: Seq<char>,
    order: ByteOrder,
)
    requires
        0 <= pos,
        framed_size(name_payload(name).len() as int) <= 0x1_0000_0000,
        pos + framed_size(name_payload(name).len() as int) <= end <= src.len() <= usize::MAX,
        src.subrange(pos, pos + framed_size(name_payload(name).len() as int)) == name_element(
            name,
            order,
        ),
    ensures
        spec_parse_name(src, pos, end, order) == Ok::<(Seq<char>, usize), ParseError>(
            (name, (pos + framed_size(name_payload(name).len() as int)) as usize),
        ),
{
    reveal(spec_parse_name);
    let payload = name_payload(name);
    lemma_padding(payload.len() as int);
    lemma_read_written_element(src, pos, end, DataType::Int8, payload, order);
    vstd::utf8::encode_utf8_valid_utf8(name);
    vstd::utf8::encode_utf8_decode_utf8(name);
}

/// A numeric part is read back from where it was written.
pub proof fn lemma_parse_written_numeric(
    src: Seq<u8>,
    pos: int,
    end: int,
    data: NumericView,
    order: ByteOrder,
)
    requires
        0 <= pos,
        data.wf(),
        numeric_size(data.kind, data.values.len() as int) <= 0x1_0000_0000,
        pos + numeric_size(data.kind, data.values.len() as int) <= end <= src.len()
            <= usize::MAX,
        src.subrange(pos, pos + numeric_size(data.kind, data.values.len() as int))
            == numeric_element(data, order),
    ensures
        spec_parse_numeric(src, pos, end, order) == Ok::<(NumericView, usize), ParseError>(
            (data, (pos + numeric_size(data.kind, data.values.len() as int)) as usize),
        ),
{
    reveal(spec_parse_numeric);
    let payload = numeric_payload(data, order);
    lemma_numeric_len(data, order);
    lemma_padding(payload.len() as int);
    lemma_read_written_element(src, pos, end, data.kind, payload, order);
    data.kind.lemma_code_round_trip();
    lemma_values_round_trip(data.values, data.kind.width(), data.kind.signed(), order);
    assert((data.values.len() * data.kind.width()) as int % data.kind.width() as int == 0) by {
        vstd::arithmetic::div_mod::lemma_mod_multiples_basic(
            data.values.len() as int,
            data.kind.width() as int,
        );
    }
}

/// The imaginary part is read back from where it was written, and the
/// matrix is found to end there.
pub proof fn lemma_parse_written_imaginary(
    src: Seq<u8>,
    pos: int,
    end: int,
    data: Option<NumericView>,
    count: nat,
    order: ByteOrder,
)
    requires
        0 <= pos,
        data matches Some(part) ==> part.wf() && part.values.len() == count,
        optional_numeric_size(data) <= 0x1_0000_0000,
        pos + optional_numeric_size(data) == end,
        end <= src.len() <= usize::MAX,
        src.subrange(pos, end) == optional_numeric_element(data, order),
    ensures
        spec_parse_imaginary(src, pos, end, order, data is Some, count) == Ok::<
            Option<NumericView>,
            ParseError,
        >(data),
{
    reveal(spec_parse_imaginary);
    match data {
        Some(part) => {
            lemma_parse_written_numeric(src, pos, end, part, order);
        },
        None => {},
    }
}

/// A matrix is read back from where its payload was written, if the
/// payload has fewer than `2^32` bytes.
pub proof fn lemma_parse_written_matrix(
    src: Seq<u8>,
    start: int,
    end: int,
    matrix: MatrixView,
    order: ByteOrder,
)
    requires
        0 <= start,
        matrix.wf(),
        matrix_size(matrix) < 0x1_0000_0000,
        start + matrix_size(matrix) == end,
        end <= src.len() <= usize::MAX,
        src.subrange(start, end) == matrix_payload(matrix, order),
    ensures
        spec_parse_matrix(src, start, end, order) == Ok::<MatrixView, ParseError>(matrix),
{
    reveal(spec_parse_matrix);
    let a = array_flags_element(matrix.flags, order);
    let b = dimensions_element(matrix.dimensions, order);
    let c = name_element(matrix.name, order);
    let d = numeric_element(matrix.real_part, order);
    let e = optional_numeric_element(matrix.imaginary_part, order);
    lemma_array_flags_len(matrix.flags, order);
    lemma_dimensions_len(matrix.dimensions, order);
    lemma_element_len(DataType::Int8, name_payload(matrix.name), order);
    lemma_numeric_len(matrix.real_part, order);
    lemma_optional_numeric_len(matrix.imaginary_part, order);
    lemma_matrix_payload_len(matrix, order);
    let after_flags = start + 16;
    let after_dimensions = after_flags + dimensions_size(matrix.dimensions.len() as int);
    let after_name = after_dimensions + framed_size(name_payload(matrix.name).len() as int);
    let after_real_part = after_name + numeric_size(
        matrix.real_part.kind,
        matrix.real_part.values.len() as int,
    );
    assert(b.len() >= 8 && c.len() >= 8 && d.len() >= 8) by {
        lemma_padding(4 * (matrix.dimensions.len() as int));
        lemma_padding(name_payload(matrix.name).len() as int);
        lemma_padding((matrix.real_part.values.len() * matrix.real_part.kind.width()) as int);
    }
    lemma_split(src, start, end, a + b + c + d, e);
    lemma_split(src, start, after_real_part, a + b + c, d);
    lemma_split(src, start, after_name, a + b, c);
    lemma_split(src, start, after_dimensions, a, b);
    lemma_parse_written_array_flags(src, start, end, matrix.flags, order);
    lemma_parse_written_dimensions(src, after_flags, end, matrix.dimensions, order);
    lemma_parse_written_name(src, after_dimensions, end, matrix.name, order);
    lemma_parse_written_numeric(src, after_name, end, matrix.real_part, order);
    lemma_parse_written_imaginary(
        src,
        after_real_part,
        end,
        matrix.imaginary_part,
        matrix.real_part.values.len(),
        order,
    );
}

/// A matrix is read back from where it was written as a data element of
/// a file, if its payload has fewer than `2^32` bytes.
pub proof fn lemma_parse_written_element(
    src: Seq<u8>,
    pos: int,
    matrix: MatrixView,
    order: ByteOrder,
)
    requires
        0 <= pos,
        matrix.wf(),
        matrix_size(matrix) < 0x1_0000_0000,
        pos + 8 + matrix_size(matrix) <= src.len() <= usize::MAX,
        src.subrange(pos, pos + 8 + matrix_size(matrix)) == matrix_element(matrix, order),
    ensures
        spec_parse_element(src, pos, order) == Ok::<(MatrixView, usize), ParseError>(
            (matrix, (pos + 8 + matrix_size(matrix)) as usize),
        ),
{
    reveal(spec_parse_element);
    let payload = matrix_payload(matrix, order);
    lemma_matrix_payload_len(matrix, order);
    lemma_padding(payload.len() as int);
    lemma_read_written_element(src, pos, src.len() as int, DataType::Matrix, payload, order);
    lemma_parse_written_matrix(src, pos + 8, pos + 8 + matrix_size(matrix), matrix, order);
}

/// Whether every matrix of a row can be written and read back: each is
/// well-formed and has a payload of fewer than `2^32` bytes, the most that
/// a tag can declare.
pub open spec fn all_writable(matrices: Seq<MatrixView>) -> bool {
    forall|i: int|
        0 <= i < matrices.len() ==> (#[trigger] matrices[i]).wf() && matrix_size(matrices[i])
            < 0x1_0000_0000
}

/// A row of matrices is read back from where it was written, up to the
/// end of the input.
pub proof fn lemma_parse_written_elements(
    src: Seq<u8>,
    pos: int,
    matrices: Seq<MatrixView>,
    order: ByteOrder,
)
    requires
        0 <= pos <= src.len() <= usize::MAX,
        all_writable(matrices),
        src.subrange(pos, src.len() as int) == matrix_elements(matrices, order),
    ensures
        spec_parse_elements(src, pos, order) == Ok::<Seq<MatrixView>, ParseError>(matrices),
    decreases matrices.len(),
{
    if matrices.len() == 0 {
        assert(src.subrange(pos, src.len() as int).len() == 0);
        assert(matrices =~= Seq::<MatrixView>::empty());
    } else {
        let first = matrices.first();
        let rest = matrices.drop_first();
        let written = matrix_element(first, order);
        assert(first.wf() && matrix_size(first) < 0x1_0000_0000);
        assert(all_writable(rest)) by {
            assert forall|i: int| 0 <= i < rest.len() implies (#[trigger] rest[i]).wf()
                && matrix_size(rest[i]) < 0x1_0000_0000 by {
                assert(rest[i] == matrices[i + 1]);
            }
        }
        crate::format::lemma_matrix_element_len(first, order);
        lemma_split(src, pos, src.len() as int, written, matrix_elements(rest, order));
        let next = pos + 8 + matrix_size(first);
        lemma_parse_written_element(src, pos, first, order);
        lemma_parse_written_elements(src, next, rest, order);
        assert(seq![first] + rest =~= matrices);
    }
}

/// The header is read back from the front of any input that starts with
/// it: the description as it was written, filled up with spaces, and the
/// byte order that the header was written in.
pub proof fn lemma_parse_written_header(
    text: Seq<u8>,
    order: ByteOrder,
    rest: Seq<u8>,
)
    requires
        effective_description(text).len() <= 116,
    ensures
        spec_parse_header(header(text, order) + rest) == Ok::<HeaderView, ParseError>(
            HeaderView {
                description: effective_description(text) + repeated(
                    0x20,
                    116 - effective_description(text).len(),
                ),
                byte_order: order,
            },
        ),
{
    let h = header(text, order);
    let src = h + rest;
    lemma_header_layout(text, order);
    assert(src.subrange(0, 128) =~= h);
    assert(src.subrange(126, 128) =~= h.subrange(126, 128));
    assert(src.subrange(0, 116) =~= effective_description(text) + repeated(
        0x20,
        116 - effective_description(text).len(),
    ));
    assert(src[124] == h[124] && src[125] == h[125]);
    lemma_value2_bytes2(0x4D49, order);
    assert(value2(bytes2(0x4D49, ByteOrder::Big), ByteOrder::Little) != 0x4D49) by {
        reveal(bytes2);
        reveal(value2);
    }
}

/// **Round trip.** The bytes of a file are parsed to the matrices that
/// the file was made of: the same names, the same classes and flags, the
/// same values in the same order, in either byte order. It holds where
/// every matrix is well-formed, the payload of each has fewer than `2^32`
/// bytes, and the file fits the address space.
pub proof fn theorem_round_trip(text: Seq<u8>, matrices: Seq<MatrixView>, order: ByteOrder)
    requires
        effective_description(text).len() <= 116,
        all_writable(matrices),
        crate::format::file(text, matrices, order).len() <= usize::MAX,
    ensures
        spec_parse(crate::format::file(text, matrices, order)) == Ok::<
            Seq<MatrixView>,
            ParseError,
        >(matrices),
{
    let h = header(text, order);
    let body = matrix_elements(matrices, order);
    let src = h + body;
    lemma_header_layout(text, order);
    lemma_parse_written_header(text, order, body);
    assert(src.subrange(128, src.len() as int) =~= body);
    lemma_parse_written_elements(src, 128, matrices, order);
}

/// **Round trip of one array.** A header and one matrix after it are
/// parsed to that matrix.
pub proof fn theorem_round_trip_one(text: Seq<u8>, matrix: MatrixView, order: ByteOrder)
    requires
        effective_description(text).len() <= 116,
        matrix.wf(),
        matrix_size(matrix) < 0x1_0000_0000,
        136 + matrix_size(matrix) <= usize::MAX,
    ensures
        spec_parse(header(text, order) + matrix_element(matrix, order)) == Ok::<
            Seq<MatrixView>,
            ParseError,
        >(seq![matrix]),
{
    let matrices = seq![matrix];
    assert(matrices.drop_first() =~= Seq::<MatrixView>::empty());
    assert(matrix_elements(matrices, order) =~= matrix_element(matrix, order)) by {
        assert(matrix_elements(matrices.drop_first(), order) =~= Seq::<u8>::empty());
    }
    lemma_header_layout(text, order);
    crate::format::lemma_matrix_element_len(matrix, order);
    theorem_round_trip(text, matrices, order);
}

/// **Round trip of an array.** What the writer writes for an array, a
/// matrix of one row after a header, is parsed to that matrix: the name,
/// the real values and, if there are any, the imaginary values.
pub proof fn theorem_round_trip_array(
    text: Seq<u8>,
    name: Seq<char>,
    real_part: NumericView,
    imaginary_part: Option<NumericView>,
    order: ByteOrder,
)
    requires
        effective_description(text).len() <= 116,
        real_part.wf(),
        imaginary_part matches Some(part) ==> part.wf() && part.values.len()
            == real_part.values.len(),
        matrix_size(row_vector(name, real_part, imaginary_part)) < 0x1_0000_0000,
        136 + matrix_size(row_vector(name, real_part, imaginary_part)) <= usize::MAX,
    ensures
        spec_parse(
            header(text, order) + matrix_element(
                row_vector(name, real_part, imaginary_part),
                order,
            ),
        ) == Ok::<Seq<MatrixView>, ParseError>(seq![row_vector(name, real_part, imaginary_part)]),
{
    lemma_row_vector_wf(name, real_part, imaginary_part);
    theorem_round_trip_one(text, row_vector(name, real_part, imaginary_part), order);
}

/// **Empty name.** The tag that stands for a name of no characters is
/// read back as the empty name, and eight bytes are passed over.
pub proof fn lemma_parse_empty_name(src: Seq<u8>, pos: int, end: int, order: ByteOrder)
    requires
        0 <= pos,
        pos + 8 <= end <= src.len() <= usize::MAX,
        src.subrange(pos, pos + 8) == name_element(Seq::empty(), order),
    ensures
        spec_parse_name(src, pos, end, order) == Ok::<(Seq<char>, usize), ParseError>(
            (Seq::empty(), (pos + 8) as usize),
        ),
{
    crate::format::lemma_empty_name_element(order);
    lemma_parse_written_name(src, pos, end, Seq::empty(), order);
}

} // verus!
