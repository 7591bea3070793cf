//! Reading a file back: the header, then matrix after matrix.
//!
//! What the parser returns is stated twice: as a function on sequences of
//! bytes (`spec_parse` and the functions under it), and as the contract of
//! each parsing function, which says that the function computes just that.
//! Positions are offsets from the start of the input; every error names
//! the offset of the element at which it was found.

use crate::format::padding;
use crate::parse::types::{
    ArrayFlags, ArrayType, DataElement, DataType, MatrixView, NumericData, NumericView,
};
use crate::primitive::{get_u16, get_u32, value2, value4, ByteOrder};
use crate::scalar::{decode_all, decode_values, ints};
use crate::write::writers::sizes::padding_size;
use vstd::prelude::*;
use vstd::utf8::{decode_utf8, encode_utf8, valid_utf8};

verus! {

/// What was wrong with the input.
#[derive(Clone, Copy, Debug, PartialEq, Eq, Structural)]
pub enum ParseErrorKind {
    /// The input ends before the header, a tag, or the payload and padding
    /// that a tag declares.
    Truncated,
    /// The byte-order marker of the header is neither `IM` nor `MI`.
    BadByteOrderMark,
    /// The version of the header is not 0x0100.
    UnsupportedVersion,
    /// The type code of a tag stands for no type.
    UnsupportedType,
    /// A data element of the file is no matrix.
    UnsupportedElement,
    /// The class code of the array flags stands for no class, or for a
    /// class whose arrays are no plain numeric matrices.
    UnsupportedClass,
    /// The array flags, the dimensions or the name have another type than
    /// their place in a matrix asks for.
    UnexpectedType,
    /// A numeric part has a type that holds no numbers.
    NonNumericType,
    /// The array flags do not have eight bytes, or the payload of the
    /// dimensions or of a numeric part does not hold whole values.
    InvalidLength,
    /// There are more than three dimensions.
    TooManyDimensions,
    /// The name is not UTF-8.
    InvalidName,
    /// The imaginary part has another number of values than the real part.
    LengthMismatch,
    /// A matrix goes on after its last part.
    TrailingBytes,
}

/// An error of the parser: what was wrong, and at which offset of the
/// input the element starts that it was wrong with.
#[derive(Clone, Copy, Debug, PartialEq, Eq, Structural)]
pub struct ParseError {
    pub kind: ParseErrorKind,
    pub offset: usize,
}

/// The error of the given kind at the given offset.
pub open spec fn fault(kind: ParseErrorKind, offset: int) -> ParseError {
    ParseError { kind, offset: offset as usize }
}

/// A data element as its tag describes it: the type code, the declared
/// length, where the payload starts and where the next element starts.
/// The payload is the `declared` bytes from `start` on.
#[derive(Clone, Copy, Debug, PartialEq, Eq, Structural)]
pub struct RawElement {
    pub code: u32,
    pub declared: u32,
    pub start: usize,
    pub next: usize,
}

/// What a header says: the 116 bytes of the description as they stand in
/// the file, and the byte order of the file.
#[derive(Clone, Debug, PartialEq, Eq)]
pub struct Header {
    pub description: Vec<u8>,
    pub byte_order: ByteOrder,
}

/// A header as mathematics sees it.
pub struct HeaderView {
    pub description: Seq<u8>,
    pub byte_order: ByteOrder,
}

impl View for Header {
    type V = HeaderView;

    open spec fn view(&self) -> HeaderView {
        HeaderView { description: self.description@, byte_order: self.byte_order }
    }
}

/// The payload of a data element.
pub open spec fn payload_of(src: Seq<u8>, raw: RawElement) -> Seq<u8> {
    src.subrange(raw.start as int, raw.start + raw.declared)
}

/// The data element whose tag starts at `pos`, in input that ends at
/// `end`. The declared length is taken as the length of the payload; the
/// padding after it is passed over. Tag, payload and padding must lie
/// before `end`, and `end` within the input.
#[verifier::opaque]
pub open spec fn spec_read_element(src: Seq<u8>, pos: int, end: int, order: ByteOrder) -> Result<
    RawElement,
    ParseError,
> {
    if end > src.len() || end - pos < 8 {
        Err(fault(ParseErrorKind::Truncated, pos))
    } else {
        let code = value4(src.subrange(pos, pos + 4), order) as u32;
        let declared = value4(src.subrange(pos + 4, pos + 8), order) as u32;
        if end - pos - 8 < declared + padding(declared as int) {
            Err(fault(ParseErrorKind::Truncated, pos))
        } else {
            Ok(
                RawElement {
                    code,
                    declared,
                    start: (pos + 8) as usize,
                    next: (pos + 8 + declared + padding(declared as int)) as usize,
                },
            )
        }
    }
}

/// The array flags that the word of the flags stands for, if its class is
/// one of plain numeric matrices. Bits that the format leaves unused are
/// passed over.
pub open spec fn spec_decode_flags(word: u32, nzmax: u32) -> Option<ArrayFlags> {
    let bits = word / 256 % 256;
    match ArrayType::spec_from_code((word % 256) as u8) {
        Some(class) => if class.spec_is_numeric() {
            Some(
                ArrayFlags {
                    complex: bits / 8 % 2 == 1,
                    global: bits / 4 % 2 == 1,
                    logical: bits / 2 % 2 == 1,
                    class,
                    nzmax,
                },
            )
        } else {
            None
        },
        None => None,
    }
}

/// The array flags read from the element at `pos`, and where the next
/// element starts.
#[verifier::opaque]
pub open spec fn spec_parse_array_flags(
    src: Seq<u8>,
    pos: int,
    end: int,
    order: ByteOrder,
) -> Result<(ArrayFlags, usize), ParseError> {
    match spec_read_element(src, pos, end, order) {
        Err(e) => Err(e),
        Ok(raw) => if raw.code != DataType::UInt32.spec_code() {
            Err(fault(ParseErrorKind::UnexpectedType, pos))
        } else if raw.declared != 8 {
            Err(fault(ParseErrorKind::InvalidLength, pos))
        } else {
            let word = value4(src.subrange(raw.start as int, raw.start + 4), order) as u32;
            let nzmax = value4(src.subrange(raw.start + 4, raw.start + 8), order) as u32;
            match spec_decode_flags(word, nzmax) {
                Some(flags) => Ok((flags, raw.next)),
                None => Err(fault(ParseErrorKind::UnsupportedClass, pos)),
            }
        },
    }
}

/// The dimensions read from the element at `pos`, and where the next
/// element starts.
#[verifier::opaque]
pub open spec fn spec_parse_dimensions(
    src: Seq<u8>,
    pos: int,
    end: int,
    order: ByteOrder,
) -> Result<(Seq<int>, usize), ParseError> {
    match spec_read_element(src, pos, end, order) {
        Err(e) => Err(e),
        Ok(raw) => if raw.code != DataType::Int32.spec_code() {
            Err(fault(ParseErrorKind::UnexpectedType, pos))
        } else if raw.declared % 4 != 0 {
            Err(fault(ParseErrorKind::InvalidLength, pos))
        } else if raw.declared > 12 {
            Err(fault(ParseErrorKind::TooManyDimensions, pos))
        } else {
            Ok((decode_values(payload_of(src, raw), 4, true, order), raw.next))
        },
    }
}

/// The name read from the element at `pos`, and where the next element
/// starts.
#[verifier::opaque]
pub open spec fn spec_parse_name(src: Seq<u8>, pos: int, end: int, order: ByteOrder) -> Result<
    (Seq<char>, usize),
    ParseError,
> {
    match spec_read_element(src, pos, end, order) {
        Err(e) => Err(e),
        Ok(raw) => if raw.code != DataType::Int8.spec_code() {
            Err(fault(ParseErrorKind::UnexpectedType, pos))
        } else if !valid_utf8(payload_of(src, raw)) {
            Err(fault(ParseErrorKind::InvalidName, pos))
        } else {
            Ok((decode_utf8(payload_of(src, raw)), raw.next))
        },
    }
}

/// The numeric part read from the element at `pos`, and where the next
/// element starts.
#[verifier::opaque]
pub open spec fn spec_parse_numeric(src: Seq<u8>, pos: int, end: int, order: ByteOrder) -> Result<
    (NumericView, usize),
    ParseError,
> {
    match spec_read_element(src, pos, end, order) {
        Err(e) => Err(e),
        Ok(raw) => match DataType::spec_from_code(raw.code) {
            None => Err(fault(ParseErrorKind::UnsupportedType, pos)),
            Some(kind) => if !kind.is_numeric() {
                Err(fault(ParseErrorKind::NonNumericType, pos))
            } else if raw.declared as int % kind.width() as int != 0 {
                Err(fault(ParseErrorKind::InvalidLength, pos))
            } else {
                Ok(
                    (
                        NumericView {
                            kind,
                            values: decode_values(
                                payload_of(src, raw),
                                kind.width(),
                                kind.signed(),
                                order,
                            ),
                        },
                        raw.next,
                    ),
                )
            },
        },
    }
}

/// The imaginary part of a matrix whose other parts are given: read from
/// `pos` where the flags say that the matrix is complex, absent where they
/// do not. It must have as many values as the real part, and the matrix
/// must end where its parts end.
#[verifier::opaque]
pub open spec fn spec_parse_imaginary(
    src: Seq<u8>,
    pos: int,
    end: int,
    order: ByteOrder,
    complex: bool,
    count: nat,
) -> Result<Option<NumericView>, ParseError> {
    if complex {
        match spec_parse_numeric(src, pos, end, order) {
            Err(e) => Err(e),
            Ok((part, next)) => if part.values.len() != count {
                Err(fault(ParseErrorKind::LengthMismatch, pos))
            } else if next != end {
                Err(fault(ParseErrorKind::TrailingBytes, next as int))
            } else {
                Ok(Some(part))
            },
        }
    } else if pos != end {
        Err(fault(ParseErrorKind::TrailingBytes, pos))
    } else {
        Ok(None)
    }
}

/// The matrix whose payload lies from `start` up to `end`: array flags,
/// dimensions, name, real part and, where the flags say so, imaginary
/// part.
#[verifier::opaque]
pub open spec fn spec_parse_matrix(src: Seq<u8>, start: int, end: int, order: ByteOrder) -> Result<
    MatrixView,
    ParseError,
> {
    match spec_parse_array_flags(src, start, end, order) {
        Err(e) => Err(e),
        Ok((flags, after_flags)) => match spec_parse_dimensions(
            src,
            after_flags as int,
            end,
            order,
        ) {
            Err(e) => Err(e),
            Ok((dimensions, after_dimensions)) => match spec_parse_name(
                src,
                after_dimensions as int,
                end,
                order,
            ) {
                Err(e) => Err(e),
                Ok((name, after_name)) => match spec_parse_numeric(
                    src,
                    after_name as int,
                    end,
                    order,
                ) {
                    Err(e) => Err(e),
                    Ok((real_part, after_real_part)) => match spec_parse_imaginary(
                        src,
                        after_real_part as int,
                        end,
                        order,
                        flags.complex,
                        real_part.values.len(),
                    ) {
                        Err(e) => Err(e),
                        Ok(imaginary_part) => Ok(
                            MatrixView { flags, dimensions, name, real_part, imaginary_part },
                        ),
                    },
                },
            },
        },
    }
}

/// The matrix that is the data element at `pos`, and where the next data
/// element starts. A data element of another type is refused.
#[verifier::opaque]
pub open spec fn spec_parse_element(src: Seq<u8>, pos: int, order: ByteOrder) -> Result<
    (MatrixView, usize),
    ParseError,
> {
    match spec_read_element(src, pos, src.len() as int, order) {
        Err(e) => Err(e),
        Ok(raw) => match DataType::spec_from_code(raw.code) {
            None => Err(fault(ParseErrorKind::UnsupportedType, pos)),
            Some(kind) => if kind != DataType::Matrix {
                Err(fault(ParseErrorKind::UnsupportedElement, pos))
            } else {
                match spec_parse_matrix(src, raw.start as int, raw.start + raw.declared, order) {
                    Err(e) => Err(e),
                    Ok(matrix) => Ok((matrix, raw.next)),
                }
            },
        },
    }
}

/// The matrices that the data elements from `pos` to the end of the input
/// hold, in their order. (An element that was read ends after its start
/// and within the input: [`lemma_element_advances`]. The case that one
/// does not is there for the recursion to end.)
pub open spec fn spec_parse_elements(src: Seq<u8>, pos: int, order: ByteOrder) -> Result<
    Seq<MatrixView>,
    ParseError,
>
    decreases src.len() - pos,
{
    if pos >= src.len() {
        Ok(Seq::empty())
    } else {
        match spec_parse_element(src, pos, order) {
            Err(e) => Err(e),
            Ok((matrix, next)) => if pos < next <= src.len() {
                match spec_parse_elements(src, next as int, order) {
                    Err(e) => Err(e),
                    Ok(rest) => Ok(seq![matrix] + rest),
                }
            } else {
                Err(fault(ParseErrorKind::Truncated, pos))
            },
        }
    }
}

/// A data element that was read ends after its start and within the
/// input.
pub proof fn lemma_element_advances(src: Seq<u8>, pos: int, order: ByteOrder)
    requires
        0 <= pos <= src.len() <= usize::MAX,
    ensures
        spec_parse_element(src, pos, order) matches Ok((_, next)) ==> pos < next <= src.len(),
{
    reveal(spec_parse_element);
    reveal(spec_read_element);
    if src.len() - pos >= 8 {
        crate::primitive::lemma_bytes4_value4(src.subrange(pos + 4, pos + 8), order);
        let declared = value4(src.subrange(pos + 4, pos + 8), order);
        crate::format::lemma_padding(declared);
    }
}

/// What the header at the front of the input says.
pub open spec fn spec_parse_header(src: Seq<u8>) -> Result<HeaderView, ParseError> {
    if src.len() < 128 {
        Err(fault(ParseErrorKind::Truncated, 0))
    } else {
        let marker = src.subrange(126, 128);
        if value2(marker, ByteOrder::Little) != 0x4D49 && value2(marker, ByteOrder::Big)
            != 0x4D49 {
            Err(fault(ParseErrorKind::BadByteOrderMark, 126))
        } else if src[124] != 0 || src[125] != 1 {
            Err(fault(ParseErrorKind::UnsupportedVersion, 124))
        } else {
            Ok(
                HeaderView {
                    description: src.subrange(0, 116),
                    byte_order: if value2(marker, ByteOrder::Little) == 0x4D49 {
                        ByteOrder::Little
                    } else {
                        ByteOrder::Big
                    },
                },
            )
        }
    }
}

/// The matrices of a file: the header tells the byte order, and the data
/// elements after it are read in that order.
pub open spec fn spec_parse(src: Seq<u8>) -> Result<Seq<MatrixView>, ParseError> {
    match spec_parse_header(src) {
        Err(e) => Err(e),
        Ok(header) => spec_parse_elements(src, 128, header.byte_order),
    }
}

/// The views of a vector of data elements.
pub open spec fn views(elements: Seq<DataElement>) -> Seq<MatrixView> {
    Seq::new(elements.len(), |i: int| elements[i]@)
}

/// Calls `String::from_utf8` of the standard library. It accepts exactly
/// the byte sequences that are UTF-8, and the string it gives has the
/// bytes that it was given.
#[verifier::external_body]
fn string_from_utf8(bytes: Vec<u8>) -> (r: Option<String>)
    ensures
        r is Some <==> valid_utf8(bytes@),
        r matches Some(s) ==> encode_utf8(s@) == bytes@,
{
    String::from_utf8(bytes).ok()
}

/// Reads the tag at `pos` of input that ends at `end`, and tells where
/// the payload lies and where the next element starts. Fails with
/// `Truncated` if the tag, the payload or its padding end after `end`.
pub fn read_element(source: &[u8], pos: usize, end: usize, order: ByteOrder) -> (r: Result<
    RawElement,
    ParseError,
>)
    ensures
        r == spec_read_element(source@, pos as int, end as int, order),
        r matches Ok(raw) ==> raw.start == pos + 8 && raw.start + raw.declared <= raw.next <= end
            <= source@.len() && raw.next == raw.start + raw.declared + padding(
            raw.declared as int,
        ),
{
    reveal(spec_read_element);
    if end > source.len() || end < pos || end - pos < 8 {
        return Err(ParseError { kind: ParseErrorKind::Truncated, offset: pos });
    }
    let code = get_u32(source, pos, order);
    let declared = get_u32(source, pos + 4, order);
    let padding_byte_count = padding_size(declared as usize);
    let needed: u64 = declared as u64 + padding_byte_count as u64;
    if ((end - pos - 8) as u64) < needed {
        return Err(ParseError { kind: ParseErrorKind::Truncated, offset: pos });
    }
    Ok(
        RawElement {
            code,
            declared,
            start: pos + 8,
            next: pos + 8 + declared as usize + padding_byte_count,
        },
    )
}

/// The array flags that the word of the flags stands for, or `None` if
/// its class is not one of plain numeric matrices.
pub fn decode_flags(word: u32, nzmax: u32) -> (r: Option<ArrayFlags>)
    ensures
        r == spec_decode_flags(word, nzmax),
{
    let bits = word / 256 % 256;
    match ArrayType::from_code((word % 256) as u8) {
        Some(class) => if class.is_numeric() {
            Some(
                ArrayFlags {
                    complex: bits / 8 % 2 == 1,
                    global: bits / 4 % 2 == 1,
                    logical: bits / 2 % 2 == 1,
                    class,
                    nzmax,
                },
            )
        } else {
            None
        },
        None => None,
    }
}

/// Reads the array flags from the element at `pos`.
pub fn parse_array_flags(source: &[u8], pos: usize, end: usize, order: ByteOrder) -> (r: Result<
    (ArrayFlags, usize),
    ParseError,
>)
    ensures
        r == spec_parse_array_flags(source@, pos as int, end as int, order),
        r matches Ok((_, next)) ==> pos < next <= end <= source@.len(),
{
    reveal(spec_parse_array_flags);
    let raw = read_element(source, pos, end, order)?;
    if raw.code != DataType::UInt32.code() {
        return Err(ParseError { kind: ParseErrorKind::UnexpectedType, offset: pos });
    }
    if raw.declared != 8 {
        return Err(ParseError { kind: ParseErrorKind::InvalidLength, offset: pos });
    }
    let word = get_u32(source, raw.start, order);
    let nzmax = get_u32(source, raw.start + 4, order);
    match decode_flags(word, nzmax) {
        Some(flags) => Ok((flags, raw.next)),
        None => Err(ParseError { kind: ParseErrorKind::UnsupportedClass, offset: pos }),
    }
}

/// Reads the dimensions from the element at `pos`.
pub fn parse_dimensions(source: &[u8], pos: usize, end: usize, order: ByteOrder) -> (r: Result<
    (Vec<i32>, usize),
    ParseError,
>)
    ensures
        match r {
            Ok((dimensions, next)) => spec_parse_dimensions(
                source@,
                pos as int,
                end as int,
                order,
            ) == Ok::<(Seq<int>, usize), ParseError>((ints(dimensions@), next)) && pos < next
                <= end <= source@.len(),
            Err(e) => spec_parse_dimensions(source@, pos as int, end as int, order) == Err::<
                (Seq<int>, usize),
                ParseError,
            >(e),
        },
{
    reveal(spec_parse_dimensions);
    let raw = read_element(source, pos, end, order)?;
    if raw.code != DataType::Int32.code() {
        return Err(ParseError { kind: ParseErrorKind::UnexpectedType, offset: pos });
    }
    if raw.declared % 4 != 0 {
        return Err(ParseError { kind: ParseErrorKind::InvalidLength, offset: pos });
    }
    if raw.declared > 12 {
        return Err(ParseError { kind: ParseErrorKind::TooManyDimensions, offset: pos });
    }
    let payload = vstd::slice::slice_subrange(source, raw.start, raw.start + raw.declared as usize);
    match decode_all::<i32>(payload, order) {
        Some(dimensions) => Ok((dimensions, raw.next)),
        None => Err(ParseError { kind: ParseErrorKind::InvalidLength, offset: pos }),
    }
}

/// Reads the name from the element at `pos`.
pub fn parse_name(source: &[u8], pos: usize, end: usize, order: ByteOrder) -> (r: Result<
    (String, usize),
    ParseError,
>)
    ensures
        match r {
            Ok((name, next)) => spec_parse_name(source@, pos as int, end as int, order) == Ok::<
                (Seq<char>, usize),
                ParseError,
            >((name@, next)) && pos < next <= end <= source@.len(),
            Err(e) => spec_parse_name(source@, pos as int, end as int, order) == Err::<
                (Seq<char>, usize),
                ParseError,
            >(e),
        },
{
    reveal(spec_parse_name);
    let raw = read_element(source, pos, end, order)?;
    if raw.code != DataType::Int8.code() {
        return Err(ParseError { kind: ParseErrorKind::UnexpectedType, offset: pos });
    }
    let payload = vstd::slice::slice_subrange(source, raw.start, raw.start + raw.declared as usize);
    match string_from_utf8(vstd::slice::slice_to_vec(payload)) {
        Some(name) => {
            proof {
                vstd::utf8::encode_utf8_decode_utf8(name@);
            }
            Ok((name, raw.next))
        },
        None => Err(ParseError { kind: ParseErrorKind::InvalidName, offset: pos }),
    }
}

/// Reads a numeric part from the element at `pos`.
pub fn parse_numeric(source: &[u8], pos: usize, end: usize, order: ByteOrder) -> (r: Result<
    (NumericData, usize),
    ParseError,
>)
    ensures
        match r {
            Ok((data, next)) => spec_parse_numeric(source@, pos as int, end as int, order) == Ok::<
                (NumericView, usize),
                ParseError,
            >((data@, next)) && pos < next <= end <= source@.len(),
            Err(e) => spec_parse_numeric(source@, pos as int, end as int, order) == Err::<
                (NumericView, usize),
                ParseError,
            >(e),
        },
{
    reveal(spec_parse_numeric);
    let raw = read_element(source, pos, end, order)?;
    let kind = match DataType::from_code(raw.code) {
        Some(kind) => kind,
        None => {
            return Err(ParseError { kind: ParseErrorKind::UnsupportedType, offset: pos });
        },
    };
    let payload = vstd::slice::slice_subrange(source, raw.start, raw.start + raw.declared as usize);
    if kind.byte_size().is_none() {
        return Err(ParseError { kind: ParseErrorKind::NonNumericType, offset: pos });
    }
    match NumericData::from_bytes(kind, payload, order) {
        Some(data) => Ok((data, raw.next)),
        None => Err(ParseError { kind: ParseErrorKind::InvalidLength, offset: pos }),
    }
}

/// Reads the imaginary part of a matrix whose other parts have been read:
/// from `pos` where the matrix is complex, none where it is not. Sees to
/// it that it has `count` values and that the matrix ends with its parts.
pub fn parse_imaginary(
    source: &[u8],
    pos: usize,
    end: usize,
    order: ByteOrder,
    complex: bool,
    count: usize,
) -> (r: Result<Option<NumericData>, ParseError>)
    ensures
        match r {
            Ok(Some(part)) => spec_parse_imaginary(
                source@,
                pos as int,
                end as int,
                order,
                complex,
                count as nat,
            ) == Ok::<Option<NumericView>, ParseError>(Some(part@)),
            Ok(None) => spec_parse_imaginary(
                source@,
                pos as int,
                end as int,
                order,
                complex,
                count as nat,
            ) == Ok::<Option<NumericView>, ParseError>(None),
            Err(e) => spec_parse_imaginary(
                source@,
                pos as int,
                end as int,
                order,
                complex,
                count as nat,
            ) == Err::<Option<NumericView>, ParseError>(e),
        },
{
    reveal(spec_parse_imaginary);
    if complex {
        let (part, next) = parse_numeric(source, pos, end, order)?;
        if part.len() != count {
            return Err(ParseError { kind: ParseErrorKind::LengthMismatch, offset: pos });
        }
        if next != end {
            return Err(ParseError { kind: ParseErrorKind::TrailingBytes, offset: next });
        }
        Ok(Some(part))
    } else if pos != end {
        Err(ParseError { kind: ParseErrorKind::TrailingBytes, offset: pos })
    } else {
        Ok(None)
    }
}

/// Reads the matrix whose payload lies from `start` up to `end`.
pub fn parse_matrix(source: &[u8], start: usize, end: usize, order: ByteOrder) -> (r: Result<
    DataElement,
    ParseError,
>)
    ensures
        match r {
            Ok(matrix) => spec_parse_matrix(source@, start as int, end as int, order) == Ok::<
                MatrixView,
                ParseError,
            >(matrix@),
            Err(e) => spec_parse_matrix(source@, start as int, end as int, order) == Err::<
                MatrixView,
                ParseError,
            >(e),
        },
{
    reveal(spec_parse_matrix);
    let (flags, after_flags) = parse_array_flags(source, start, end, order)?;
    let (dimensions, after_dimensions) = parse_dimensions(source, after_flags, end, order)?;
    let (name, after_name) = parse_name(source, after_dimensions, end, order)?;
    let (real_part, after_real_part) = parse_numeric(source, after_name, end, order)?;
    let imaginary_part = parse_imaginary(
        source,
        after_real_part,
        end,
        order,
        flags.complex,
        real_part.len(),
    )?;
    Ok(DataElement::NumericMatrix(flags, dimensions, name, real_part, imaginary_part))
}

/// Reads the matrix that is the data element at `pos`, and tells where the
/// next data element starts.
pub fn parse_element(source: &[u8], pos: usize, order: ByteOrder) -> (r: Result<
    (DataElement, usize),
    ParseError,
>)
    ensures
        match r {
            Ok((matrix, next)) => spec_parse_element(source@, pos as int, order) == Ok::<
                (MatrixView, usize),
                ParseError,
            >((matrix@, next)) && pos < next <= source@.len(),
            Err(e) => spec_parse_element(source@, pos as int, order) == Err::<
                (MatrixView, usize),
                ParseError,
            >(e),
        },
{
    reveal(spec_parse_element);
    let raw = read_element(source, pos, source.len(), order)?;
    match DataType::from_code(raw.code) {
        None => Err(ParseError { kind: ParseErrorKind::UnsupportedType, offset: pos }),
        Some(kind) => {
            if kind != DataType::Matrix {
                return Err(ParseError { kind: ParseErrorKind::UnsupportedElement, offset: pos });
            }
            let matrix = parse_matrix(source, raw.start, raw.start + raw.declared as usize, order)?;
            Ok((matrix, raw.next))
        },
    }
}

/// Reads the header at the front of the input.
pub fn parse_header(source: &[u8]) -> (r: Result<Header, ParseError>)
    ensures
        match r {
            Ok(header) => spec_parse_header(source@) == Ok::<HeaderView, ParseError>(header@),
            Err(e) => spec_parse_header(source@) == Err::<HeaderView, ParseError>(e),
        },
{
    if source.len() < 128 {
        return Err(ParseError { kind: ParseErrorKind::Truncated, offset: 0 });
    }
    let little = get_u16(source, 126, ByteOrder::Little) == 0x4D49;
    let big = get_u16(source, 126, ByteOrder::Big) == 0x4D49;
    if !little && !big {
        return Err(ParseError { kind: ParseErrorKind::BadByteOrderMark, offset: 126 });
    }
    if source[124] != 0 || source[125] != 1 {
        return Err(ParseError { kind: ParseErrorKind::UnsupportedVersion, offset: 124 });
    }
    let description = vstd::slice::slice_to_vec(vstd::slice::slice_subrange(source, 0, 116));
    Ok(
        Header {
            description,
            byte_order: if little {
                ByteOrder::Little
            } else {
                ByteOrder::Big
            },
        },
    )
}

/// Reads the matrices that the data elements from `pos` to the end of the
/// input hold.
pub fn parse_elements(source: &[u8], pos: usize, order: ByteOrder) -> (r: Result<
    Vec<DataElement>,
    ParseError,
>)
    ensures
        match r {
            Ok(elements) => spec_parse_elements(source@, pos as int, order) == Ok::<
                Seq<MatrixView>,
                ParseError,
            >(views(elements@)),
            Err(e) => spec_parse_elements(source@, pos as int, order) == Err::<
                Seq<MatrixView>,
                ParseError,
            >(e),
        },
{
    let mut elements: Vec<DataElement> = Vec::new();
    let mut at: usize = pos;
    let ghost whole = spec_parse_elements(source@, pos as int, order);
    assert(views(elements@) + Seq::<MatrixView>::empty() =~= Seq::<MatrixView>::empty());
    while at < source.len()
        invariant
            pos <= at,
            whole == spec_parse_elements(source@, pos as int, order),
            whole == match spec_parse_elements(source@, at as int, order) {
                Ok(rest) => Ok::<Seq<MatrixView>, ParseError>(views(elements@) + rest),
                Err(e) => Err::<Seq<MatrixView>, ParseError>(e),
            },
        decreases source@.len() - at,
    {
        let ghost before = views(elements@);
        match parse_element(source, at, order) {
            Err(e) => {
                return Err(e);
            },
            Ok((matrix, next)) => {
                proof {
                    let rest = spec_parse_elements(source@, next as int, order);
                    if let Ok(tail) = rest {
                        assert(before + (seq![matrix@] + tail) =~= before.push(matrix@) + tail);
                    }
                    assert(views(elements@.push(matrix)) =~= before.push(matrix@));
                }
                elements.push(matrix);
                at = next;
            },
        }
    }
    assert(views(elements@) + Seq::<MatrixView>::empty() =~= views(elements@));
    Ok(elements)
}

/// Reads a file: the header, then every data element up to the end of the
/// input. Each must be a numeric matrix.
pub fn parse(source: &[u8]) -> (r: Result<Vec<DataElement>, ParseError>)
    ensures
        match r {
            Ok(elements) => spec_parse(source@) == Ok::<Seq<MatrixView>, ParseError>(
                views(elements@),
            ),
            Err(e) => spec_parse(source@) == Err::<Seq<MatrixView>, ParseError>(e),
        },
{
    let header = parse_header(source)?;
    parse_elements(source, 128, header.byte_order)
}

} // verus!
