//! The parts of a file, each written at the end of a byte buffer.
//!
//! Every function here leaves the buffer as it was when it fails.

pub mod sizes;

use crate::format::{
    array_flags_element, array_flags_payload, dimensions_element, dimensions_payload,
    effective_description, element, header, lemma_matrix_payload_len, length_field,
    matrix_element, matrix_payload, matrix_size, name_element, numeric_element,
    optional_numeric_element, padding, repeated, tag,
};
use crate::parse::types::{ArrayFlags, DataElement, DataType, MatrixView};
use crate::primitive::{put_u16, put_u32, ByteOrder};
use crate::sequences::lemma_append_twice;
use crate::scalar::{encode_all, ints};
use crate::write::WriteError;
use sizes::padding_size;
use vstd::prelude::*;
use vstd::string::StringSliceAdditionalSpecFns;

verus! {

/// Writes `bytes` at the end of `w`.
pub fn append(w: &mut Vec<u8>, bytes: &[u8])
    ensures
        final(w)@ == old(w)@ + bytes@,
{
    let n = bytes.len();
    let mut i: usize = 0;
    while i < n
        invariant
            i <= n,
            n == bytes@.len(),
            w@ == old(w)@ + bytes@.take(i as int),
        decreases n - i,
    {
        w.push(bytes[i]);
        assert(bytes@.take(i + 1) =~= bytes@.take(i as int).push(bytes@[i as int]));
        i += 1;
    }
    assert(bytes@.take(n as int) =~= bytes@);
}

/// Writes `count` times the byte `byte` at the end of `w`.
pub fn append_repeated(w: &mut Vec<u8>, byte: u8, count: usize)
    ensures
        final(w)@ == old(w)@ + repeated(byte, count as int),
{
    let mut i: usize = 0;
    while i < count
        invariant
            i <= count,
            w@ == old(w)@ + repeated(byte, i as int),
        decreases count - i,
    {
        w.push(byte);
        assert(repeated(byte, i + 1) =~= repeated(byte, i as int).push(byte));
        i += 1;
    }
}

/// Writes the eight bytes of a tag at the end of `w`.
pub fn write_tag(w: &mut Vec<u8>, code: u32, declared: u32, order: ByteOrder)
    ensures
        final(w)@ == old(w)@ + tag(code, declared, order),
{
    put_u32(code, order, w);
    put_u32(declared, order, w);
    proof {
        lemma_append_twice(
            old(w)@,
            crate::primitive::bytes4(code as int, order),
            crate::primitive::bytes4(declared as int, order),
        );
    }
}

/// The low 32 bits of a length, as a length field holds them.
pub fn to_length_field(n: u128) -> (r: u32)
    ensures
        r == length_field(n as int),
{
    (n % 0x1_0000_0000) as u32
}

/// Writes the header of a file: 128 bytes. A text of fewer than four bytes
/// is replaced by the default description; one that then has more than
/// 116 bytes is refused.
pub fn write_header(w: &mut Vec<u8>, text: &str, order: ByteOrder) -> (r: Result<(), WriteError>)
    ensures
        match r {
            Ok(()) => effective_description(text.spec_bytes()).len() <= 116 && final(w)@
                == old(w)@ + header(text.spec_bytes(), order),
            Err(e) => e == WriteError::DescriptionTooLong && effective_description(
                text.spec_bytes(),
            ).len() > 116 && final(w)@ == old(w)@,
        },
{
    let given = text.as_bytes();
    let text_bytes = if given.len() < 4 {
        "MATLAB 5.0 MAT-file".as_bytes()
    } else {
        given
    };
    assert(text_bytes@ == effective_description(text.spec_bytes()));

    if text_bytes.len() > 116 {
        return Err(WriteError::DescriptionTooLong);
    }

    // The description, filled up with spaces.
    append(w, text_bytes);
    append_repeated(w, 32, 116 - text_bytes.len());

    // No subsystem-specific data.
    append_repeated(w, 0, 8);

    // The version, 0x0100.
    w.push(0);
    w.push(1);

    // The byte-order marker: 'M' = 77, 'I' = 73.
    put_u16(0x4D49, order, w);

    assert(w@ =~= old(w)@ + header(text.spec_bytes(), order));
    Ok(())
}

/// Writes one data element: the tag, the payload, and zero bytes up to the
/// next multiple of eight. The tag of a matrix declares the length with
/// the padding, any other tag the length of the payload alone.
pub fn write_data_element(
    w: &mut Vec<u8>,
    data_type: DataType,
    byte_data: &[u8],
    order: ByteOrder,
) -> (r: Result<(), WriteError>)
    ensures
        r is Ok,
        final(w)@ == old(w)@ + element(data_type, byte_data@, order),
{
    let padding_byte_count = padding_size(byte_data.len());

    let number_of_bytes: u128 = match data_type {
        // The bytes that follow, with the padding.
        DataType::Matrix => byte_data.len() as u128 + padding_byte_count as u128,
        // The bytes of the payload.
        _ => byte_data.len() as u128,
    };
    write_tag(w, data_type.code(), to_length_field(number_of_bytes), order);

    append(w, byte_data);

    append_repeated(w, 0, padding_byte_count);

    assert(w@ =~= old(w)@ + element(data_type, byte_data@, order)) by {
        reveal(element);
    }
    Ok(())
}

/// Writes the array flags: a data element of type `UInt32` with eight
/// bytes of payload.
pub fn write_sub_element_array_flags(
    w: &mut Vec<u8>,
    array_flags: ArrayFlags,
    order: ByteOrder,
) -> (r: Result<(), WriteError>)
    ensures
        r is Ok,
        final(w)@ == old(w)@ + array_flags_element(array_flags, order),
{
    let class: u32 = array_flags.class.code() as u32;
    let complex: u32 = if array_flags.complex {
        8
    } else {
        0
    };
    let global: u32 = if array_flags.global {
        4
    } else {
        0
    };
    let logical: u32 = if array_flags.logical {
        2
    } else {
        0
    };
    let flags: u32 = complex + global + logical;
    let flags_u32: u32 = class + flags * 256;

    let mut payload: Vec<u8> = Vec::new();
    put_u32(flags_u32, order, &mut payload);
    // This matters for sparse arrays only.
    put_u32(array_flags.nzmax, order, &mut payload);
    assert(payload@ =~= array_flags_payload(array_flags, order));

    write_data_element(w, DataType::UInt32, payload.as_slice(), order)
}

/// Writes the dimensions: a data element of type `Int32` with four bytes
/// for each. More than three dimensions are refused.
pub fn write_sub_element_dimensions(w: &mut Vec<u8>, dimensions: &[i32], order: ByteOrder) -> (r:
    Result<(), WriteError>)
    ensures
        match r {
            Ok(()) => dimensions@.len() <= 3 && final(w)@ == old(w)@ + dimensions_element(
                ints(dimensions@),
                order,
            ),
            Err(e) => e == WriteError::TooManyDimensions && dimensions@.len() > 3 && final(w)@
                == old(w)@,
        },
{
    if dimensions.len() > 3 {
        return Err(WriteError::TooManyDimensions);
    }
    let mut payload: Vec<u8> = Vec::new();
    encode_all(dimensions, order, &mut payload);
    assert(payload@ =~= dimensions_payload(ints(dimensions@), order));

    write_data_element(w, DataType::Int32, payload.as_slice(), order)
}

/// Writes the name: a data element of type `Int8` whose payload is the
/// bytes of the name, with no terminator.
pub fn write_sub_element_array_name(w: &mut Vec<u8>, array_name: &str, order: ByteOrder) -> (r:
    Result<(), WriteError>)
    ensures
        r is Ok,
        final(w)@ == old(w)@ + name_element(array_name@, order),
{
    write_data_element(w, DataType::Int8, array_name.as_bytes(), order)
}

/// Writes the real part: a data element of the given numeric type whose
/// payload is `data`. A type that holds no numbers is refused.
pub fn write_sub_element_real_part(
    w: &mut Vec<u8>,
    data_type: DataType,
    data: &[u8],
    order: ByteOrder,
) -> (r: Result<(), WriteError>)
    ensures
        match r {
            Ok(()) => data_type.is_numeric() && final(w)@ == old(w)@ + element(
                data_type,
                data@,
                order,
            ),
            Err(e) => e == WriteError::NonNumericType && !data_type.is_numeric() && final(w)@
                == old(w)@,
        },
{
    match data_type.byte_size() {
        Some(_) => write_data_element(w, data_type, data, order),
        None => Err(WriteError::NonNumericType),
    }
}

/// Writes the imaginary part. It is laid out as the real part is.
pub fn write_sub_element_imaginary_part(
    w: &mut Vec<u8>,
    data_type: DataType,
    data: &[u8],
    order: ByteOrder,
) -> (r: Result<(), WriteError>)
    ensures
        match r {
            Ok(()) => data_type.is_numeric() && final(w)@ == old(w)@ + element(
                data_type,
                data@,
                order,
            ),
            Err(e) => e == WriteError::NonNumericType && !data_type.is_numeric() && final(w)@
                == old(w)@,
        },
{
    write_sub_element_real_part(w, data_type, data, order)
}

/// Why a matrix cannot be written, if it cannot: the imaginary part has
/// another length than the real part, or, where that is in order, there
/// are more than three dimensions.
pub open spec fn matrix_fault(matrix: MatrixView) -> Option<WriteError> {
    if matrix.imaginary_part is Some && matrix.imaginary_part->0.values.len()
        != matrix.real_part.values.len() {
        Some(WriteError::LengthMismatch)
    } else if matrix.dimensions.len() > 3 {
        Some(WriteError::TooManyDimensions)
    } else {
        None
    }
}

/// Writes the payload of a matrix: array flags, dimensions, name, real
/// part and, if there is one, imaginary part, each as a data element.
/// More than three dimensions are refused before anything is written.
pub fn write_matrix_payload(
    w: &mut Vec<u8>,
    data_element: &DataElement,
    order: ByteOrder,
) -> (r: Result<(), WriteError>)
    ensures
        match r {
            Ok(()) => data_element@.dimensions.len() <= 3 && final(w)@ == old(w)@
                + matrix_payload(data_element@, order),
            Err(e) => e == WriteError::TooManyDimensions && data_element@.dimensions.len() > 3
                && final(w)@ == old(w)@,
        },
{
    let DataElement::NumericMatrix(
        array_flags,
        dimensions,
        matrix_name,
        real_part,
        imaginary_part,
    ) = data_element;
    if dimensions.len() > 3 {
        return Err(WriteError::TooManyDimensions);
    }

    write_sub_element_array_flags(w, *array_flags, order)?;
    let ghost with_flags = w@;
    write_sub_element_dimensions(w, dimensions.as_slice(), order)?;
    let ghost with_dimensions = w@;
    write_sub_element_array_name(w, matrix_name.as_str(), order)?;
    let ghost with_name = w@;

    let real_data_type = real_part.data_type();
    let real_part_data = real_part.to_bytes(order);
    write_sub_element_real_part(w, real_data_type, real_part_data.as_slice(), order)?;
    let ghost with_real_part = w@;

    if let Some(part) = imaginary_part {
        let imaginary_data_type = part.data_type();
        let imaginary_part_data = part.to_bytes(order);
        write_sub_element_imaginary_part(
            w,
            imaginary_data_type,
            imaginary_part_data.as_slice(),
            order,
        )?;
    }
    proof {
        let matrix = data_element@;
        let a = array_flags_element(matrix.flags, order);
        let b = dimensions_element(matrix.dimensions, order);
        let c = name_element(matrix.name, order);
        let d = numeric_element(matrix.real_part, order);
        let e = optional_numeric_element(matrix.imaginary_part, order);
        assert(with_flags == old(w)@ + a);
        assert(with_dimensions == with_flags + b);
        assert(with_name == with_dimensions + c);
        assert(with_real_part == with_name + d);
        assert(w@ =~= with_real_part + e);
        lemma_append_twice(old(w)@, a, b);
        lemma_append_twice(old(w)@, a + b, c);
        lemma_append_twice(old(w)@, a + b + c, d);
        lemma_append_twice(old(w)@, a + b + c + d, e);
    }
    Ok(())
}

/// Writes a matrix as one data element: the tag with the length of all
/// that follows, then array flags, dimensions, name, real part and, if
/// there is one, imaginary part.
///
/// The length is computed from the lengths of the parts before anything is
/// written. A matrix at fault is refused before anything is written.
pub fn write_matrix(w: &mut Vec<u8>, data_element: DataElement, order: ByteOrder) -> (r: Result<
    (),
    WriteError,
>)
    ensures
        match r {
            Ok(()) => matrix_fault(data_element@) is None && final(w)@ == old(w)@
                + matrix_element(data_element@, order),
            Err(e) => matrix_fault(data_element@) == Some(e) && final(w)@ == old(w)@,
        },
{
    check_matrix(&data_element)?;
    proof {
        lemma_matrix_size_is_payload_len(&data_element, order);
    }

    // The size is computed first, so that the tag and the data can be
    // written one after the other.
    let calculated_size = sizes::payload_size(&data_element);
    let padding_size = sizes::padding_size_wide(calculated_size);
    // The bytes that follow, with the padding.
    let number_of_bytes: u128 = calculated_size + padding_size as u128;
    assert(padding_size == 0 && number_of_bytes == matrix_size(data_element@));

    write_tag(w, DataType::Matrix.code(), to_length_field(number_of_bytes), order);
    let ghost with_tag = w@;
    write_matrix_payload(w, &data_element, order)?;
    let ghost with_payload = w@;
    // Zero bytes up to the next multiple of eight.
    append_repeated(w, 0, padding_size);

    proof {
        let payload = matrix_payload(data_element@, order);
        let t = tag(DataType::Matrix.spec_code(), length_field(payload.len() as int), order);
        crate::format::lemma_element_without_padding(DataType::Matrix, payload, order);
        assert(with_tag == old(w)@ + t);
        assert(with_payload == with_tag + payload);
        assert(w@ =~= with_payload) by {
            assert(repeated(0, 0) =~= Seq::<u8>::empty());
        }
        lemma_append_twice(old(w)@, t, payload);
    }
    Ok(())
}

/// Tells whether a matrix can be written, and why not if it cannot.
pub fn check_matrix(data_element: &DataElement) -> (r: Result<(), WriteError>)
    ensures
        match r {
            Ok(()) => matrix_fault(data_element@) is None,
            Err(e) => matrix_fault(data_element@) == Some(e),
        },
{
    let DataElement::NumericMatrix(_array_flags, dimensions, _name, real_part, imaginary_part) =
        data_element;
    if let Some(part) = imaginary_part {
        if part.len() != real_part.len() {
            return Err(WriteError::LengthMismatch);
        }
    }
    if dimensions.len() > 3 {
        return Err(WriteError::TooManyDimensions);
    }
    Ok(())
}

/// The size computed for a matrix is the length of its payload, and a
/// multiple of eight.
pub proof fn lemma_matrix_size_is_payload_len(data_element: &DataElement, order: ByteOrder)
    ensures
        matrix_payload(data_element@, order).len() == matrix_size(data_element@),
        matrix_size(data_element@) % 8 == 0,
        padding(matrix_size(data_element@)) == 0,
{
    let DataElement::NumericMatrix(_array_flags, _dimensions, _name, real_part, imaginary_part) =
        data_element;
    real_part.lemma_view_wf();
    if let Some(part) = imaginary_part {
        part.lemma_view_wf();
    }
    lemma_matrix_payload_len(data_element@, order);
}

} // verus!
