//! The sizes of the parts of a matrix, computed from their lengths alone,
//! so that the length of a matrix can be declared before its payload is
//! written.

use crate::format::{
    dimensions_size, framed_size, lemma_padding, matrix_size, numeric_size, padding,
};
use crate::parse::types::{DataElement, DataType};
use vstd::prelude::*;

verus! {

/// The number of zero bytes that fill `byte_count` bytes up to a multiple
/// of eight.
pub fn padding_size(byte_count: usize) -> (r: usize)
    ensures
        r == padding(byte_count as int),
        r < 8,
{
    match byte_count % 8 {
        0 => 0,
        n => 8 - n,
    }
}

/// The number of bytes of a name of `byte_count` bytes as a data element.
pub fn name(byte_count: usize) -> (r: usize)
    requires
        framed_size(byte_count as int) <= usize::MAX,
    ensures
        r == framed_size(byte_count as int),
{
    let tag_size: usize = 8;
    let padding_size = padding_size(byte_count);

    tag_size + byte_count + padding_size
}

/// The number of bytes of `dim_count` dimensions as a data element.
pub fn dimensions(dim_count: usize) -> (r: usize)
    requires
        dimensions_size(dim_count as int) <= usize::MAX,
    ensures
        r == dimensions_size(dim_count as int),
{
    proof {
        lemma_padding(4 * dim_count);
    }
    let tag_size: usize = 8;
    let number_of_bytes = dim_count * 4;
    let padding_size = padding_size(number_of_bytes);

    tag_size + number_of_bytes + padding_size
}

/// The number of bytes of `len` values of a numeric type as a data
/// element. The type must be numeric: no other type has a width.
pub fn numeric_subelement(data_type: DataType, len: usize) -> (r: usize)
    requires
        data_type.is_numeric(),
        numeric_size(data_type, len as int) <= usize::MAX,
    ensures
        r == numeric_size(data_type, len as int),
{
    let width = match data_type.byte_size() {
        Some(width) => width,
        None => 0,
    };
    proof {
        assert(0 <= len * width) by (nonlinear_arith)
            requires
                0 <= len,
                0 <= width,
        ;
        lemma_padding(len * width);
    }
    let tag_size: usize = 8;
    let number_of_bytes = len * width;
    let padding_size = padding_size(number_of_bytes);

    tag_size + number_of_bytes + padding_size
}

/// The number of bytes of the payload of a matrix: the sizes of the array
/// flags, the dimensions, the name, the real part and, if there is one,
/// the imaginary part.
pub fn data_element(elm: &DataElement) -> (r: usize)
    requires
        matrix_size(elm@) <= usize::MAX,
    ensures
        r == matrix_size(elm@),
{
    let DataElement::NumericMatrix(
        _array_flags,
        dimensions,
        matrix_name,
        real_part,
        imaginary_part,
    ) = elm;
    proof {
        real_part.lemma_view_wf();
        lemma_padding(4 * (dimensions@.len() as int));
        lemma_padding(crate::format::name_payload(matrix_name@).len() as int);
        assert(0 <= real_part@.values.len() * real_part@.kind.width()) by (nonlinear_arith);
        lemma_padding((real_part@.values.len() * real_part@.kind.width()) as int);
        match imaginary_part {
            Some(part) => {
                part.lemma_view_wf();
                assert(0 <= part@.values.len() * part@.kind.width()) by (nonlinear_arith);
                lemma_padding((part@.values.len() * part@.kind.width()) as int);
            },
            None => {},
        }
    }
    let array_flags_size: usize = 8 + 8;
    let dimensions_size = self::dimensions(dimensions.len());
    let matrix_name_size = name(matrix_name.as_str().len());
    let real_part_size = numeric_subelement(real_part.data_type(), real_part.len());
    let imaginary_part_size = match imaginary_part {
        Some(part) => numeric_subelement(part.data_type(), part.len()),
        None => 0,
    };

    array_flags_size + dimensions_size + matrix_name_size + real_part_size + imaginary_part_size
}

/// The number of zero bytes that fill `byte_count` bytes up to a multiple
/// of eight, for a count of any size.
pub fn padding_size_wide(byte_count: u128) -> (r: usize)
    ensures
        r == padding(byte_count as int),
        r < 8,
{
    padding_size((byte_count % 8) as usize)
}

/// The number of bytes of a data element with a payload of `byte_count`
/// bytes, for any payload that a machine can hold.
pub fn framed(byte_count: u128) -> (r: u128)
    requires
        byte_count <= 0x8_0000_0000_0000_0000,
    ensures
        r == framed_size(byte_count as int),
{
    let tag_size: u128 = 8;
    let padding_size = padding_size_wide(byte_count);

    tag_size + byte_count + padding_size as u128
}

/// The number of bytes of the payload of a matrix, in a number wide
/// enough for any matrix that a machine can hold.
pub fn payload_size(elm: &DataElement) -> (r: u128)
    ensures
        r == matrix_size(elm@),
{
    let DataElement::NumericMatrix(
        _array_flags,
        dimensions,
        matrix_name,
        real_part,
        imaginary_part,
    ) = elm;
    let dimensions_size = framed(dimensions.len() as u128 * 4);
    let matrix_name_size = framed(matrix_name.as_str().as_bytes().len() as u128);
    let real_part_size = framed(numeric_bytes(real_part.data_type(), real_part.len()));
    let imaginary_part_size = match imaginary_part {
        Some(part) => framed(numeric_bytes(part.data_type(), part.len())),
        None => 0,
    };
    16 + dimensions_size + matrix_name_size + real_part_size + imaginary_part_size
}

/// The number of bytes that `len` values of a numeric type take.
pub fn numeric_bytes(data_type: DataType, len: usize) -> (r: u128)
    requires
        data_type.is_numeric(),
    ensures
        r == len * data_type.width(),
        r <= 0x8_0000_0000_0000_0000,
{
    let width = match data_type.byte_size() {
        Some(width) => width,
        None => 0,
    };
    assert(0 <= len * width <= 0x8_0000_0000_0000_0000) by (nonlinear_arith)
        requires
            0 <= len <= 0xFFFF_FFFF_FFFF_FFFF,
            0 <= width <= 8,
    ;
    len as u128 * width as u128
}

} // verus!
