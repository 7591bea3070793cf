//! The writer: headers, sizes, and what is refused.

use matfile::parse::reader::parse;
use matfile::parse::{ArrayFlags, ArrayType, DataElement, DataType, NumericData};
use matfile::primitive::ByteOrder;
use matfile::write::writers::sizes;
use matfile::write::writers::{
    append, append_repeated, check_matrix, to_length_field, write_data_element, write_header,
    write_matrix, write_matrix_payload, write_sub_element_array_flags,
    write_sub_element_dimensions, write_sub_element_imaginary_part, write_sub_element_real_part,
    write_tag,
};
use matfile::write::{row_length, MatFileWriter, WriteError};

fn flags() -> ArrayFlags {
    ArrayFlags {
        complex: false,
        global: false,
        logical: false,
        class: ArrayType::Double,
        nzmax: 0,
    }
}

#[test]
fn a_header_has_128_bytes_and_the_version_at_124() {
    for text in ["", "abc", "abcd", "a description", &"x".repeat(116)] {
        for order in [ByteOrder::Little, ByteOrder::Big] {
            let mut buf = Vec::new();
            write_header(&mut buf, text, order).unwrap();
            assert_eq!(buf.len(), 128);
            assert_eq!(&buf[116..124], &[0; 8]);
            assert_eq!(&buf[124..126], &[0x00, 0x01]);
            let marker: &[u8] = match order {
                ByteOrder::Little => b"IM",
                ByteOrder::Big => b"MI",
            };
            assert_eq!(&buf[126..128], marker);
        }
    }
}

#[test]
fn a_short_description_is_replaced_by_the_default() {
    for text in ["", "a", "ab", "abc", "\u{e9}a"] {
        let mut buf = Vec::new();
        write_header(&mut buf, text, ByteOrder::Little).unwrap();
        assert_eq!(&buf[..19], b"MATLAB 5.0 MAT-file");
        assert!(buf[19..116].iter().all(|b| *b == b' '));
    }
    // Four bytes are kept, counted in bytes and not in characters.
    let mut buf = Vec::new();
    write_header(&mut buf, "abcd", ByteOrder::Little).unwrap();
    assert_eq!(&buf[..4], b"abcd");
    assert!(buf[4..116].iter().all(|b| *b == b' '));
    let mut buf = Vec::new();
    write_header(&mut buf, "\u{e9}\u{e9}", ByteOrder::Little).unwrap();
    assert_eq!(&buf[..4], "\u{e9}\u{e9}".as_bytes());
}

#[test]
fn a_long_description_is_refused_and_nothing_is_written() {
    let mut buf = vec![1u8, 2, 3];
    assert_eq!(
        write_header(&mut buf, &"x".repeat(117), ByteOrder::Little),
        Err(WriteError::DescriptionTooLong)
    );
    assert_eq!(buf, vec![1, 2, 3]);
    assert_eq!(
        MatFileWriter::new_with_description(&mut buf, &"\u{e9}".repeat(59)).map(|_| ()),
        Err(WriteError::DescriptionTooLong)
    );
    assert_eq!(buf, vec![1, 2, 3]);
    assert_eq!(
        MatFileWriter::native().write_header(&mut buf, &"y".repeat(200)),
        Err(WriteError::DescriptionTooLong)
    );
    assert_eq!(buf, vec![1, 2, 3]);
    // 116 bytes fit.
    assert_eq!(write_header(&mut buf, &"\u{e9}".repeat(58), ByteOrder::Little), Ok(()));
    assert_eq!(buf.len(), 3 + 128);
    assert_eq!(&buf[3..119], "\u{e9}".repeat(58).as_bytes());
}

#[test]
fn new_writes_the_header_of_the_library() {
    let mut buf = Vec::new();
    let writer = MatFileWriter::new(&mut buf).unwrap();
    assert_eq!(writer.byte_order, ByteOrder::native());
    assert_eq!(buf.len(), 128);
    assert_eq!(&buf[..41], b"MATLAB 5.0 MAT-file, Platform: matfile-rs");
    assert!(buf[41..116].iter().all(|b| *b == b' '));
    assert_eq!(&buf[124..126], &[0, 1]);
    assert_eq!(&buf[126..128], &0x4D49u16.to_ne_bytes());

    let mut other = Vec::new();
    let writer = MatFileWriter::new_with_description(&mut other, "MATFILE created by matfile").unwrap();
    assert_eq!(&other[..26], b"MATFILE created by matfile");
    writer
        .write_array(&mut other, "v", NumericData::Int32(vec![7, 8, 9]), None)
        .unwrap();
    assert_eq!(
        parse(&other),
        Ok(vec![DataElement::NumericMatrix(
            flags(),
            vec![1, 3],
            "v".to_owned(),
            NumericData::Int32(vec![7, 8, 9]),
            None,
        )])
    );
}

#[test]
fn sizes_are_computed_from_lengths() {
    let expected_padding = [0usize, 7, 6, 5, 4, 3, 2, 1, 0, 7];
    for (n, pad) in expected_padding.iter().enumerate() {
        assert_eq!(sizes::padding_size(n), *pad);
    }
    assert_eq!(sizes::padding_size(72), 0);
    assert_eq!(sizes::name(0), 8);
    assert_eq!(sizes::name(5), 16);
    assert_eq!(sizes::name(8), 16);
    assert_eq!(sizes::name(9), 24);
    assert_eq!(sizes::dimensions(0), 8);
    assert_eq!(sizes::dimensions(1), 16);
    assert_eq!(sizes::dimensions(2), 16);
    assert_eq!(sizes::dimensions(3), 24);
    assert_eq!(sizes::numeric_subelement(DataType::Int32, 3), 24);
    assert_eq!(sizes::numeric_subelement(DataType::Int8, 3), 16);
    assert_eq!(sizes::numeric_subelement(DataType::Double, 3), 32);
    assert_eq!(sizes::numeric_subelement(DataType::UInt16, 0), 8);
    assert_eq!(sizes::numeric_subelement(DataType::Single, 1), 16);

    let element = DataElement::NumericMatrix(
        flags(),
        vec![1, 3],
        "abcde".to_owned(),
        NumericData::Int32(vec![1, 2, 21474836]),
        None,
    );
    assert_eq!(sizes::data_element(&element), 72);
    assert_eq!(element.calculate_size(), 72);

    // The imaginary part counts by its own type.
    let complex = DataElement::NumericMatrix(
        flags(),
        vec![1, 3],
        "abcde".to_owned(),
        NumericData::Int32(vec![1, 2, 3]),
        Some(NumericData::Double(vec![0, 0, 0])),
    );
    assert_eq!(sizes::data_element(&complex), 72 + 32);
    let mut payload = Vec::new();
    write_matrix_payload(&mut payload, &complex, ByteOrder::Little).unwrap();
    assert_eq!(payload.len(), 104);
}

#[test]
fn the_length_field_counts_the_padding_of_a_matrix_only() {
    for order in [ByteOrder::Little, ByteOrder::Big] {
        let mut matrix = Vec::new();
        write_data_element(&mut matrix, DataType::Matrix, &[1; 13], order).unwrap();
        let mut other = Vec::new();
        write_data_element(&mut other, DataType::UInt8, &[1; 13], order).unwrap();
        let mut matrix_tag = Vec::new();
        write_tag(&mut matrix_tag, 14, 16, order);
        let mut other_tag = Vec::new();
        write_tag(&mut other_tag, 2, 13, order);
        assert_eq!(&matrix[..8], &matrix_tag[..]);
        assert_eq!(&other[..8], &other_tag[..]);
        assert_eq!(&matrix[8..], &other[8..]);
        assert_eq!(matrix.len(), 24);
    }
    assert_eq!(to_length_field(0), 0);
    assert_eq!(to_length_field(72), 72);
    assert_eq!(to_length_field(0xFFFF_FFFF), 0xFFFF_FFFF);
    assert_eq!(to_length_field(0x1_0000_0000), 0);
    assert_eq!(to_length_field(0x3_0000_0010), 16);
}

#[test]
fn more_than_three_dimensions_are_refused_before_anything_is_written() {
    let mut buf = vec![5u8];
    assert_eq!(
        write_sub_element_dimensions(&mut buf, &[1, 2, 3, 4], ByteOrder::Little),
        Err(WriteError::TooManyDimensions)
    );
    assert_eq!(buf, vec![5]);
    let element = DataElement::NumericMatrix(
        flags(),
        vec![1, 1, 1, 1],
        "n".to_owned(),
        NumericData::UInt8(vec![1]),
        None,
    );
    assert_eq!(check_matrix(&element), Err(WriteError::TooManyDimensions));
    assert_eq!(
        write_matrix(&mut buf, element.clone(), ByteOrder::Little),
        Err(WriteError::TooManyDimensions)
    );
    assert_eq!(
        MatFileWriter::native().write_matrix(&mut buf, element),
        Err(WriteError::TooManyDimensions)
    );
    assert_eq!(
        write_matrix_payload(
            &mut buf,
            &DataElement::NumericMatrix(
                flags(),
                vec![1, 1, 1, 1],
                "n".to_owned(),
                NumericData::UInt8(vec![1]),
                None,
            ),
            ByteOrder::Little,
        ),
        Err(WriteError::TooManyDimensions)
    );
    assert_eq!(buf, vec![5]);
    assert_eq!(
        write_sub_element_dimensions(&mut buf, &[1, 2, 3], ByteOrder::Little),
        Ok(())
    );
    assert_eq!(buf.len(), 1 + 24);
}

#[test]
fn parts_of_different_lengths_are_refused_before_anything_is_written() {
    let mut buf = vec![5u8];
    let element = DataElement::NumericMatrix(
        flags(),
        vec![1, 2, 3, 4],
        "n".to_owned(),
        NumericData::UInt8(vec![1, 2]),
        Some(NumericData::UInt8(vec![1])),
    );
    // The lengths are looked at before the dimensions.
    assert_eq!(check_matrix(&element), Err(WriteError::LengthMismatch));
    assert_eq!(
        write_matrix(&mut buf, element, ByteOrder::Big),
        Err(WriteError::LengthMismatch)
    );
    assert_eq!(
        MatFileWriter::native().write_array(
            &mut buf,
            "n",
            NumericData::Int32(vec![1, 2, 3]),
            Some(NumericData::Int32(vec![1, 2])),
        ),
        Err(WriteError::LengthMismatch)
    );
    assert_eq!(buf, vec![5]);
    let same = DataElement::NumericMatrix(
        flags(),
        vec![1, 2],
        "n".to_owned(),
        NumericData::UInt8(vec![1, 2]),
        Some(NumericData::Int64(vec![1, 2])),
    );
    assert_eq!(check_matrix(&same), Ok(()));
}

#[test]
fn a_type_without_numbers_is_refused_for_a_numeric_part() {
    for data_type in [
        DataType::Matrix,
        DataType::Compressed,
        DataType::Utf8,
        DataType::Utf16,
        DataType::Utf32,
    ] {
        let mut buf = vec![5u8];
        assert_eq!(
            write_sub_element_real_part(&mut buf, data_type, &[1, 2], ByteOrder::Little),
            Err(WriteError::NonNumericType)
        );
        assert_eq!(
            write_sub_element_imaginary_part(&mut buf, data_type, &[1, 2], ByteOrder::Little),
            Err(WriteError::NonNumericType)
        );
        let writer = MatFileWriter::native();
        assert_eq!(
            writer.write_sub_element_real_part(&mut buf, data_type, &[1, 2]),
            Err(WriteError::NonNumericType)
        );
        assert_eq!(
            writer.write_sub_element_imaginary_part(&mut buf, data_type, &[1, 2]),
            Err(WriteError::NonNumericType)
        );
        assert_eq!(buf, vec![5]);
    }
    let mut re = Vec::new();
    write_sub_element_real_part(&mut re, DataType::Int16, &[1, 2], ByteOrder::Little).unwrap();
    let mut im = Vec::new();
    write_sub_element_imaginary_part(&mut im, DataType::Int16, &[1, 2], ByteOrder::Little)
        .unwrap();
    assert_eq!(re, vec![3, 0, 0, 0, 2, 0, 0, 0, 1, 2, 0, 0, 0, 0, 0, 0]);
    assert_eq!(re, im);
}

#[test]
fn the_flags_are_packed_into_the_second_byte() {
    let mut buf = Vec::new();
    write_sub_element_array_flags(
        &mut buf,
        ArrayFlags {
            complex: true,
            global: true,
            logical: true,
            class: ArrayType::UInt64,
            nzmax: 0x0102_0304,
        },
        ByteOrder::Little,
    )
    .unwrap();
    assert_eq!(
        buf,
        vec![6, 0, 0, 0, 8, 0, 0, 0, 15, 0b0000_1110, 0, 0, 4, 3, 2, 1]
    );
    let mut buf = Vec::new();
    write_sub_element_array_flags(
        &mut buf,
        ArrayFlags {
            complex: false,
            global: true,
            logical: false,
            class: ArrayType::Single,
            nzmax: 1,
        },
        ByteOrder::Big,
    )
    .unwrap();
    assert_eq!(
        buf,
        vec![0, 0, 0, 6, 0, 0, 0, 8, 0, 0, 0b0000_0100, 7, 0, 0, 0, 1]
    );
}

#[test]
fn an_array_is_written_as_one_row() {
    assert_eq!(row_length(0), 0);
    assert_eq!(row_length(3), 3);
    assert_eq!(row_length(0x7FFF_FFFF), i32::MAX);
    let writer = MatFileWriter::with_byte_order(ByteOrder::Little);
    assert_eq!(writer.byte_order, ByteOrder::Little);
    let mut by_array = Vec::new();
    writer
        .write_array(&mut by_array, "abcde", NumericData::Int32(vec![1, 2, 21474836]), None)
        .unwrap();
    let mut by_matrix = Vec::new();
    writer
        .write_matrix(
            &mut by_matrix,
            DataElement::NumericMatrix(
                flags(),
                vec![1, 3],
                "abcde".to_owned(),
                NumericData::Int32(vec![1, 2, 21474836]),
                None,
            ),
        )
        .unwrap();
    assert_eq!(by_array, by_matrix);
    assert_eq!(by_array.len(), 80);
}

#[test]
fn bytes_are_appended_to_what_is_there() {
    let mut buf = vec![1u8];
    append(&mut buf, &[2, 3]);
    append(&mut buf, &[]);
    append_repeated(&mut buf, 9, 3);
    append_repeated(&mut buf, 7, 0);
    assert_eq!(buf, vec![1, 2, 3, 9, 9, 9]);
}
