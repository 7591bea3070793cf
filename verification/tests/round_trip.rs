//! Writing and reading together: what is written is read back, and what
//! is malformed is refused with the place where it went wrong.

use matfile::parse::reader::{
    decode_flags, parse, parse_array_flags, parse_dimensions, parse_element, parse_elements,
    parse_header, parse_imaginary, parse_matrix, parse_name, parse_numeric, read_element,
};
use matfile::parse::{
    ArrayFlags, ArrayType, DataElement, DataType, Header, NumericData, ParseError, ParseErrorKind,
    RawElement,
};
use matfile::primitive::ByteOrder;
use matfile::write::writers;
use matfile::write::MatFileWriter;

/// The reference file, written on a little-endian machine.
const REFERENCE: [u8; 208] = [
    0x4d, 0x41, 0x54, 0x4c, 0x41, 0x42, 0x20, 0x35,
    0x2e, 0x30, 0x20, 0x4d, 0x41, 0x54, 0x2d, 0x66,
    0x69, 0x6c, 0x65, 0x2c, 0x20, 0x50, 0x6c, 0x61,
    0x74, 0x66, 0x6f, 0x72, 0x6d, 0x3a, 0x20, 0x47,
    0x4c, 0x4e, 0x58, 0x41, 0x36, 0x34, 0x2c, 0x20,
    0x43, 0x72, 0x65, 0x61, 0x74, 0x65, 0x64, 0x20,
    0x6f, 0x6e, 0x3a, 0x20, 0x4d, 0x6f, 0x6e, 0x20,
    0x4a, 0x75, 0x6e, 0x20, 0x31, 0x37, 0x20, 0x31,
    0x37, 0x3a, 0x35, 0x35, 0x3a, 0x32, 0x37, 0x20,
    0x32, 0x30, 0x32, 0x34, 0x20, 0x20, 0x20, 0x20,
    0x20, 0x20, 0x20, 0x20, 0x20, 0x20, 0x20, 0x20,
    0x20, 0x20, 0x20, 0x20, 0x20, 0x20, 0x20, 0x20,
    0x20, 0x20, 0x20, 0x20, 0x20, 0x20, 0x20, 0x20,
    0x20, 0x20, 0x20, 0x20, 0x20, 0x20, 0x20, 0x20,
    0x20, 0x20, 0x20, 0x20, 0x00, 0x00, 0x00, 0x00,
    0x00, 0x00, 0x00, 0x00, 0x00, 0x01, 0x49, 0x4d,
    0x0e, 0x00, 0x00, 0x00, 0x48, 0x00, 0x00, 0x00,
    0x06, 0x00, 0x00, 0x00, 0x08, 0x00, 0x00, 0x00,
    0x06, 0x00, 0x00, 0x00, 0x00, 0x00, 0x00, 0x00,
    0x05, 0x00, 0x00, 0x00, 0x08, 0x00, 0x00, 0x00,
    0x01, 0x00, 0x00, 0x00, 0x03, 0x00, 0x00, 0x00,
    0x01, 0x00, 0x00, 0x00, 0x05, 0x00, 0x00, 0x00,
    0x61, 0x62, 0x63, 0x64, 0x65, 0x00, 0x00, 0x00,
    0x05, 0x00, 0x00, 0x00, 0x0c, 0x00, 0x00, 0x00,
    0x01, 0x00, 0x00, 0x00, 0x02, 0x00, 0x00, 0x00,
    0x14, 0xae, 0x47, 0x01, 0x00, 0x00, 0x00, 0x00,
];

fn plain_flags(complex: bool) -> ArrayFlags {
    ArrayFlags {
        complex,
        global: false,
        logical: false,
        class: ArrayType::Double,
        nzmax: 0,
    }
}

fn file_of(elements: &[DataElement], order: ByteOrder) -> Vec<u8> {
    let mut buf = Vec::new();
    writers::write_header(&mut buf, "a file of the tests", order).unwrap();
    for element in elements {
        writers::write_matrix(&mut buf, element.clone(), order).unwrap();
    }
    buf
}

fn error(kind: ParseErrorKind, offset: usize) -> ParseError {
    ParseError { kind, offset }
}

#[test]
fn the_reference_file_is_parsed() {
    let parsed = parse(&REFERENCE).expect("the reference file is well-formed");
    assert_eq!(
        parsed,
        vec![DataElement::NumericMatrix(
            plain_flags(false),
            vec![1, 3],
            "abcde".to_owned(),
            NumericData::Int32(vec![1, 2, 21474836]),
            None,
        )]
    );
    let header = parse_header(&REFERENCE).unwrap();
    assert_eq!(header.byte_order, ByteOrder::Little);
    assert_eq!(header.description.len(), 116);
    assert_eq!(
        &header.description[..76],
        "MATLAB 5.0 MAT-file, Platform: GLNXA64, Created on: Mon Jun 17 17:55:27 2024".as_bytes()
    );
    assert!(header.description[76..].iter().all(|b| *b == 0x20));
}

#[test]
fn write_produces_the_reference_file() {
    let mut buf = Vec::new();
    MatFileWriter::with_byte_order(ByteOrder::Little)
        .write(&mut buf, "abcde", &[1, 2, 21474836])
        .unwrap();
    assert_eq!(buf.len(), 208);
    assert_eq!(buf, REFERENCE.to_vec());
}

#[test]
fn every_numeric_type_is_read_back() {
    let parts = vec![
        NumericData::Int8(vec![i8::MIN, -1, 0, 1, i8::MAX]),
        NumericData::UInt8(vec![0, 1, 255]),
        NumericData::Int16(vec![i16::MIN, -1, 0, i16::MAX]),
        NumericData::UInt16(vec![0, 1, u16::MAX]),
        NumericData::Int32(vec![i32::MIN, -1, 0, 21474836, i32::MAX]),
        NumericData::UInt32(vec![0, u32::MAX]),
        NumericData::Int64(vec![i64::MIN, -1, 0, i64::MAX]),
        NumericData::UInt64(vec![0, u64::MAX]),
        NumericData::Single(vec![1.5f32.to_bits(), f32::NAN.to_bits(), (-0.0f32).to_bits()]),
        NumericData::Double(vec![2.5f64.to_bits(), f64::INFINITY.to_bits()]),
    ];
    for order in [ByteOrder::Little, ByteOrder::Big] {
        let mut elements = Vec::new();
        for (i, part) in parts.iter().enumerate() {
            elements.push(DataElement::NumericMatrix(
                plain_flags(false),
                vec![1, part.len() as i32],
                format!("array_{}", i),
                part.clone(),
                None,
            ));
        }
        let bytes = file_of(&elements, order);
        assert_eq!(bytes.len() % 8, 0);
        assert_eq!(parse(&bytes), Ok(elements));
        assert_eq!(parse_header(&bytes).unwrap().byte_order, order);
    }
}

#[test]
fn a_complex_array_sets_the_flag_and_writes_both_parts_in_order() {
    let re = vec![1.0f64, 2.0, 3.0];
    let im = vec![-1.0f64, 0.5, 0.25];
    let writer = MatFileWriter::with_byte_order(ByteOrder::Little);
    let mut buf = Vec::new();
    writer
        .write_array(
            &mut buf,
            "z",
            NumericData::Double(re.iter().map(|v| v.to_bits()).collect()),
            Some(NumericData::Double(im.iter().map(|v| v.to_bits()).collect())),
        )
        .unwrap();

    // Tag of the matrix, then the array flags: the complex bit is bit 3 of
    // the second byte of the flags.
    assert_eq!(&buf[0..4], &14u32.to_le_bytes());
    assert_eq!(&buf[8..16], &[6, 0, 0, 0, 8, 0, 0, 0]);
    assert_eq!(buf[16], 6);
    assert_eq!(buf[17], 0b0000_1000);
    assert_eq!(&buf[18..24], &[0, 0, 0, 0, 0, 0]);
    // Dimensions 1 x 3.
    assert_eq!(&buf[24..32], &[5, 0, 0, 0, 8, 0, 0, 0]);
    assert_eq!(&buf[32..40], &[1, 0, 0, 0, 3, 0, 0, 0]);
    // The name, one byte and seven of padding.
    assert_eq!(&buf[40..48], &[1, 0, 0, 0, 1, 0, 0, 0]);
    assert_eq!(&buf[48..56], &[b'z', 0, 0, 0, 0, 0, 0, 0]);
    // The real part, and right after it the imaginary part.
    assert_eq!(&buf[56..64], &[9, 0, 0, 0, 24, 0, 0, 0]);
    for (i, v) in re.iter().enumerate() {
        assert_eq!(&buf[64 + 8 * i..72 + 8 * i], &v.to_le_bytes());
    }
    assert_eq!(&buf[88..96], &[9, 0, 0, 0, 24, 0, 0, 0]);
    for (i, v) in im.iter().enumerate() {
        assert_eq!(&buf[96 + 8 * i..104 + 8 * i], &v.to_le_bytes());
    }
    assert_eq!(buf.len(), 120);
    // The matrix declares all that follows its tag.
    assert_eq!(&buf[4..8], &112u32.to_le_bytes());

    let (matrix, next) = parse_element(&buf, 0, ByteOrder::Little).unwrap();
    assert_eq!(next, 120);
    assert_eq!(
        matrix,
        DataElement::NumericMatrix(
            plain_flags(true),
            vec![1, 3],
            "z".to_owned(),
            NumericData::Double(re.iter().map(|v| v.to_bits()).collect()),
            Some(NumericData::Double(im.iter().map(|v| v.to_bits()).collect())),
        )
    );
}

#[test]
fn an_empty_name_is_a_tag_alone_and_is_read_back() {
    for order in [ByteOrder::Little, ByteOrder::Big] {
        let mut buf = Vec::new();
        writers::write_sub_element_array_name(&mut buf, "", order).unwrap();
        assert_eq!(buf.len(), 8);
        let mut tag = Vec::new();
        writers::write_tag(&mut tag, 1, 0, order);
        assert_eq!(buf, tag);
        assert_eq!(parse_name(&buf, 0, 8, order), Ok((String::new(), 8)));

        let element = DataElement::NumericMatrix(
            plain_flags(false),
            vec![1, 0],
            String::new(),
            NumericData::Int32(vec![]),
            None,
        );
        let bytes = file_of(&[element.clone()], order);
        assert_eq!(bytes.len(), 128 + 8 + 16 + 16 + 8 + 8);
        assert_eq!(parse(&bytes), Ok(vec![element]));
    }
}

#[test]
fn names_of_more_than_one_byte_a_character_are_read_back() {
    let element = DataElement::NumericMatrix(
        ArrayFlags {
            complex: false,
            global: true,
            logical: true,
            class: ArrayType::UInt8,
            nzmax: 7,
        },
        vec![2, 1, 1],
        "grö\u{df}e_\u{6570}\u{1F600}".to_owned(),
        NumericData::UInt8(vec![0, 1]),
        None,
    );
    for order in [ByteOrder::Little, ByteOrder::Big] {
        let bytes = file_of(&[element.clone()], order);
        assert_eq!(parse(&bytes), Ok(vec![element.clone()]));
    }
}

#[test]
fn a_file_without_arrays_is_parsed_to_nothing() {
    let mut buf = Vec::new();
    writers::write_header(&mut buf, "", ByteOrder::Big).unwrap();
    assert_eq!(parse(&buf), Ok(vec![]));
    assert_eq!(parse_elements(&buf, 128, ByteOrder::Big), Ok(vec![]));
}

#[test]
fn padding_follows_every_payload() {
    for len in 0usize..20 {
        let payload: Vec<u8> = (0..len).map(|i| (i + 1) as u8).collect();
        for data_type in [DataType::UInt8, DataType::Int8, DataType::Matrix] {
            let mut buf = vec![0xEEu8; 3];
            writers::write_data_element(&mut buf, data_type, &payload, ByteOrder::Little).unwrap();
            let pad = (8 - len % 8) % 8;
            assert_eq!(buf.len(), 3 + 8 + len + pad);
            assert_eq!(&buf[..3], &[0xEE; 3]);
            assert_eq!(&buf[3..7], &data_type.code().to_le_bytes());
            let declared = if data_type == DataType::Matrix {
                len + pad
            } else {
                len
            };
            assert_eq!(&buf[7..11], &(declared as u32).to_le_bytes());
            assert_eq!(&buf[11..11 + len], &payload[..]);
            assert!(buf[11 + len..].iter().all(|b| *b == 0));
        }
    }
}

#[test]
fn read_element_passes_over_the_padding() {
    let mut buf = Vec::new();
    writers::write_data_element(&mut buf, DataType::UInt8, &[1, 2, 3], ByteOrder::Big).unwrap();
    writers::write_data_element(&mut buf, DataType::Int16, &[0; 8], ByteOrder::Big).unwrap();
    assert_eq!(
        read_element(&buf, 0, buf.len(), ByteOrder::Big),
        Ok(RawElement {
            code: 2,
            declared: 3,
            start: 8,
            next: 16
        })
    );
    assert_eq!(
        read_element(&buf, 16, buf.len(), ByteOrder::Big),
        Ok(RawElement {
            code: 3,
            declared: 8,
            start: 24,
            next: 32
        })
    );
    // The padding is asked for too.
    assert_eq!(
        read_element(&buf, 0, 15, ByteOrder::Big),
        Err(error(ParseErrorKind::Truncated, 0))
    );
    assert_eq!(
        read_element(&buf, 16, 31, ByteOrder::Big),
        Err(error(ParseErrorKind::Truncated, 16))
    );
    assert_eq!(
        read_element(&buf, 28, 32, ByteOrder::Big),
        Err(error(ParseErrorKind::Truncated, 28))
    );
    assert_eq!(
        read_element(&buf, 32, 32, ByteOrder::Big),
        Err(error(ParseErrorKind::Truncated, 32))
    );
}

#[test]
fn the_parts_of_a_matrix_start_at_multiples_of_eight() {
    let element = DataElement::NumericMatrix(
        plain_flags(true),
        vec![1, 3, 1],
        "abcdefghi".to_owned(),
        NumericData::Int16(vec![1, 2, 3]),
        Some(NumericData::Int8(vec![4, 5, 6])),
    );
    let mut buf = Vec::new();
    writers::write_matrix(&mut buf, element.clone(), ByteOrder::Little).unwrap();
    let end = buf.len();
    let (_, after_flags) = parse_array_flags(&buf, 8, end, ByteOrder::Little).unwrap();
    let (dimensions, after_dimensions) =
        parse_dimensions(&buf, after_flags, end, ByteOrder::Little).unwrap();
    let (name, after_name) = parse_name(&buf, after_dimensions, end, ByteOrder::Little).unwrap();
    let (re, after_re) = parse_numeric(&buf, after_name, end, ByteOrder::Little).unwrap();
    let im = parse_imaginary(&buf, after_re, end, ByteOrder::Little, true, 3).unwrap();
    assert_eq!(
        (after_flags, after_dimensions, after_name, after_re, end),
        (24, 48, 72, 88, 104)
    );
    assert_eq!(dimensions, vec![1, 3, 1]);
    assert_eq!(name, "abcdefghi");
    assert_eq!(re, NumericData::Int16(vec![1, 2, 3]));
    assert_eq!(im, Some(NumericData::Int8(vec![4, 5, 6])));
    assert_eq!(element.calculate_size(), 96);
    assert_eq!(&buf[4..8], &96u32.to_le_bytes());
    assert_eq!(parse_matrix(&buf, 8, end, ByteOrder::Little), Ok(element));
}

#[test]
fn flags_are_decoded_bit_by_bit() {
    assert_eq!(decode_flags(6, 0), Some(plain_flags(false)));
    assert_eq!(decode_flags(6 + (8 << 8), 0), Some(plain_flags(true)));
    assert_eq!(
        decode_flags(12 + (0b0110 << 8), 9),
        Some(ArrayFlags {
            complex: false,
            global: true,
            logical: true,
            class: ArrayType::Int32,
            nzmax: 9,
        })
    );
    // Bits that the format leaves unused are passed over.
    assert_eq!(decode_flags(6 + (0b1111_0001 << 8) + (0xABCD << 16), 0), Some(plain_flags(false)));
    assert_eq!(decode_flags(0, 0), None);
    assert_eq!(decode_flags(16, 0), None);
    assert_eq!(decode_flags(5, 0), None);
    assert_eq!(decode_flags(1, 0), None);
}

#[test]
fn a_bad_header_is_refused() {
    assert_eq!(parse(&[]), Err(error(ParseErrorKind::Truncated, 0)));
    assert_eq!(parse(&REFERENCE[..127]), Err(error(ParseErrorKind::Truncated, 0)));

    let mut bad_marker = REFERENCE.to_vec();
    bad_marker[126] = b'X';
    assert_eq!(parse(&bad_marker), Err(error(ParseErrorKind::BadByteOrderMark, 126)));
    assert_eq!(parse_header(&bad_marker), Err(error(ParseErrorKind::BadByteOrderMark, 126)));

    let mut bad_version = REFERENCE.to_vec();
    bad_version[125] = 2;
    assert_eq!(parse(&bad_version), Err(error(ParseErrorKind::UnsupportedVersion, 124)));
    let mut bad_version = REFERENCE.to_vec();
    bad_version[124] = 1;
    assert_eq!(parse(&bad_version), Err(error(ParseErrorKind::UnsupportedVersion, 124)));

    assert_eq!(
        parse_header(&REFERENCE[..128]).map(|h| h.byte_order),
        Ok(ByteOrder::Little)
    );
    let mut swapped = REFERENCE.to_vec();
    swapped.swap(126, 127);
    assert_eq!(
        parse_header(&swapped),
        Ok(Header {
            description: REFERENCE[..116].to_vec(),
            byte_order: ByteOrder::Big
        })
    );
}

#[test]
fn truncated_input_is_refused() {
    for cut in 129..208 {
        let result = parse(&REFERENCE[..cut]);
        assert_eq!(result, Err(error(ParseErrorKind::Truncated, 128)), "cut at {}", cut);
    }
    // A second element that is cut short is found at its own offset.
    let mut two = REFERENCE.to_vec();
    two.extend_from_slice(&REFERENCE[128..200]);
    assert_eq!(parse(&two), Err(error(ParseErrorKind::Truncated, 208)));
    // A part that ends after its matrix.
    let mut short = REFERENCE.to_vec();
    short[132] = 64;
    short.truncate(200);
    assert_eq!(parse(&short), Err(error(ParseErrorKind::Truncated, 184)));
}

#[test]
fn unsupported_elements_are_refused() {
    // A type code that stands for no type.
    let mut unknown = REFERENCE.to_vec();
    unknown[128] = 99;
    assert_eq!(parse(&unknown), Err(error(ParseErrorKind::UnsupportedType, 128)));
    // A small data element, packed into its tag, has such a code.
    let mut small = REFERENCE.to_vec();
    small[130] = 4;
    assert_eq!(parse(&small), Err(error(ParseErrorKind::UnsupportedType, 128)));
    // A type that is no matrix.
    let mut compressed = REFERENCE.to_vec();
    compressed[128] = 15;
    assert_eq!(parse(&compressed), Err(error(ParseErrorKind::UnsupportedElement, 128)));
    let mut numbers = REFERENCE.to_vec();
    numbers[128] = 5;
    assert_eq!(parse(&numbers), Err(error(ParseErrorKind::UnsupportedElement, 128)));
    // A class that stands for no class, and one that is not numeric.
    let mut no_class = REFERENCE.to_vec();
    no_class[144] = 0;
    assert_eq!(parse(&no_class), Err(error(ParseErrorKind::UnsupportedClass, 136)));
    let mut no_class = REFERENCE.to_vec();
    no_class[144] = 16;
    assert_eq!(parse(&no_class), Err(error(ParseErrorKind::UnsupportedClass, 136)));
    let mut cell = REFERENCE.to_vec();
    cell[144] = 1;
    assert_eq!(parse(&cell), Err(error(ParseErrorKind::UnsupportedClass, 136)));
    let mut sparse = REFERENCE.to_vec();
    sparse[144] = 5;
    assert_eq!(parse(&sparse), Err(error(ParseErrorKind::UnsupportedClass, 136)));
}

#[test]
fn parts_of_another_type_or_length_are_refused() {
    // The array flags must be of type UInt32 and hold eight bytes.
    let mut flags_type = REFERENCE.to_vec();
    flags_type[136] = 5;
    assert_eq!(parse(&flags_type), Err(error(ParseErrorKind::UnexpectedType, 136)));
    let mut flags_len = REFERENCE.to_vec();
    flags_len[140] = 4;
    assert_eq!(parse(&flags_len), Err(error(ParseErrorKind::InvalidLength, 136)));
    // The dimensions must be of type Int32 and hold whole values.
    let mut dims_type = REFERENCE.to_vec();
    dims_type[152] = 6;
    assert_eq!(parse(&dims_type), Err(error(ParseErrorKind::UnexpectedType, 152)));
    let mut dims_len = REFERENCE.to_vec();
    dims_len[156] = 7;
    assert_eq!(parse(&dims_len), Err(error(ParseErrorKind::InvalidLength, 152)));
    // The name must be of type Int8.
    let mut name_type = REFERENCE.to_vec();
    name_type[168] = 16;
    assert_eq!(parse(&name_type), Err(error(ParseErrorKind::UnexpectedType, 168)));
    // The name must be UTF-8.
    let mut name_bytes = REFERENCE.to_vec();
    name_bytes[176] = 0xFF;
    assert_eq!(parse(&name_bytes), Err(error(ParseErrorKind::InvalidName, 168)));
    // A numeric part must have a type, a numeric one, and whole values.
    let mut part_code = REFERENCE.to_vec();
    part_code[184] = 8;
    assert_eq!(parse(&part_code), Err(error(ParseErrorKind::UnsupportedType, 184)));
    let mut part_type = REFERENCE.to_vec();
    part_type[184] = 14;
    assert_eq!(parse(&part_type), Err(error(ParseErrorKind::NonNumericType, 184)));
    let mut part_type = REFERENCE.to_vec();
    part_type[184] = 16;
    assert_eq!(parse(&part_type), Err(error(ParseErrorKind::NonNumericType, 184)));
    let mut part_len = REFERENCE.to_vec();
    part_len[188] = 11;
    assert_eq!(parse(&part_len), Err(error(ParseErrorKind::InvalidLength, 184)));
    let mut part_len = REFERENCE.to_vec();
    part_len[184] = 9;
    assert_eq!(parse(&part_len), Err(error(ParseErrorKind::InvalidLength, 184)));
}

#[test]
fn names_that_are_not_utf8_are_refused() {
    let not_utf8: [&[u8]; 8] = [
        &[0x80],
        &[0xC0, 0x80],
        &[0xC1, 0xBF],
        &[0xE0, 0x80, 0x80],
        &[0xED, 0xA0, 0x80],
        &[0xF4, 0x90, 0x80, 0x80],
        &[0xF8, 0x88, 0x80, 0x80, 0x80],
        &[b'a', 0xE2, 0x82],
    ];
    for bytes in not_utf8 {
        let mut buf = Vec::new();
        writers::write_data_element(&mut buf, DataType::Int8, bytes, ByteOrder::Little).unwrap();
        assert_eq!(
            parse_name(&buf, 0, buf.len(), ByteOrder::Little),
            Err(error(ParseErrorKind::InvalidName, 0))
        );
    }
    let utf8: [&str; 6] = ["", "a", "\u{7f}", "\u{80}", "\u{d7ff}\u{e000}", "\u{10000}\u{10ffff}"];
    for name in utf8 {
        let mut buf = vec![0u8; 8];
        writers::write_sub_element_array_name(&mut buf, name, ByteOrder::Big).unwrap();
        let end = buf.len();
        assert_eq!(
            parse_name(&buf, 8, end, ByteOrder::Big),
            Ok((name.to_owned(), end))
        );
    }
}

#[test]
fn positions_outside_the_input_are_refused() {
    assert_eq!(
        read_element(&REFERENCE, 136, 209, ByteOrder::Little),
        Err(error(ParseErrorKind::Truncated, 136))
    );
    assert_eq!(
        read_element(&REFERENCE, 152, 144, ByteOrder::Little),
        Err(error(ParseErrorKind::Truncated, 152))
    );
    assert_eq!(
        parse_matrix(&REFERENCE, 300, 400, ByteOrder::Little),
        Err(error(ParseErrorKind::Truncated, 300))
    );
    assert_eq!(
        parse_element(&REFERENCE, 208, ByteOrder::Little),
        Err(error(ParseErrorKind::Truncated, 208))
    );
    assert_eq!(parse_elements(&REFERENCE, 208, ByteOrder::Little), Ok(vec![]));
    assert_eq!(parse_elements(&REFERENCE, 209, ByteOrder::Little), Ok(vec![]));
    assert_eq!(
        parse_elements(&REFERENCE, 128, ByteOrder::Little),
        parse(&REFERENCE)
    );
}

#[test]
fn more_than_three_dimensions_are_refused() {
    let mut buf = Vec::new();
    writers::write_data_element(&mut buf, DataType::Int32, &[0; 16], ByteOrder::Little).unwrap();
    assert_eq!(
        parse_dimensions(&buf, 0, buf.len(), ByteOrder::Little),
        Err(error(ParseErrorKind::TooManyDimensions, 0))
    );
    let mut buf = Vec::new();
    writers::write_data_element(&mut buf, DataType::Int32, &[0; 12], ByteOrder::Little).unwrap();
    assert_eq!(
        parse_dimensions(&buf, 0, buf.len(), ByteOrder::Little),
        Ok((vec![0, 0, 0], 24))
    );
    let mut buf = Vec::new();
    writers::write_data_element(&mut buf, DataType::Int32, &[], ByteOrder::Little).unwrap();
    assert_eq!(parse_dimensions(&buf, 0, buf.len(), ByteOrder::Little), Ok((vec![], 8)));
}

#[test]
fn a_matrix_must_end_with_its_parts() {
    // The flags say complex, and no imaginary part follows.
    let mut complex = REFERENCE.to_vec();
    complex[145] = 8;
    assert_eq!(parse(&complex), Err(error(ParseErrorKind::Truncated, 208)));
    // The flags say real, and a second part follows.
    let mut buf = Vec::new();
    let writer = MatFileWriter::with_byte_order(ByteOrder::Little);
    writer.write_header(&mut buf, "").unwrap();
    writer
        .write_array(
            &mut buf,
            "x",
            NumericData::Int8(vec![1, 2]),
            Some(NumericData::Int8(vec![3, 4])),
        )
        .unwrap();
    assert!(parse(&buf).is_ok());
    let mut real = buf.clone();
    real[128 + 17] = 0;
    assert_eq!(parse(&real), Err(error(ParseErrorKind::TrailingBytes, 128 + 72)));
    // The imaginary part has another number of values.
    let mut shorter = buf.clone();
    shorter[128 + 72 + 4] = 1;
    assert_eq!(parse(&shorter), Err(error(ParseErrorKind::LengthMismatch, 128 + 72)));
    // Bytes after the imaginary part.
    let mut longer = buf.clone();
    longer[132] += 8;
    longer.extend_from_slice(&[0; 8]);
    assert_eq!(parse(&longer), Err(error(ParseErrorKind::TrailingBytes, 128 + 88)));
    assert_eq!(
        parse_imaginary(&buf, 200, 216, ByteOrder::Little, true, 2),
        Ok(Some(NumericData::Int8(vec![3, 4])))
    );
    assert_eq!(parse_imaginary(&buf, 216, 216, ByteOrder::Little, false, 2), Ok(None));
}

#[test]
fn a_big_endian_file_is_written_byte_by_byte() {
    let writer = MatFileWriter::with_byte_order(ByteOrder::Big);
    let mut buf = Vec::new();
    writer.write(&mut buf, "abcde", &[1, 2, 21474836]).unwrap();
    assert_eq!(buf.len(), 208);
    assert_eq!(&buf[..126], &REFERENCE[..126]);
    assert_eq!(&buf[126..128], b"MI");
    assert_eq!(&buf[128..136], &[0, 0, 0, 14, 0, 0, 0, 72]);
    assert_eq!(&buf[136..152], &[0, 0, 0, 6, 0, 0, 0, 8, 0, 0, 0, 6, 0, 0, 0, 0]);
    assert_eq!(&buf[152..168], &[0, 0, 0, 5, 0, 0, 0, 8, 0, 0, 0, 1, 0, 0, 0, 3]);
    assert_eq!(&buf[168..184], &[0, 0, 0, 1, 0, 0, 0, 5, b'a', b'b', b'c', b'd', b'e', 0, 0, 0]);
    assert_eq!(&buf[184..192], &[0, 0, 0, 5, 0, 0, 0, 12]);
    assert_eq!(&buf[192..204], &[0, 0, 0, 1, 0, 0, 0, 2, 0x01, 0x47, 0xAE, 0x14]);
    assert_eq!(&buf[204..208], &[0, 0, 0, 0]);
    assert_eq!(parse(&buf), parse(&REFERENCE));
}
