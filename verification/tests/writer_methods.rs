//! The writer's methods against a reference file: one array named
//! `abcde` that holds the numbers 1, 2 and 21474836 as 32-bit integers.

use matfile::parse::{ArrayFlags, ArrayType, DataElement, DataType, NumericData};
use matfile::write::MatFileWriter;

/// The reference file, written on a little-endian machine.
const REFERENCE: [u8; 208] = [
    0x4d, 0x41, 0x54, 0x4c, 0x41, 0x42, 0x20, 0x35,
    0x2e, 0x30, 0x20, 0x4d, 0x41, 0x54, 0x2d, 0x66,
    0x69, 0x6c, 0x65, 0x2c, 0x20, 0x50, 0x6c, 0x61,
    0x74, 0x66, 0x6f, 0x72, 0x6d, 0x3a, 0x20, 0x47,
    0x4c, 0x4e, 0x58, 0x41, 0x36, 0x34, 0x2c, 0x20,
    0x43, 0x72, 0x65, 0x61, 0x74, 0x65, 0x64, 0x20,
    0x6f, 0x6e, 0x3a, 0x20, 0x4d, 0x6f, 0x6e, 0x20,
    0x4a, 0x75, 0x6e, 0x20, 0x31, 0x37, 0x20, 0x31,
    0x37, 0x3a, 0x35, 0x35, 0x3a, 0x32, 0x37, 0x20,
    0x32, 0x30, 0x32, 0x34, 0x20, 0x20, 0x20, 0x20,
    0x20, 0x20, 0x20, 0x20, 0x20, 0x20, 0x20, 0x20,
    0x20, 0x20, 0x20, 0x20, 0x20, 0x20, 0x20, 0x20,
    0x20, 0x20, 0x20, 0x20, 0x20, 0x20, 0x20, 0x20,
    0x20, 0x20, 0x20, 0x20, 0x20, 0x20, 0x20, 0x20,
    0x20, 0x20, 0x20, 0x20, 0x00, 0x00, 0x00, 0x00,
    0x00, 0x00, 0x00, 0x00, 0x00, 0x01, 0x49, 0x4d,
    0x0e, 0x00, 0x00, 0x00, 0x48, 0x00, 0x00, 0x00,
    0x06, 0x00, 0x00, 0x00, 0x08, 0x00, 0x00, 0x00,
    0x06, 0x00, 0x00, 0x00, 0x00, 0x00, 0x00, 0x00,
    0x05, 0x00, 0x00, 0x00, 0x08, 0x00, 0x00, 0x00,
    0x01, 0x00, 0x00, 0x00, 0x03, 0x00, 0x00, 0x00,
    0x01, 0x00, 0x00, 0x00, 0x05, 0x00, 0x00, 0x00,
    0x61, 0x62, 0x63, 0x64, 0x65, 0x00, 0x00, 0x00,
    0x05, 0x00, 0x00, 0x00, 0x0c, 0x00, 0x00, 0x00,
    0x01, 0x00, 0x00, 0x00, 0x02, 0x00, 0x00, 0x00,
    0x14, 0xae, 0x47, 0x01, 0x00, 0x00, 0x00, 0x00,
];

#[test]
fn write_write_header() {
    let mut buf = Vec::new();

    let a = MatFileWriter::native();
    a.write_header(
        &mut buf,
        "MATLAB 5.0 MAT-file, Platform: GLNXA64, Created on: Mon Jun 17 17:55:27 2024",
    )
    .expect("Writing into a buffer should not fail");

    assert_eq!(&buf[0..128], &REFERENCE[0..128]);
}

#[test]
fn write_write_data_element_tag_matrix() {
    let mut buf = Vec::new();

    let a = MatFileWriter::native();
    // The reference file holds 72 bytes of data.
    a.write_data_element(&mut buf, DataType::Matrix, &[0; 72])
        .expect("Writing into a buffer should not fail");

    let prev_offset = 128;
    let byte_length = 8;
    assert_eq!(
        &buf[0..byte_length],
        &REFERENCE[prev_offset..(prev_offset + byte_length)]
    );
}

#[test]
fn write_write_sub_element_array_flags() {
    let mut buf = Vec::new();

    let a = MatFileWriter::native();
    a.write_sub_element_array_flags(
        &mut buf,
        ArrayFlags {
            class: ArrayType::Double,
            complex: false,
            global: false,
            logical: false,
            nzmax: 0,
        },
    )
    .expect("Writing into a buffer should not fail");

    let prev_offset = 136;
    let byte_length = 16;
    assert_eq!(
        &buf[0..byte_length],
        &REFERENCE[prev_offset..(prev_offset + byte_length)]
    );
}

#[test]
fn write_write_sub_element_array_dimensions() {
    let mut buf = Vec::new();

    let a = MatFileWriter::native();
    a.write_sub_element_dimensions(&mut buf, &[1, 3])
        .expect("Writing into a buffer should not fail");

    let prev_offset = 152;
    let byte_length = 16;
    assert_eq!(
        &buf[0..byte_length],
        &REFERENCE[prev_offset..(prev_offset + byte_length)]
    );
}

#[test]
fn write_write_sub_element_array_name() {
    let mut buf = Vec::new();

    let a = MatFileWriter::native();
    a.write_sub_element_array_name(&mut buf, "abcde")
        .expect("Writing into a buffer should not fail");

    let prev_offset = 168;
    let byte_length = 16;
    assert_eq!(
        &buf[0..byte_length],
        &REFERENCE[prev_offset..(prev_offset + byte_length)]
    );
}

#[test]
fn write_write_sub_element_real_part() {
    let mut bytes: Vec<u8> = Vec::new();
    for num in [1i32, 2, 21474836] {
        bytes.extend(num.to_ne_bytes());
    }

    let mut buf = Vec::new();

    let a = MatFileWriter::native();
    a.write_sub_element_real_part(&mut buf, DataType::Int32, &bytes)
        .expect("Writing into a buffer should not fail");

    let prev_offset = 184;
    let byte_length = 24;
    assert_eq!(
        &buf[0..byte_length],
        &REFERENCE[prev_offset..(prev_offset + byte_length)]
    );
}

#[test]
fn write_write_full_file() {
    let mut buf = Vec::new();

    let a = MatFileWriter::native();
    a.write_header(
        &mut buf,
        "MATLAB 5.0 MAT-file, Platform: GLNXA64, Created on: Mon Jun 17 17:55:27 2024",
    )
    .expect("Writing into a buffer should not fail");

    let mut matrix_data_buf = Vec::new();
    a.write_sub_element_array_flags(
        &mut matrix_data_buf,
        ArrayFlags {
            complex: false,
            global: false,
            logical: false,
            class: ArrayType::Double,
            nzmax: 0,
        },
    )
    .expect("Writing into a buffer should not fail");

    a.write_sub_element_dimensions(&mut matrix_data_buf, &[1, 3])
        .expect("Writing into a buffer should not fail");
    a.write_sub_element_array_name(&mut matrix_data_buf, "abcde")
        .expect("Writing into a buffer should not fail");

    let mut bytes: Vec<u8> = Vec::new();
    for num in [1i32, 2, 21474836] {
        bytes.extend(num.to_ne_bytes());
    }
    a.write_sub_element_real_part(&mut matrix_data_buf, DataType::Int32, &bytes)
        .expect("Writing into a buffer should not fail");

    a.write_data_element(&mut buf, DataType::Matrix, &matrix_data_buf)
        .expect("Writing into a buffer should not fail");

    // Byte by byte, so that a failure names the place.
    for i in 0..REFERENCE.len() {
        assert_eq!(buf[i], REFERENCE[i], "Byte {} should match", i)
    }
}

#[test]
fn write_write_full_file_2() {
    let mut buf = Vec::new();

    let a = MatFileWriter::native();
    a.write_header(
        &mut buf,
        "MATLAB 5.0 MAT-file, Platform: GLNXA64, Created on: Mon Jun 17 17:55:27 2024",
    )
    .expect("Writing into a buffer should not fail");

    a.write_matrix(
        &mut buf,
        DataElement::NumericMatrix(
            ArrayFlags {
                complex: false,
                global: false,
                logical: false,
                class: ArrayType::Double,
                nzmax: 0,
            },
            vec![1, 3],
            "abcde".to_owned(),
            NumericData::Int32(vec![1, 2, 21474836]),
            None,
        ),
    )
    .expect("Writing into a buffer should not fail");

    // Byte by byte, so that a failure names the place.
    for i in 0..REFERENCE.len() {
        assert_eq!(buf[i], REFERENCE[i], "Byte {} should match", i)
    }
}
