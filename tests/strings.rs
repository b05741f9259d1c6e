use psd::data::pad;
use psd::file_stream::write_string_with_length;
use psd::string::{pascal, unicode};
use psd::WriteError;

#[test]
fn pascal_data_from_string() {
    let expected_data = vec![0x05, 0x45, 0x6d, 0x70, 0x74, 0x79, 0x00, 0x00];

    let mut result = pascal::data_from_string(Some(&"Empty".to_string())).unwrap();
    pad(&mut result, 4);

    assert_eq!(result, expected_data);
}

#[test]
fn unicode_data_from_string() {
    let expected_data = vec![
        0x38, 0x42, 0x49, 0x4D, // 8BIM
        0x6C, 0x75, 0x6E, 0x69, // luni
        0x00, 0x00, 0x00, 0x0E, // Length of bytes
        0x00, 0x00, 0x00, 0x05, // Length of string
        0x00, 0x4C, // .L
        0x00, 0x61, // .a
        0x00, 0x79, // .y
        0x00, 0x65, // .e
        0x00, 0x72, // .r
    ];

    let result = unicode::data_from_string(Some(&"Layer".to_string())).unwrap();

    assert_eq!(result, expected_data);
}

#[test]
fn data_from_tricky_string() {
    let expected_data = vec![
        0x38, 0x42, 0x49, 0x4D, // 8BIM
        0x6C, 0x75, 0x6E, 0x69, // luni
        0x00, 0x00, 0x00, 0x12, // Length of bytes
        0x00, 0x00, 0x00, 0x07, // Length of string
        0x00, 0x59, // .Y
        0x00, 0x65, // .e
        0x00, 0x6C, // .l
        0x20, 0x19, // ’
        0x00, 0x6C, // .l
        0x00, 0x6F, // .o
        0x00, 0x77, // .w
    ];

    let result = unicode::data_from_string(Some(&"Yel\u{2019}low".to_string())).unwrap();

    assert_eq!(result, expected_data);
}

#[test]
fn pascal_without_name_is_two_zero_bytes() {
    assert_eq!(pascal::data_from_string(None).unwrap(), vec![0, 0]);
}

#[test]
fn pascal_counts_utf8_bytes() {
    let result = pascal::data_from_string(Some(&"Yel\u{2019}low".to_string())).unwrap();
    assert_eq!(result[0], 9);
    assert_eq!(&result[1..], "Yel\u{2019}low".as_bytes());
}

#[test]
fn pascal_name_longer_than_255_bytes_fails() {
    let long = "x".repeat(256);
    assert!(matches!(pascal::data_from_string(Some(&long)), Err(WriteError::WriteFailure)));
    let longest = "x".repeat(255);
    let result = pascal::data_from_string(Some(&longest)).unwrap();
    assert_eq!(result[0], 255);
    assert_eq!(result.len(), 256);
}

#[test]
fn pad_fills_to_a_multiple() {
    let mut v = vec![1, 2, 3, 4, 5];
    pad(&mut v, 4);
    assert_eq!(v, vec![1, 2, 3, 4, 5, 0, 0, 0]);
    let mut w = vec![1, 2, 3, 4];
    pad(&mut w, 4);
    assert_eq!(w, vec![1, 2, 3, 4]);
}

#[test]
fn unicode_without_name_is_an_empty_block() {
    assert_eq!(
        unicode::data_from_string(None).unwrap(),
        vec![0x38, 0x42, 0x49, 0x4D, 0x6C, 0x75, 0x6E, 0x69, 0, 0, 0, 4, 0, 0, 0, 0]
    );
}

#[test]
fn unicode_writes_surrogate_pairs() {
    let result = unicode::data_from_string(Some(&"a\u{1F600}".to_string())).unwrap();
    assert_eq!(
        result,
        vec![
            0x38, 0x42, 0x49, 0x4D, 0x6C, 0x75, 0x6E, 0x69, 0, 0, 0, 10, 0, 0, 0, 3, 0x00, 0x61,
            0xD8, 0x3D, 0xDE, 0x00
        ]
    );
}

#[test]
fn string_with_length() {
    let mut stream = vec![0xEE];
    write_string_with_length(&"Ab".to_string(), &mut stream).unwrap();
    assert_eq!(stream, vec![0xEE, 0, 0, 0, 3, 0x00, 0x41, 0x00, 0x62, 0, 0]);
}
