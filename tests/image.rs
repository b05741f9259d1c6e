use psd::{psd_data, Image, ImageCompression, Size, WriteError};

/// An image of one colour, four bytes per pixel.
fn solid(rgba: [u8; 4], width: u32, height: u32) -> Image {
    let mut data = Vec::new();
    for _ in 0..width * height {
        data.extend_from_slice(&rgba);
    }
    Image { size: Size { width, height }, bytes_per_row: 4 * width, data }
}

#[test]
fn raw_data() {
    let image = solid([0x24, 0xa4, 0xee, 0xff], 2, 2);
    let data = psd_data(&image, &ImageCompression::RawData).unwrap();

    // Compression type
    assert_eq!(data[0..=1], [0x00, 0x00]);

    // Red
    assert_eq!(data[2..=5], [0x24, 0x24, 0x24, 0x24]);

    // Green
    assert_eq!(data[6..=9], [0xa4, 0xa4, 0xa4, 0xa4]);

    // Blue
    assert_eq!(data[10..=13], [0xee, 0xee, 0xee, 0xee]);

    // Alpha
    assert_eq!(data[14..=17], [0xff, 0xff, 0xff, 0xff]);
}

#[test]
fn raw_data_with_alpha() {
    let image = solid([0x23, 0xa4, 0xee, 0x99], 2, 2);
    let data = psd_data(&image, &ImageCompression::RawData).unwrap();

    // Compression type
    assert_eq!(data[0..=1], [0x00, 0x00]);

    // Red
    assert_eq!(data[2..=5], [0x23, 0x23, 0x23, 0x23]);

    // Green
    assert_eq!(data[6..=9], [0xa4, 0xa4, 0xa4, 0xa4]);

    // Blue
    assert_eq!(data[10..=13], [0xee, 0xee, 0xee, 0xee]);

    // Alpha
    assert_eq!(data[14..=17], [0x99, 0x99, 0x99, 0x99]);
}

#[test]
fn rle_data() {
    let image = solid([0x24, 0xa4, 0xee, 0xff], 2, 2);
    let data = psd_data(&image, &ImageCompression::Rle).unwrap();

    // Compression type
    assert_eq!(data[0..=1], [0x00, 0x01]);

    // All of the line lengths (2 rows x 4 channels).
    assert_eq!(data[2..=3], [0x00, 0x03]);
    assert_eq!(data[4..=5], [0x00, 0x03]);
    assert_eq!(data[6..=7], [0x00, 0x03]);
    assert_eq!(data[8..=9], [0x00, 0x03]);
    assert_eq!(data[10..=11], [0x00, 0x03]);
    assert_eq!(data[12..=13], [0x00, 0x03]);
    assert_eq!(data[14..=15], [0x00, 0x03]);
    assert_eq!(data[16..=17], [0x00, 0x03]);

    // Red
    assert_eq!(data[18..=20], [0x01, 0x24, 0x24]);
    assert_eq!(data[21..=23], [0x01, 0x24, 0x24]);

    // Green
    assert_eq!(data[24..=26], [0x01, 0xa4, 0xa4]);
    assert_eq!(data[27..=29], [0x01, 0xa4, 0xa4]);

    // Blue
    assert_eq!(data[30..=32], [0x01, 0xee, 0xee]);
    assert_eq!(data[33..=35], [0x01, 0xee, 0xee]);

    // Alpha
    assert_eq!(data[36..=38], [0x01, 0xff, 0xff]);
    assert_eq!(data[39..=41], [0x01, 0xff, 0xff]);
}

#[test]
fn rle_data_with_alpha() {
    let image = solid([0x24, 0xa4, 0xee, 0x99], 2, 2);
    let data = psd_data(&image, &ImageCompression::Rle).unwrap();

    // Compression type
    assert_eq!(data[0..=1], [0x00, 0x01]);

    // All of the line lengths (2 rows x 4 channels).
    assert_eq!(data[2..=3], [0x00, 0x03]);
    assert_eq!(data[4..=5], [0x00, 0x03]);
    assert_eq!(data[6..=7], [0x00, 0x03]);
    assert_eq!(data[8..=9], [0x00, 0x03]);
    assert_eq!(data[10..=11], [0x00, 0x03]);
    assert_eq!(data[12..=13], [0x00, 0x03]);
    assert_eq!(data[14..=15], [0x00, 0x03]);
    assert_eq!(data[16..=17], [0x00, 0x03]);

    // Red
    assert_eq!(data[18..=20], [0x01, 0x24, 0x24]);
    assert_eq!(data[21..=23], [0x01, 0x24, 0x24]);

    // Green
    assert_eq!(data[24..=26], [0x01, 0xa4, 0xa4]);
    assert_eq!(data[27..=29], [0x01, 0xa4, 0xa4]);

    // Blue
    assert_eq!(data[30..=32], [0x01, 0xee, 0xee]);
    assert_eq!(data[33..=35], [0x01, 0xee, 0xee]);

    // Alpha
    assert_eq!(data[36..=38], [0x01, 0x99, 0x99]);
    assert_eq!(data[39..=41], [0x01, 0x99, 0x99]);
}

#[test]
fn zip_compression_is_unsupported() {
    let image = solid([1, 2, 3, 4], 2, 2);
    assert!(matches!(
        psd_data(&image, &ImageCompression::ZipWithoutPrediction),
        Err(WriteError::UnsupportedCompression)
    ));
    assert!(matches!(
        psd_data(&image, &ImageCompression::ZipWithPrediction),
        Err(WriteError::UnsupportedCompression)
    ));
}

#[test]
fn image_too_short_for_its_size_is_invalid() {
    let mut image = solid([1, 2, 3, 4], 2, 2);
    image.data.pop();
    assert!(matches!(psd_data(&image, &ImageCompression::RawData), Err(WriteError::InvalidImage)));
}

#[test]
fn rows_are_read_with_their_stride() {
    // Two pixels per row, with two bytes of padding after each row.
    let image = Image {
        size: Size { width: 2, height: 2 },
        bytes_per_row: 10,
        data: vec![
            1, 2, 3, 4, 5, 6, 7, 8, 0xEE, 0xEE, //
            9, 10, 11, 12, 13, 14, 15, 16, 0xEE, 0xEE,
        ],
    };
    let data = psd_data(&image, &ImageCompression::RawData).unwrap();
    assert_eq!(
        data,
        vec![0, 0, 1, 5, 9, 13, 2, 6, 10, 14, 3, 7, 11, 15, 4, 8, 12, 16]
    );
}

#[test]
fn empty_image_is_transparent() {
    let image = Image::empty(Size { width: 3, height: 2 });
    assert_eq!(image.bytes_per_row, 12);
    assert_eq!(image.data, vec![0; 24]);
}
