use psd::color_channel::ColorChannel;
use psd::rle::encoded;
use psd::{ColorChannelType, ImageCompression, WriteError};

#[test]
fn encoded_data_2x1() {
    let mut channel = ColorChannel::new(ColorChannelType::Red, 2);
    channel.data = vec![0xac, 0x00];

    let result = channel.compressed_data(1).unwrap();

    assert_eq!(result.compression, ImageCompression::RawData);

    assert_eq!(result.data.len(), 2);
    assert_eq!(result.data[0], 0xac);
    assert_eq!(result.data[1], 0x00);
}

#[test]
fn encoded_data_2x2() {
    let mut channel = ColorChannel::new(ColorChannelType::Red, 4);
    channel.data = vec![0xfb, 0xe5, 0x42, 0x20];

    let result = channel.compressed_data(2).unwrap();

    assert_eq!(result.compression, ImageCompression::Rle);

    let data = result.data;

    assert_eq!(data.len(), 10);

    // First line length
    assert_eq!(data[0], 0x00);
    assert_eq!(data[1], 0x03);

    // Second line length
    assert_eq!(data[2], 0x00);
    assert_eq!(data[3], 0x03);

    // First line data.
    assert_eq!(data[4], 0x01);
    assert_eq!(data[5], 0xfb);
    assert_eq!(data[6], 0xe5);

    // Second line data.
    assert_eq!(data[7], 0x01);
    assert_eq!(data[8], 0x42);
    assert_eq!(data[9], 0x20);
}

#[test]
fn channel_new_is_zeroed() {
    let channel = ColorChannel::new(ColorChannelType::Blue, 5);
    assert_eq!(channel.data, vec![0; 5]);
    assert_eq!(channel.data_length, 5);
    assert_eq!(channel.color_type, ColorChannelType::Blue);
    assert!(channel.compressed_data.is_none());
}

#[test]
fn channel_of_at_most_two_bytes_is_raw() {
    for data in [vec![], vec![0x11], vec![0x11, 0x11]] {
        let mut channel = ColorChannel::new(ColorChannelType::Red, data.len());
        channel.data = data.clone();
        // Even with no rows, a tiny plane is written raw.
        let result = channel.compressed_data(0).unwrap();
        assert_eq!(result.compression, ImageCompression::RawData);
        assert_eq!(result.data, data);
        assert!(channel.compressed_data.is_none());
    }
}

#[test]
fn channel_with_no_rows_is_invalid() {
    let mut channel = ColorChannel::new(ColorChannelType::Red, 4);
    channel.data = vec![1, 2, 3, 4];
    assert!(matches!(channel.compressed_data(0), Err(WriteError::InvalidImage)));
    assert!(matches!(channel.rle_encoded_components(0), Err(WriteError::InvalidImage)));
    assert!(channel.compressed_data.is_none());
}

#[test]
fn channel_caches_its_compressed_data() {
    let mut channel = ColorChannel::new(ColorChannelType::Green, 6);
    channel.data = vec![9, 9, 9, 1, 2, 3];
    let first = channel.compressed_data(2).unwrap();
    assert_eq!(channel.compressed_data, Some(first.data.clone()));
    let second = channel.compressed_data(2).unwrap();
    assert_eq!(second.compression, ImageCompression::Rle);
    assert_eq!(second.data, first.data);
    // The cache is what is handed out while it is there.
    channel.compressed_data = Some(vec![0xAB]);
    assert_eq!(channel.compressed_data(2).unwrap().data, vec![0xAB]);
}

#[test]
fn line_lengths_add_up_to_the_encoded_rows() {
    let data: Vec<u8> = (0..400u32).map(|i| if i % 37 < 20 { 7 } else { (i % 13) as u8 }).collect();
    let mut channel = ColorChannel::new(ColorChannelType::Alpha, data.len());
    channel.data = data.clone();
    let height = 4u32;
    let components = channel.rle_encoded_components(height).unwrap();
    assert_eq!(components.line_lengths.len(), 2 * height as usize);
    let mut total = 0usize;
    let mut expected_data = Vec::new();
    for y in 0..height as usize {
        let value = components.line_lengths[2 * y] as usize * 256 + components.line_lengths[2 * y + 1] as usize;
        let row = encoded(&data[y * 100..(y + 1) * 100]);
        assert_eq!(value, row.len());
        total += value;
        expected_data.extend_from_slice(&row);
    }
    assert_eq!(total, components.data.len());
    assert_eq!(components.data, expected_data);

    let mut whole = components.line_lengths.clone();
    whole.extend_from_slice(&components.data);
    assert_eq!(channel.rle_encoded_data(height).unwrap(), whole);
}

#[test]
fn rows_drop_the_remainder_of_an_uneven_plane() {
    let mut channel = ColorChannel::new(ColorChannelType::Red, 5);
    channel.data = vec![1, 1, 2, 2, 3];
    let components = channel.rle_encoded_components(2).unwrap();
    assert_eq!(components.line_lengths, vec![0, 3, 0, 3]);
    assert_eq!(components.data, vec![0x01, 1, 1, 0x01, 2, 2]);
}

#[test]
fn row_too_long_for_its_length_entry_fails_to_write() {
    // 70,000 bytes without repeats encode to more than 0xFFFF bytes.
    let data: Vec<u8> = (0..70_000u32).map(|i| (i % 251) as u8).collect();
    let mut channel = ColorChannel::new(ColorChannelType::Red, data.len());
    channel.data = data;
    assert!(matches!(channel.rle_encoded_components(1), Err(WriteError::WriteFailure)));
    assert!(matches!(channel.compressed_data(1), Err(WriteError::WriteFailure)));
    assert!(channel.compressed_data.is_none());
    // Two rows of 35,000 bytes fit.
    assert!(channel.rle_encoded_components(2).is_ok());
}
