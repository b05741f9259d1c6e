use psd::{
    BlendMode, ColorChannelType, GroupInfo, Image, Layer, LayerContainer, LayerType, Rect, Size,
    WriteError,
};

/// An image of one colour, four bytes per pixel.
fn solid(rgba: [u8; 4], width: u32, height: u32) -> Image {
    let mut data = Vec::new();
    for _ in 0..width * height {
        data.extend_from_slice(&rgba);
    }
    Image { size: Size { width, height }, bytes_per_row: 4 * width, data }
}

/// The image of one colour given as 0xRRGGBB, fully opaque.
fn rgb(rgb: u32, width: u32, height: u32) -> Image {
    solid([(rgb >> 16) as u8, (rgb >> 8) as u8, rgb as u8, 0xff], width, height)
}

#[test]
fn update_channel_data() {
    let bounds = Rect::new(0, 0, 2, 2);
    let mut layer = Layer::new(bounds);
    layer.image = Some(solid([0xab, 0xcd, 0xef, 0x91], 2, 2));

    assert_eq!(layer.channels.len(), 0);

    layer.update_channel_data().unwrap();

    assert_eq!(layer.channels.len(), 4);

    let red_channel = &layer.channels[1];
    assert_eq!(red_channel.color_type, ColorChannelType::Red);
    assert_eq!(red_channel.data, vec![0xab, 0xab, 0xab, 0xab]);

    let green_channel = &layer.channels[2];
    assert_eq!(green_channel.color_type, ColorChannelType::Green);
    assert_eq!(green_channel.data, vec![0xcd, 0xcd, 0xcd, 0xcd]);

    let blue_channel = &layer.channels[3];
    assert_eq!(blue_channel.color_type, ColorChannelType::Blue);
    assert_eq!(blue_channel.data, vec![0xef, 0xef, 0xef, 0xef]);

    let alpha_channel = &layer.channels[0];
    assert_eq!(alpha_channel.color_type, ColorChannelType::Alpha);
    assert_eq!(alpha_channel.data, vec![0x91, 0x91, 0x91, 0x91]);
}

#[test]
fn encoded_image_2x2() {
    let bounds = Rect::new(0, 0, 2, 2);
    let mut layer = Layer::new(bounds);
    layer.image = Some(rgb(0x50d1e7, 2, 2));

    let encoded_image = layer.encoded_image().unwrap();

    // Alpha compression (RLE).
    assert_eq!(encoded_image[0..2], [0x00, 0x01]);
    // First row size.
    assert_eq!(encoded_image[2..4], [0x00, 0x03]);
    // Second row size.
    assert_eq!(encoded_image[4..6], [0x00, 0x03]);
    // Two byes of 0xFF in the top row.
    assert_eq!(encoded_image[6..9], [0x01, 0xff, 0xff]);
    // Two byes of 0xFF in the bottom row.
    assert_eq!(encoded_image[9..12], [0x01, 0xff, 0xff]);

    // Red compression (RLE).
    assert_eq!(encoded_image[12..14], [0x00, 0x01]);
    // First row size.
    assert_eq!(encoded_image[14..16], [0x00, 0x03]);
    // Second row size.
    assert_eq!(encoded_image[16..18], [0x00, 0x03]);
    // Two byes of 0x50 in the top row.
    assert_eq!(encoded_image[18..21], [0x01, 0x50, 0x50]);
    // Two byes of 0x50 in the bottom row.
    assert_eq!(encoded_image[21..24], [0x01, 0x50, 0x50]);

    // Green compression (RLE).
    assert_eq!(encoded_image[24..26], [0x00, 0x01]);
    // First row size.
    assert_eq!(encoded_image[26..28], [0x00, 0x03]);
    // Second row size.
    assert_eq!(encoded_image[28..30], [0x00, 0x03]);
    // Two byes of 0xd1 in the top row.
    assert_eq!(encoded_image[30..33], [0x01, 0xd1, 0xd1]);
    // Two byes of 0xd1 in the bottom row.
    assert_eq!(encoded_image[33..36], [0x01, 0xd1, 0xd1]);

    // Blue compression (RLE).
    assert_eq!(encoded_image[36..38], [0x00, 0x01]);
    // First row size.
    assert_eq!(encoded_image[38..40], [0x00, 0x03]);
    // Second row size.
    assert_eq!(encoded_image[40..42], [0x00, 0x03]);
    // Two byes of 0xe7 in the top row.
    assert_eq!(encoded_image[42..45], [0x01, 0xe7, 0xe7]);
    // Two byes of 0xe7 in the bottom row.
    assert_eq!(encoded_image[45..48], [0x01, 0xe7, 0xe7]);
}

#[test]
fn encoded_image_2x3() {
    let bounds = Rect::new(0, 0, 3, 2);
    let mut layer = Layer::new(bounds);
    layer.image = Some(rgb(0x50d1e7, 3, 2));

    let encoded_image = layer.encoded_image().unwrap();

    // Alpha compression (RLE).
    assert_eq!(encoded_image[0..2], [0x00, 0x01]);
    // First row size.
    assert_eq!(encoded_image[2..4], [0x00, 0x02]);
    // Second row size.
    assert_eq!(encoded_image[4..6], [0x00, 0x02]);
    // Three repeated byes of 0xFF in the top row.
    assert_eq!(encoded_image[6..8], [0xfe, 0xff]);
    // Three repeated byes of 0xFF in the bottom row.
    assert_eq!(encoded_image[8..10], [0xfe, 0xff]);

    // Red compression (RLE).
    assert_eq!(encoded_image[10..12], [0x00, 0x01]);
    // First row size.
    assert_eq!(encoded_image[12..14], [0x00, 0x02]);
    // Second row size.
    assert_eq!(encoded_image[14..16], [0x00, 0x02]);
    // Three repeated byes of 0x50 in the top row.
    assert_eq!(encoded_image[16..18], [0xfe, 0x50]);
    // Three repeated byes of 0x50 in the bottom row.
    assert_eq!(encoded_image[18..20], [0xfe, 0x50]);

    // Green compression (RLE).
    assert_eq!(encoded_image[20..22], [0x00, 0x01]);
    // First row size.
    assert_eq!(encoded_image[22..24], [0x00, 0x02]);
    // Second row size.
    assert_eq!(encoded_image[24..26], [0x00, 0x02]);
    // Three repeated byes of 0xd1 in the top row.
    assert_eq!(encoded_image[26..28], [0xfe, 0xd1]);
    // Three repeated byes of 0xd1 in the bottom row.
    assert_eq!(encoded_image[28..30], [0xfe, 0xd1]);

    // Blue compression (RLE).
    assert_eq!(encoded_image[30..32], [0x00, 0x01]);
    // First row size.
    assert_eq!(encoded_image[32..34], [0x00, 0x02]);
    // Second row size.
    assert_eq!(encoded_image[34..36], [0x00, 0x02]);
    // Three repeated byes of 0xe7 in the top row.
    assert_eq!(encoded_image[36..38], [0xfe, 0xe7]);
    // Three repeated byes of 0xe7 in the bottom row.
    assert_eq!(encoded_image[38..40], [0xfe, 0xe7]);
}

#[test]
fn record_data() {
    let bounds = Rect::new(0, 0, 2, 2);

    let mut layer = Layer::new(bounds);
    layer.name = Some("Frowning".to_string());
    layer.image = Some(solid([0xff, 0xff, 0x00, 0xff], 2, 2));

    let result = layer.record_data().unwrap();

    // Top of bounding box.
    assert_eq!(result[0..4], [0x00, 0x00, 0x00, 0x00]);
    // Left.
    assert_eq!(result[4..8], [0x00, 0x00, 0x00, 0x00]);
    // Bottom.
    assert_eq!(result[8..12], [0x00, 0x00, 0x00, 0x02]);
    // Right.
    assert_eq!(result[12..16], [0x00, 0x00, 0x00, 0x02]);
    // Number of channels.
    assert_eq!(result[16..18], [0x00, 0x04]);
    // Alpha channel identifier.
    assert_eq!(result[18..20], [0xFF, 0xFF]);
    // Alpha channel length.
    assert_eq!(result[20..24], [0x00, 0x00, 0x00, 0x0c]);
    // Red channel identifier.
    assert_eq!(result[24..26], [0x00, 0x00]);
    // Red channel length.
    assert_eq!(result[26..30], [0x00, 0x00, 0x00, 0x0c]);
    // Green channel identifier.
    assert_eq!(result[30..32], [0x00, 0x01]);
    // Green channel length.
    assert_eq!(result[32..36], [0x00, 0x00, 0x00, 0x0c]);
    // Blue channel identifier.
    assert_eq!(result[36..38], [0x00, 0x02]);
    // Blue channel length.
    assert_eq!(result[38..42], [0x00, 0x00, 0x00, 0x0c]);
    // Blend mode signature.
    assert_eq!(result[42..46], [0x38, 0x42, 0x49, 0x4D]);
    // Blend mode.
    assert_eq!(result[46..50], [0x6E, 0x6F, 0x72, 0x6D]);
    // Opacity.
    assert_eq!(result[50..51], [0xFF]);
    // Flags (includes visibility)
    assert_eq!(result[52..53], [0x00]);
    // Extra data length.
    assert_eq!(result[54..58], [0x00, 0x00, 0x00, 0x34]);
    // Mask data.
    assert_eq!(result[58..62], [0x00, 0x00, 0x00, 0x00]);
    // Blending ranges.
    assert_eq!(result[62..66], [0x00, 0x00, 0x00, 0x00]);
    // Layer name.
    assert_eq!(
        result[66..78],
        [0x08, 0x46, 0x72, 0x6F, 0x77, 0x6E, 0x69, 0x6E, 0x67, 0x00, 0x00, 0x00]
    );
}

fn marker_record_bytes() -> Vec<u8> {
    vec![
        0x00, 0x00, 0x00, 0x00, // Top
        0x00, 0x00, 0x00, 0x00, // Left
        0x00, 0x00, 0x00, 0x00, // Bottom
        0x00, 0x00, 0x00, 0x00, // Right
        0x00, 0x04, // Number of channels
        0xff, 0xff, // Alpha channel
        0x00, 0x00, 0x00, 0x02, // Alpha channel length
        0x00, 0x00, // Red channel
        0x00, 0x00, 0x00, 0x02, // Red channel length
        0x00, 0x01, // Green channel
        0x00, 0x00, 0x00, 0x02, // Green channel length
        0x00, 0x02, // Blue channel
        0x00, 0x00, 0x00, 0x02, // Blue channel length
        0x38, 0x42, 0x49, 0x4d, // Resource signature (8BIM)
        0x6e, 0x6f, 0x72, 0x6d, // Blend mode
        0xff, // Opacity
        0x00, // Clipping
        0x00, // Flags (visibility)
        0x00, // Filler
        0x00, 0x00, 0x00, 0x54, // Length of extra data
        0x00, 0x00, 0x00, 0x00, // Mask data
        0x00, 0x00, 0x00, 0x00, // Blending ranges
        0x0e, // Name length
        0x3c, 0x2f, 0x4c, 0x61, 0x79, 0x65, 0x72, 0x20, 0x67, 0x72, 0x6f, 0x75, 0x70, 0x3e,
        0x00, // Name "</Layer group>" plus padding
        0x38, 0x42, 0x49, 0x4d, 0x6c, 0x75, 0x6e, 0x69, 0x00, 0x00, 0x00, 0x20, 0x00, 0x00,
        0x00, 0x0e, 0x00, 0x3c, 0x00, 0x2f, 0x00, 0x4c, 0x00, 0x61, 0x00, 0x79, 0x00, 0x65,
        0x00, 0x72, 0x00, 0x20, 0x00, 0x67, 0x00, 0x72, 0x00, 0x6f, 0x00, 0x75, 0x00, 0x70,
        0x00, 0x3e, // Unicode name
        0x38, 0x42, 0x49, 0x4d, // Resource signature (8BIM)
        0x6c, 0x73, 0x63, 0x74, // Section divider key (lsct)
        0x00, 0x00, 0x00, 0x04, // Size of section divider
        0x00, 0x00, 0x00, 0x03, // Section divider type (end marker type)
    ]
}

#[test]
fn group_marker_record_data() {
    let expected_data = marker_record_bytes();

    let mut marker = Layer::group_marker().unwrap();
    let result = marker.record_data().unwrap();

    assert_eq!(result[0..=3], [0x00, 0x00, 0x00, 0x00]); // Top
    assert_eq!(result[4..=7], [0x00, 0x00, 0x00, 0x00]); // Left
    assert_eq!(result[8..=11], [0x00, 0x00, 0x00, 0x00]); // Bottom
    assert_eq!(result[12..=15], [0x00, 0x00, 0x00, 0x00]); // Right

    assert_eq!(result[16..=17], [0x00, 0x04]); // Number of channels

    assert_eq!(result[18..=19], [0xff, 0xff]); // Alpha channel
    assert_eq!(result[20..=23], [0x00, 0x00, 0x00, 0x02]); // Alpha channel length

    assert_eq!(result[24..=25], [0x00, 0x00]); // Red channel
    assert_eq!(result[26..=29], [0x00, 0x00, 0x00, 0x02]); // Red channel length

    assert_eq!(result, expected_data);
}

#[test]
fn group_records_are_marker_children_then_group() {
    let mut child = Layer::new(Rect::new(0, 0, 2, 2));
    child.image = Some(rgb(0x112233, 2, 2));
    child.name = Some("Child".to_string());
    let mut alone = Layer::new(Rect::new(0, 0, 2, 2));
    alone.image = Some(rgb(0x112233, 2, 2));
    alone.name = Some("Child".to_string());
    let child_record = alone.record_data().unwrap();

    let mut group = Layer::group(vec![child], true);
    group.name = Some("Group".to_string());
    let records = group.record_data().unwrap();

    let marker = marker_record_bytes();
    assert_eq!(records[..marker.len()], marker[..]);
    assert_eq!(records[marker.len()..marker.len() + child_record.len()], child_record[..]);
    let own = &records[marker.len() + child_record.len()..];
    // The group's own record: zero bounds, four empty channels, its name.
    assert_eq!(own[0..16], [0; 16]);
    assert_eq!(own[16..18], [0x00, 0x04]);
    assert_eq!(own[18..24], [0xff, 0xff, 0x00, 0x00, 0x00, 0x02]);
    assert_eq!(own[66..72], [0x05, b'G', b'r', b'o', b'u', b'p']);
    // Exactly one section divider: the marker's.
    let lsct = [0x6c, 0x73, 0x63, 0x74];
    let count = records.windows(4).filter(|w| *w == lsct).count();
    assert_eq!(count, 1);
}

#[test]
fn group_image_is_marker_children_then_group() {
    let mut child = Layer::new(Rect::new(0, 0, 2, 2));
    child.image = Some(rgb(0x112233, 2, 2));
    let mut alone = Layer::new(Rect::new(0, 0, 2, 2));
    alone.image = Some(rgb(0x112233, 2, 2));
    let child_image = alone.encoded_image().unwrap();

    let mut group = Layer::group(vec![child], false);
    let image = group.encoded_image().unwrap();
    let mut expected = vec![0; 8];
    expected.extend_from_slice(&child_image);
    expected.extend_from_slice(&[0; 8]);
    assert_eq!(image, expected);
    assert!(matches!(group.layer_type, LayerType::Group(_)));
}

#[test]
fn layer_without_image_gets_a_transparent_one() {
    let mut layer = Layer::new(Rect::new(1, 2, 3, 2));
    let image = layer.encoded_image().unwrap();
    let image_again = layer.encoded_image().unwrap();
    assert_eq!(image, image_again);
    let synthesized = layer.image.as_ref().unwrap();
    assert_eq!(synthesized.size, Size { width: 3, height: 2 });
    assert_eq!(synthesized.bytes_per_row, 12);
    assert_eq!(synthesized.data, vec![0; 24]);
    // Each channel: RLE, two rows of three zero bytes.
    let channel = [0x00, 0x01, 0x00, 0x02, 0x00, 0x02, 0xfe, 0x00, 0xfe, 0x00];
    let mut expected = Vec::new();
    for _ in 0..4 {
        expected.extend_from_slice(&channel);
    }
    assert_eq!(image, expected);
}

#[test]
fn layer_without_image_or_bounds_is_invalid() {
    let mut layer = Layer::new(Rect::zero());
    assert!(matches!(layer.encoded_image(), Err(WriteError::InvalidImage)));
    assert!(matches!(layer.record_data(), Err(WriteError::InvalidImage)));
}

#[test]
fn hidden_layer_sets_flag_and_blend_tag() {
    let mut layer = Layer::new(Rect::new(0, 0, 1, 1));
    layer.image = Some(rgb(0x000000, 1, 1));
    layer.is_hidden = true;
    layer.opacity = 0x80;
    layer.blend_mode = BlendMode::Multiply;
    let record = layer.record_data().unwrap();
    assert_eq!(record[46..50], *b"mul ");
    assert_eq!(record[50], 0x80);
    assert_eq!(record[52], 0x02);
}

#[test]
fn new_layer_defaults() {
    let layer = Layer::new(Rect::new(1, 2, 3, 4));
    assert_eq!(layer.bounds, Rect { top: 2, left: 1, bottom: 6, right: 4 });
    assert_eq!(layer.number_of_channels, 4);
    assert_eq!(layer.opacity, 255);
    assert_eq!(layer.blend_mode, BlendMode::Normal);
    assert!(!layer.is_hidden);
    assert!(layer.name.is_none());
}

#[test]
fn group_info_counts_its_layers() {
    let bounds = Rect::new(0, 0, 1, 1);
    let inner = Layer::group(vec![Layer::new(bounds)], true);
    let info = GroupInfo::new(vec![Layer::new(bounds), inner]);
    assert_eq!(info.layers().len(), 2);
    assert_eq!(info.number_of_layers(), 4);
}

#[test]
fn group_marker_channels_are_empty() {
    let marker = Layer::group_marker().unwrap();
    assert_eq!(marker.bounds, Rect::zero());
    assert_eq!(marker.channels.len(), 4);
    let types = [
        ColorChannelType::Alpha,
        ColorChannelType::Red,
        ColorChannelType::Green,
        ColorChannelType::Blue,
    ];
    for (channel, t) in marker.channels.iter().zip(types) {
        assert_eq!(channel.color_type, t);
        assert_eq!(channel.data_length, 0);
        assert!(channel.data.is_empty());
        assert!(channel.compressed_data.is_none());
    }
    assert_eq!(marker.name.as_deref(), Some("</Layer group>"));
}
