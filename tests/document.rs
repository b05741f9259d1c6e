use psd::{ColorMode, Document, Image, Layer, LayerContainer, Rect, Size};

/// An image of one colour, four bytes per pixel.
fn solid(rgba: [u8; 4], width: u32, height: u32) -> Image {
    let mut data = Vec::new();
    for _ in 0..width * height {
        data.extend_from_slice(&rgba);
    }
    Image { size: Size { width, height }, bytes_per_row: 4 * width, data }
}

fn be32(bytes: &[u8]) -> usize {
    ((bytes[0] as usize) << 24) | ((bytes[1] as usize) << 16) | ((bytes[2] as usize) << 8) | bytes[3] as usize
}

#[test]
fn document_header() {
    let mut document = Document::new();
    document.size = Size { width: 32, height: 16 };
    let data = document.file_data().unwrap();
    assert_eq!(
        data[0..30],
        [
            0x38, 0x42, 0x50, 0x53, 0x00, 0x01, 0x00, 0x00, 0x00, 0x00, 0x00, 0x00, 0x00, 0x04,
            0x00, 0x00, 0x00, 0x10, 0x00, 0x00, 0x00, 0x20, 0x00, 0x08, 0x00, 0x03, 0x00, 0x00,
            0x00, 0x00
        ]
    );
}

#[test]
fn new_document_defaults() {
    let document = Document::new();
    assert_eq!(document.number_of_channels, 4);
    assert_eq!(document.size, Size { width: 0, height: 0 });
    assert_eq!(document.color_mode, ColorMode::Bitmap);
    assert!(document.preview_image.is_none());
    assert!(document.layers.is_empty());
}

#[test]
fn empty_document_layout() {
    let mut document = Document::new();
    document.size = Size { width: 1, height: 1 };
    let data = document.file_data().unwrap();
    // Image resources: resolution (28 bytes), layer state (14), group ids (12).
    assert_eq!(be32(&data[30..34]), 54);
    assert_eq!(data[34..38], [0x38, 0x42, 0x49, 0x4d]);
    assert_eq!(data[38..40], [0x03, 0xED]);
    let layer_and_mask = &data[34 + 54..];
    // The layer info: its length, a zero count, no padding; then an empty global mask.
    assert_eq!(layer_and_mask, [0, 0, 0, 10, 0, 0, 0, 2, 0, 0, 0, 0, 0, 0]);
}

fn two_layer_document() -> Document {
    let image = solid([0x00, 0xff, 0xff, 0xff], 2, 2);
    let mut document = Document::new();
    document.size = image.size;
    let bounds = Rect::new(0, 0, 2, 2);
    let mut layer_0 = Layer::new(bounds);
    layer_0.name = Some("Background".to_string());
    layer_0.image = Some(solid([0x00, 0xff, 0xff, 0xff], 2, 2));
    let mut layer_1 = Layer::new(bounds);
    layer_1.name = Some("Empty".to_string());
    document.layers = vec![layer_0, layer_1];
    document.preview_image = Some(image);
    document
}

#[test]
fn file_data_is_deterministic() {
    let document = two_layer_document();
    let first = document.file_data().unwrap();
    let second = document.file_data().unwrap();
    assert_eq!(first, second);
    assert_eq!(document.number_of_layers(), 2);
}

#[test]
fn file_data_sections() {
    let document = two_layer_document();
    let data = document.file_data().unwrap();
    let resources_length = be32(&data[30..34]);
    // Two layers: two bytes of group identifier each.
    assert_eq!(resources_length, 54 + 4);
    let mut layer_and_mask = 34 + resources_length;
    let section_length = be32(&data[layer_and_mask..layer_and_mask + 4]);
    layer_and_mask += 4;
    let info_length = be32(&data[layer_and_mask..layer_and_mask + 4]);
    assert_eq!(section_length, info_length + 8);
    assert_eq!(info_length % 2, 0);
    // Negated layer count.
    assert_eq!(data[layer_and_mask + 4..layer_and_mask + 6], [0xff, 0xfe]);
    // The first record's bounds.
    assert_eq!(data[layer_and_mask + 6..layer_and_mask + 22], [0, 0, 0, 0, 0, 0, 0, 0, 0, 0, 0, 2, 0, 0, 0, 2]);
    // The preview image closes the file, compressed with RLE.
    let preview = &data[layer_and_mask + 4 + info_length + 4..];
    assert_eq!(preview[0..2], [0x00, 0x01]);
    assert_eq!(preview.len(), 2 + 16 + 4 * 6);
}

#[test]
fn group_counts_twice() {
    let bounds = Rect::new(0, 0, 2, 2);
    let mut a = Layer::new(bounds);
    a.image = Some(solid([1, 2, 3, 4], 2, 2));
    let mut b = Layer::new(bounds);
    b.image = Some(solid([5, 6, 7, 8], 2, 2));
    let inner = Layer::group(vec![b], false);
    let group = Layer::group(vec![a, inner], true);
    let mut document = Document::new();
    document.size = Size { width: 2, height: 2 };
    document.layers = vec![group];
    // Two image layers and two groups.
    assert_eq!(document.number_of_layers(), 6);
    let data = document.file_data().unwrap();
    let resources_length = be32(&data[30..34]);
    assert_eq!(resources_length, 54 + 12);
    let info = 34 + resources_length + 8;
    assert_eq!(data[info..info + 2], [0xff, 0xfa]);
}

#[test]
fn zero_bounds_take_the_document_extent() {
    let mut layer = Layer::new(Rect::zero());
    layer.image = Some(solid([9, 9, 9, 9], 3, 2));
    let mut document = Document::new();
    document.size = Size { width: 3, height: 2 };
    document.layers = vec![layer];
    let data = document.file_data().unwrap();
    let resources_length = be32(&data[30..34]);
    let record = 34 + resources_length + 8 + 2;
    assert_eq!(data[record..record + 16], [0, 0, 0, 0, 0, 0, 0, 0, 0, 0, 0, 2, 0, 0, 0, 3]);
}
