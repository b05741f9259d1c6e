use psd::{BlendMode, ColorChannelType, ColorMode, ColorSpace, DividerType, ImageCompression, WriteError};

#[test]
fn blend_mode_tags() {
    assert_eq!(BlendMode::Normal.as_str(), "norm");
    assert_eq!(BlendMode::Multiply.as_str(), "mul ");
    assert_eq!(BlendMode::Luminosity.as_str(), "lum ");
    assert_eq!(BlendMode::PassThrough.tag_bytes(), b"pass".to_vec());
    assert_eq!(BlendMode::from_tag(b"div "), BlendMode::ColorDodge);
    assert_eq!(BlendMode::from_tag(b"hMix"), BlendMode::HardMix);
    assert_eq!(BlendMode::from_tag(b"what"), BlendMode::Normal);
    assert_eq!(BlendMode::from_tag(b"no"), BlendMode::Normal);
}

#[test]
fn channel_type_codes() {
    assert_eq!(ColorChannelType::Alpha.raw_value(), -1);
    assert_eq!(ColorChannelType::Unknown.raw_value(), 9999);
    assert_eq!(ColorChannelType::from_value(-3), Some(ColorChannelType::RealUserSuppliedLayerMask));
    assert_eq!(ColorChannelType::from_value(3), None);
}

#[test]
fn color_mode_codes() {
    assert_eq!(ColorMode::Rgb.raw_value(), 3);
    assert_eq!(ColorMode::from_value(9), Some(ColorMode::Lab));
    assert_eq!(ColorMode::from_value(5), None);
}

#[test]
fn color_space_codes() {
    assert_eq!(ColorSpace::Lab.color_mode(), 7);
    assert!(matches!(ColorSpace::from_value(8), Some(ColorSpace::Grayscale)));
    assert!(ColorSpace::from_value(3).is_none());
}

#[test]
fn compression_codes() {
    assert_eq!(ImageCompression::Rle.raw_value(), 1);
    assert_eq!(ImageCompression::from_value(3), Some(ImageCompression::ZipWithPrediction));
    assert_eq!(ImageCompression::from_value(4), None);
}

#[test]
fn divider_codes() {
    assert_eq!(DividerType::SectionDivider.raw_value(), 3);
    assert_eq!(DividerType::OpenFolder.raw_value(), 1);
}

#[test]
fn error_messages() {
    assert_eq!(WriteError::InvalidImage.message(), "The image is invalid.");
}
