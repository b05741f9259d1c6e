//! Writes Photoshop documents (PSD, version 1) from an in-memory description
//! of a document and its layers.
//!
//! The core is a PackBits run-length encoder (`rle`), colour channels that
//! compress themselves row by row (`color_channel`), the whole-image encoder
//! (`image`), layers and groups (`layer`), and the document serializer
//! (`document`).

pub mod blend_mode;
pub mod channel_type;
pub mod color_channel;
pub mod color_mode;
pub mod color_space;
pub mod data;
pub mod document;
pub mod error;
pub mod file_stream;
pub mod image;
pub mod image_compression;
pub mod layer;
pub mod layer_container;
pub mod rle;
pub mod string;

pub use blend_mode::BlendMode;
pub use channel_type::ColorChannelType;
pub use color_channel::{ColorChannel, CompressedDataResult, RleComponents};
pub use color_mode::ColorMode;
pub use color_space::ColorSpace;
pub use document::Document;
pub use error::WriteError;
pub use image::{psd_data, Image, Size};
pub use image_compression::ImageCompression;
pub use layer::{DividerType, GroupInfo, Layer, LayerType, Rect};
pub use layer_container::LayerContainer;
