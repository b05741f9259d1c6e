//! Image compression methods and their codes.

use vstd::prelude::*;

verus! {

/// The image compression.
#[derive(Debug, Clone, Copy, PartialEq, Eq, Structural)]
pub enum ImageCompression {
    /// Raw data.
    RawData,
    /// RLE compression.
    Rle,
    /// ZIP without prediction.
    ZipWithoutPrediction,
    /// ZIP with prediction.
    ZipWithPrediction,
}

/// The code of a compression method, written before compressed data.
pub open spec fn compression_code(v: ImageCompression) -> i16 {
    match v {
        ImageCompression::RawData => 0i16,
        ImageCompression::Rle => 1i16,
        ImageCompression::ZipWithoutPrediction => 2i16,
        ImageCompression::ZipWithPrediction => 3i16,
    }
}

impl ImageCompression {
    /// Creates a new image compression from a raw value.
    pub fn from_value(value: i16) -> (r: Option<Self>)
        ensures
            r matches Some(v) ==> compression_code(v) == value,
            r is None ==> forall|v: ImageCompression| #[trigger] compression_code(v) != value,
    {
        match value {
            0 => Some(ImageCompression::RawData),
            1 => Some(ImageCompression::Rle),
            2 => Some(ImageCompression::ZipWithoutPrediction),
            3 => Some(ImageCompression::ZipWithPrediction),
            _ => None,
        }
    }

    /// Returns the raw value for the image compression.
    pub fn raw_value(&self) -> (r: i16)
        ensures
            r == compression_code(*self),
    {
        match self {
            ImageCompression::RawData => 0i16,
            ImageCompression::Rle => 1i16,
            ImageCompression::ZipWithoutPrediction => 2i16,
            ImageCompression::ZipWithPrediction => 3i16,
        }
    }
}

} // verus!
