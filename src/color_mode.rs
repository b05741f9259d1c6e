//! Colour modes and their codes.

use vstd::prelude::*;

verus! {

/// Colour modes used in a Photoshop document.
#[derive(Debug, Clone, Copy, PartialEq, Eq, Structural)]
pub enum ColorMode {
    /// The bitmap colour mode.
    Bitmap,
    /// The grayscale colour mode.
    Grayscale,
    /// The indexed colour mode.
    Indexed,
    /// The RGB colour mode.
    Rgb,
    /// The CMYK colour mode.
    Cmyk,
    /// The multichannel colour mode.
    Multichannel,
    /// The duotone colour mode.
    Duotone,
    /// The Lab colour mode.
    Lab,
}

/// The code of a colour mode in a file header.
pub open spec fn color_mode_code(v: ColorMode) -> i16 {
    match v {
        ColorMode::Bitmap => 0i16,
        ColorMode::Grayscale => 1i16,
        ColorMode::Indexed => 2i16,
        ColorMode::Rgb => 3i16,
        ColorMode::Cmyk => 4i16,
        ColorMode::Multichannel => 7i16,
        ColorMode::Duotone => 8i16,
        ColorMode::Lab => 9i16,
    }
}

impl ColorMode {
    /// Creates a new colour mode from a raw value.
    pub fn from_value(value: i16) -> (r: Option<Self>)
        ensures
            r matches Some(v) ==> color_mode_code(v) == value,
            r is None ==> forall|v: ColorMode| #[trigger] color_mode_code(v) != value,
    {
        match value {
            0 => Some(ColorMode::Bitmap),
            1 => Some(ColorMode::Grayscale),
            2 => Some(ColorMode::Indexed),
            3 => Some(ColorMode::Rgb),
            4 => Some(ColorMode::Cmyk),
            7 => Some(ColorMode::Multichannel),
            8 => Some(ColorMode::Duotone),
            9 => Some(ColorMode::Lab),
            _ => None,
        }
    }

    /// Returns the raw value for the colour mode.
    pub fn raw_value(&self) -> (r: i16)
        ensures
            r == color_mode_code(*self),
    {
        match self {
            ColorMode::Bitmap => 0i16,
            ColorMode::Grayscale => 1i16,
            ColorMode::Indexed => 2i16,
            ColorMode::Rgb => 3i16,
            ColorMode::Cmyk => 4i16,
            ColorMode::Multichannel => 7i16,
            ColorMode::Duotone => 8i16,
            ColorMode::Lab => 9i16,
        }
    }
}

} // verus!
