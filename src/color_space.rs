//! Colour spaces of colour swatches and their codes.

use vstd::prelude::*;

verus! {

/// Colour spaces used in a Photoshop colour swatch.
#[derive(Debug, Clone, Copy, PartialEq, Eq, Structural)]
pub enum ColorSpace {
    /// The RGB colour space.
    Rgb,
    /// The HSB colour space.
    Hsb,
    /// The CMYK colour space.
    Cmyk,
    /// The Lab colour space.
    Lab,
    /// The greyscale colour space.
    Grayscale,
}

/// The code of a colour space.
pub open spec fn color_space_code(v: ColorSpace) -> i16 {
    match v {
        ColorSpace::Rgb => 0i16,
        ColorSpace::Hsb => 1i16,
        ColorSpace::Cmyk => 2i16,
        ColorSpace::Lab => 7i16,
        ColorSpace::Grayscale => 8i16,
    }
}

impl ColorSpace {
    /// Creates a new colour space from a raw value.
    pub fn from_value(value: i16) -> (r: Option<Self>)
        ensures
            r matches Some(v) ==> color_space_code(v) == value,
            r is None ==> forall|v: ColorSpace| #[trigger] color_space_code(v) != value,
    {
        match value {
            0 => Some(ColorSpace::Rgb),
            1 => Some(ColorSpace::Hsb),
            2 => Some(ColorSpace::Cmyk),
            7 => Some(ColorSpace::Lab),
            8 => Some(ColorSpace::Grayscale),
            _ => None,
        }
    }

    /// Returns the raw value for the colour space.
    pub fn color_mode(&self) -> (r: i16)
        ensures
            r == color_space_code(*self),
    {
        match self {
            ColorSpace::Rgb => 0i16,
            ColorSpace::Hsb => 1i16,
            ColorSpace::Cmyk => 2i16,
            ColorSpace::Lab => 7i16,
            ColorSpace::Grayscale => 8i16,
        }
    }
}

} // verus!
