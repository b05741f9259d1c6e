//! The kinds of colour channel and their codes.

use vstd::prelude::*;

verus! {

/// The different types of colour channel.
#[derive(Debug, Clone, Copy, PartialEq, Eq, Structural)]
pub enum ColorChannelType {
    /// The red channel.
    Red,
    /// The green channel.
    Green,
    /// The blue channel.
    Blue,
    /// The alpha channel, or 'transparency mask'.
    Alpha,
    /// The user supplied layer mask.
    UserSuppliedLayerMask,
    /// The real user supplied layer mask (when both a user mask and a vector mask are present).
    RealUserSuppliedLayerMask,
    /// A channel type that is not documented.
    Unknown,
}

/// The code of a channel type in a layer record.
pub open spec fn channel_type_code(v: ColorChannelType) -> i16 {
    match v {
        ColorChannelType::Red => 0i16,
        ColorChannelType::Green => 1i16,
        ColorChannelType::Blue => 2i16,
        ColorChannelType::Alpha => -1i16,
        ColorChannelType::UserSuppliedLayerMask => -2i16,
        ColorChannelType::RealUserSuppliedLayerMask => -3i16,
        ColorChannelType::Unknown => 9999i16,
    }
}

impl ColorChannelType {
    /// Creates a new color channel type from a raw value.
    pub fn from_value(value: i16) -> (r: Option<Self>)
        ensures
            r matches Some(v) ==> channel_type_code(v) == value,
            r is None ==> forall|v: ColorChannelType| #[trigger] channel_type_code(v) != value,
    {
        match value {
            0 => Some(ColorChannelType::Red),
            1 => Some(ColorChannelType::Green),
            2 => Some(ColorChannelType::Blue),
            -1 => Some(ColorChannelType::Alpha),
            -2 => Some(ColorChannelType::UserSuppliedLayerMask),
            -3 => Some(ColorChannelType::RealUserSuppliedLayerMask),
            9999 => Some(ColorChannelType::Unknown),
            _ => None,
        }
    }

    /// Returns the raw value for the colour channel type.
    pub fn raw_value(&self) -> (r: i16)
        ensures
            r == channel_type_code(*self),
    {
        match self {
            ColorChannelType::Red => 0i16,
            ColorChannelType::Green => 1i16,
            ColorChannelType::Blue => 2i16,
            ColorChannelType::Alpha => -1i16,
            ColorChannelType::UserSuppliedLayerMask => -2i16,
            ColorChannelType::RealUserSuppliedLayerMask => -3i16,
            ColorChannelType::Unknown => 9999i16,
        }
    }
}

} // verus!
