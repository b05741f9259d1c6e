//! The two encodings of a layer's name.

pub mod pascal;
pub mod unicode;
