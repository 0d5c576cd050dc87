//! 3MF packages: model XML, build items, Bambu Studio colour metadata, the resolution of
//! build items into placed meshes, and writing a minimal package.
//!
//! Numbers that 3MF writes as decimal floats (vertex coordinates, transform matrices) are
//! kept as their literal text; the library decides which texts are numbers and the caller
//! converts them. Colours are kept as sRGB bytes; conversion to linear space is left to the
//! caller too.
pub mod attrs;
pub mod colors;
pub mod model;
pub mod meta;
pub mod package;
pub mod write;
