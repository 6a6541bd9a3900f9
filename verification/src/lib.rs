//! Draw-order maintenance and text rasterization for a UI layer.
//!
//! The crate keeps a depth-sorted list of visible UI elements up to
//! date across frames, decides when a text element's cached texture
//! is stale and must be rasterized again, fills the pixel buffer for
//! such an element, and walks the ordered list to emit one draw
//! operation per visible layer. Asset resolution and the render
//! backend are outside collaborators: the library receives their
//! answers as plain values and hands draw commands back.

pub mod transform;
pub mod text;
pub mod raster;
pub mod order;
pub mod emit;
