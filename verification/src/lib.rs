//! Integer core of a signed-distance-field renderer: exact colour arithmetic,
//! the fixed-capacity RGBA framebuffer and the rendering boundary.

pub mod colorspace;
pub mod frame;
pub mod ratio;
