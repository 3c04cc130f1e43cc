//! Integer core of a small path tracer: the plain-text image format that
//! holds a rendered frame, the order in which pixels are visited, and the
//! decisions that end or continue a light path.

pub mod ppm;
pub mod path;
pub mod raster;
