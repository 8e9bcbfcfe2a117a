//! Integer core of a multi-threaded path tracer: how the image rows are split
//! among render workers, where each worker's pixels land in the shared image,
//! how that image is written as plain-text pixels, and the control decisions of
//! the bounce-by-bounce light-transport loop.

pub mod bands;
pub mod image;
pub mod ppm;
pub mod trace;
