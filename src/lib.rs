//! Integer core of a Monte Carlo path tracer: the image buffer that finished
//! pixels are placed into, the plain-text PPM encoding of that buffer, the
//! presentation side of the pixel stream, and the recursion budget of the
//! integrator.
pub mod display;
pub mod image;
pub mod path;
pub mod ppm;

use vstd::prelude::*;

verus! {

} // verus!
