//! Approximate Gaussian blur of raster images in constant time per pixel.
//!
//! A blur is two passes of sweeps, down the columns and then along the rows.
//! A sweep keeps running sums over a sliding window, so that its cost does not
//! grow with the radius: the first-order recurrence (`fast_gaussian`) holds a
//! double box sum, the second-order recurrence (`fast_gaussian_next`) a triple
//! one. What each blur returns is stated over whole numbers in `layout`, and
//! proved of the code; `theorems` holds what follows for every image.

pub mod edge;
pub mod fast_gaussian;
pub mod fast_gaussian_next;
pub mod gauss;
pub mod history;
pub mod kernel;
pub mod lane;
pub mod layout;
pub mod line;
pub mod pass;
pub mod reciprocal;
pub mod recurrence;
pub mod sample;
pub mod scheduler;
pub mod sweep;
pub mod theorems;
pub mod window;

pub use crate::edge::EdgeMode;
pub use crate::fast_gaussian::fast_gaussian;
pub use crate::fast_gaussian_next::{fast_gaussian_next, fast_gaussian_next_u16};
pub use crate::scheduler::{FastBlurChannels, ThreadingPolicy};
