//! Entropy and mutual-information estimation from finite samples.
//!
//! Sample values are fixed-point numbers: an `i64` counts thousandths of a
//! unit, so `1500` stands for 1.5. The library turns samples into histograms
//! and joint count tables; the logarithmic sums over them are left to callers.
use vstd::prelude::*;

pub mod stats;
pub mod error;
pub mod binning;
pub mod width;
pub mod joint;
pub mod estimate;
pub mod density;
pub mod mutual;
