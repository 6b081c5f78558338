//! Dispatch and lane planning for averaging a buffer of single-precision
//! samples.
//!
//! The library decides which reduction strategy runs on the current
//! processor, and derives every index range that a lane-wise reduction reads
//! from the buffer's own length, so that no group or tail can reach past the
//! end of the buffer or overlap another.
use vstd::prelude::*;

pub mod dispatch;
pub mod lanes;
pub mod reduction;

verus! {

} // verus!
