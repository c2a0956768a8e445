//! Frame-translation and ephemeris-interpolation engine.
//!
//! The library parses self-describing binary ephemeris records, indexes the
//! resulting segments by body hash, and finds translation paths between
//! reference frames through their parent-hash links.  Identity is always a
//! fixed-width hash, never a string comparison.  Floating-point evaluation of
//! the interpolation payload is left to the caller; the library hands out the
//! exact coefficients, windows and unit scale factors that such an evaluation
//! needs.
use vstd::prelude::*;

pub mod hashing;
pub mod errors;
pub mod frames;
pub mod epoch;
pub mod records;
pub mod bytes;
pub mod codec;
pub mod store;
pub mod coverage;
pub mod graph;

verus! {

/// Fixed-width hash used for every body and orientation identity.
pub type HashType = u32;

} // verus!
