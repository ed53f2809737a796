//! Identifies an unknown image as one of a catalogued set of levels.
//!
//! An image is reduced to a compact frequency-domain fingerprint; a
//! weighted nearest-neighbour scan over a persisted, difficulty-partitioned
//! catalogue yields the closest known level.  A per-channel round state
//! machine tracks an in-flight guessing round so that a guess can be revised
//! or invalidated if the underlying image changes before resolution.
//!
//! Fingerprint coefficients are carried as the bit patterns of 32-bit IEEE
//! floats.  The persisted format and every catalogue operation are exact on
//! those bit patterns; the floating-point arithmetic itself (the cosine
//! transform and the distance evaluation) lives outside this crate and hands
//! results in as plain integers.

use vstd::prelude::*;

pub mod codec;
pub mod database;
pub mod difficulty;
pub mod fingerprint;
pub mod level;
pub mod matcher;
pub mod rounds;
pub mod text;
pub mod web;

verus! {

/// Side length of the square grid an image is normalised to before the
/// transform.
pub const IMAGE_DIM: usize = 128;

/// Number of transform coefficients kept per colour channel.
pub const NUM_COEFFICIENTS: usize = 10;

/// The input buffer could not be decoded as an image.
#[derive(Debug, Copy, Clone, PartialEq, Eq, Structural)]
pub enum DecodeError {
    Undecodable,
}

/// A persisted partition file could not be parsed.
#[derive(Debug, Copy, Clone, PartialEq, Eq, Structural)]
pub enum LoadError {
    Truncated,
}

/// An administrative catalogue operation named an absent record.
#[derive(Debug, Copy, Clone, PartialEq, Eq, Structural)]
pub enum DbError {
    NotFound,
}

/// The transform handed back fewer coefficients than a fingerprint needs.
#[derive(Debug, Copy, Clone, PartialEq, Eq, Structural)]
pub enum ExtractError {
    TransformLengthMismatch,
}

} // verus!
