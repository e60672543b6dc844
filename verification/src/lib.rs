//! Keyframe animation tracks: time-driven evaluation of scalar and boolean
//! properties over ordered keyframe lists, with exact fixed-point arithmetic
//! and a closed family of polynomial easing curves.

use vstd::prelude::*;

pub mod bool_track;
pub mod ease;
pub mod math;
pub mod track;

verus! {

/// Scalar values are fixed-point integers in caller-chosen units.
pub type Scalar = i64;

/// Largest magnitude a key's value or duration may have, so that the
/// interpolation arithmetic fits in 128-bit intermediates.
pub const MAX_MAG: i64 = 1_000_000;

} // verus!
