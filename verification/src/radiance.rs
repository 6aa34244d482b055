//! The control rule of the recursive radiance estimator.
//!
//! Per bounce the estimator returns the surface's emitted light, plus the
//! attenuated radiance of the scattered ray when the path continues. The
//! arithmetic on radiance samples lives with the sampling loop; the rule that
//! decides whether a path continues is fixed here.

use vstd::prelude::*;

verus! {

/// Paths are cut off after this many bounces; the truncation loses a little
/// energy near the cap instead of running forever.
pub const MAX_DEPTH: u16 = 50;

/// The estimator follows a scattered ray exactly when the material scattered
/// rather than absorbed, and the bounce depth is still below the cap.
pub fn path_continues(depth: u16, scattered: bool) -> (r: bool)
    ensures
        r == (scattered && depth < MAX_DEPTH),
{
    scattered && depth < MAX_DEPTH
}

} // verus!
