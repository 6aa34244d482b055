//! The single entry point to the process random number generator. Everything
//! the library derives from randomness (shuffles, the bounding-hierarchy split
//! axis) is verified for every value this draw can return.

use vstd::prelude::*;
use rand::Rng;

verus! {

/// Relies on rand::Rng::gen_range over the range 0..n: it returns a value of
/// that range, and panics only on an empty range, which n >= 1 rules out.
/// Nothing is assumed about which value comes back.
#[verifier::external_body]
pub(crate) fn rand_below(n: usize) -> (r: usize)
    requires
        n >= 1,
    ensures
        r < n,
{
    rand::thread_rng().gen_range(0..n)
}

} // verus!
