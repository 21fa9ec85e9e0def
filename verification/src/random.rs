//! The random draws that mine placement makes.

use vstd::prelude::*;

verus! {

/// A number drawn from `0..bound` by `fastrand::usize(0..bound)`, which uses
/// the thread-local generator of `fastrand`. That function panics on an empty
/// range, which `requires` rules out; of its result only the range is claimed,
/// since the value depends on the generator's state.
#[verifier::external_body]
pub(crate) fn random_below(bound: usize) -> (r: usize)
    requires
        bound > 0,
    ensures
        r < bound,
{
    fastrand::usize(0..bound)
}

} // verus!
