use vstd::prelude::*;
use rand::Rng;

verus! {

/// rand's `thread_rng().gen_range(0..n)`: a number drawn at random below `n`. Which number
/// comes out is chance; only that it lies below `n` is stated. `gen_range` panics on an
/// empty range, so `n` must not be zero.
#[verifier::external_body]
pub(crate) fn random_below(n: usize) -> (r: usize)
    requires
        n > 0,
    ensures
        r < n,
{
    rand::thread_rng().gen_range(0..n)
}

} // verus!
