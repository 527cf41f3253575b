//! Randomness for the shuffle, drawn from the `rand` crate.

use vstd::prelude::*;
use rand::Rng;

verus! {

/// Relies on `rand::Rng::gen_range` over the range `0..n`: it returns a
/// uniformly random index strictly below `n`, and panics only on an empty
/// range, which `n > 0` rules out.
#[verifier::external_body]
pub(crate) fn rand_below(n: usize) -> (r: usize)
    requires
        n > 0,
    ensures
        r < n,
{
    rand::thread_rng().gen_range(0..n)
}

} // verus!
