//! The engine's single source of randomness: a uniformly drawn index
//! below a given bound, used to pick encryptors, shuffle codes, and
//! shuffle keyword lists.

use vstd::prelude::*;

verus! {

/// Relies on rand::random_range with the range `0..n`: the result is a
/// uniformly drawn value of that range, so it is strictly below `n`; the
/// call panics only on an empty range, which `n > 0` rules out.
#[verifier::external_body]
pub(crate) fn rand_index(n: usize) -> (r: usize)
    requires
        n > 0,
    ensures
        r < n,
{
    rand::random_range(0..n)
}

} // verus!
