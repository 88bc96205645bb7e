//! The engine's source of randomness.

use vstd::prelude::*;

verus! {

/// Relies on `rand::random_range` over `0..n` (thread-local generator): the
/// result is uniformly drawn from that range, so it is strictly below `n`.
/// The range must be non-empty, or the call would panic.
#[verifier::external_body]
pub(crate) fn rand_below(n: usize) -> (r: usize)
    requires
        n >= 1,
    ensures
        r < n,
{
    rand::random_range(0..n)
}

/// A fair coin flip.
pub(crate) fn rand_flip() -> (r: bool) {
    rand_below(2) == 0
}

} // verus!
