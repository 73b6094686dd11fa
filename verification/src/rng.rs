//! The one source of randomness: a uniform draw below a bound.

use vstd::prelude::*;

verus! {

/// Relies on rand::Rng::gen_range over the range `0..n`, which returns a
/// value of that range and panics only when the range is empty; the
/// precondition rules the empty range out. Nothing more is promised of a
/// random draw than its bound.
#[verifier::external_body]
pub fn random_below(n: usize) -> (r: usize)
    requires
        n > 0,
    ensures
        r < n,
{
    rand::Rng::gen_range(&mut rand::thread_rng(), 0..n)
}

} // verus!
