//! The library's single source of randomness.

use vstd::prelude::*;

verus! {

/// Relies on rand::random_range with the thread-local generator: drawing
/// from `0..n` yields a value below `n`. The call panics on an empty range,
/// which `n >= 1` rules out; the thread-local generator can also abort if
/// the operating system's entropy source fails when it first seeds or
/// reseeds, an environmental failure no input avoids. Nothing more is
/// claimed of the draw: callers state what holds of every outcome.
#[verifier::external_body]
pub(crate) fn rand_below(n: u64) -> (r: u64)
    requires
        1 <= n,
    ensures
        r < n,
{
    rand::random_range(0..n)
}

} // verus!
