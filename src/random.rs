//! The random source: uniform draws from rand's thread-local generator.
use rand::Rng;
use vstd::prelude::*;

verus! {

/// Relies on rand's `Rng::random_range` over `low..high` on the thread-local
/// generator: a value in the half-open range, which must not be empty.
#[verifier::external_body]
pub(crate) fn random_below(high: i128) -> (r: i128)
    requires
        0 < high,
    ensures
        0 <= r < high,
{
    rand::rng().random_range(0..high)
}

/// Relies on rand's `Rng::random_range` over `0..len` on the thread-local
/// generator: an index below `len`, which must not be zero.
#[verifier::external_body]
pub(crate) fn random_index(len: usize) -> (r: usize)
    requires
        0 < len,
    ensures
        r < len,
{
    rand::rng().random_range(0..len)
}

/// Relies on rand's `Rng::random_range` over `low..=high` on the thread-local
/// generator: a value in the closed range, which must not be empty.
#[verifier::external_body]
pub(crate) fn random_between(low: i32, high: i32) -> (r: i32)
    requires
        low <= high,
    ensures
        low <= r <= high,
{
    rand::rng().random_range(low..=high)
}

} // verus!
