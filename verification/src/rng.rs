use rand::RngExt;
use vstd::prelude::*;

verus! {

/// Relies on rand::rng and rand::RngExt::random_range: a value drawn
/// uniformly from the given range. The range 1..=100 is non-empty, so the
/// call does not panic, and every value it can return lies in [1, 100].
#[verifier::external_body]
pub(crate) fn random_secret() -> (secret: u32)
    ensures
        1 <= secret <= 100,
{
    rand::rng().random_range(1u32..=100u32)
}

} // verus!
