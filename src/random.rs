use rand::rngs::StdRng;
use rand::{Rng, SeedableRng};
use vstd::prelude::*;

verus! {

#[verifier::external_type_specification]
#[verifier::external_body]
pub struct ExStdRng(rand::rngs::StdRng);

/// Relies on rand::SeedableRng::seed_from_u64 for a generator fixed by `seed`.
#[verifier::external_body]
pub(crate) fn rng_from_seed(seed: u64) -> (r: StdRng) {
    StdRng::seed_from_u64(seed)
}

/// Relies on rand::SeedableRng::from_entropy for a generator seeded by the system.
#[verifier::external_body]
pub(crate) fn rng_from_entropy() -> (r: StdRng) {
    StdRng::from_entropy()
}

/// Relies on rand::Rng::gen_range, which on an inclusive range returns a value
/// inside it and panics only when the range is empty.
#[verifier::external_body]
pub(crate) fn random_in(rng: &mut StdRng, lo: i64, hi: i64) -> (r: i64)
    requires
        lo <= hi,
    ensures
        lo <= r <= hi,
{
    rng.gen_range(lo..=hi)
}

} // verus!
