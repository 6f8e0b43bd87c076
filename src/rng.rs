//! The injected pseudo-random generator that every generation step draws from.

use vstd::prelude::*;

verus! {

/// rand's seedable `StdRng`, carried opaquely through every generation step.
#[verifier::external_type_specification]
#[verifier::external_body]
pub struct ExStdRng(rand::rngs::StdRng);

/// Relies on `rand::Rng::gen_range` over `0..n`: a value in the half-open
/// range, panicking only on an empty range (excluded by `requires`).
#[verifier::external_body]
pub(crate) fn gen_index(rng: &mut rand::rngs::StdRng, n: usize) -> (r: usize)
    requires
        n > 0,
    ensures
        r < n,
{
    rand::Rng::gen_range(rng, 0..n)
}

} // verus!
