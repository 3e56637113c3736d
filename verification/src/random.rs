use vstd::prelude::*;

verus! {

/// One uniform draw from `0..upper`, made with `rand::distr::Uniform::new(0, upper)`
/// sampled from the thread-local generator `rand::rng()` of the `rand` crate.
/// `Uniform::new` fails only when `0 >= upper`, and for integers its samples
/// are always strictly below `upper`: that bound is all this claims. Which
/// index comes out is left to chance and is not stated.
#[verifier::external_body]
pub(crate) fn uniform_index(upper: usize) -> (index: usize)
    requires
        upper > 0,
    ensures
        index < upper,
{
    let distribution = rand::distr::Uniform::new(0, upper).unwrap();
    rand::distr::Distribution::sample(&distribution, &mut rand::rng())
}

} // verus!
