use vstd::prelude::*;
use rand::Rng;

verus! {

/// Draws an integer from `low` up to but not including `high`, with the
/// thread-local generator of `rand` (`Rng::gen_range`, which panics when
/// `low >= high`). The contract states only the range its documentation
/// promises; which value comes out is left to chance.
#[verifier::external_body]
pub(crate) fn random_range(low: i32, high: i32) -> (r: i32)
    requires
        low < high,
    ensures
        low <= r < high,
{
    rand::thread_rng().gen_range(low, high)
}

/// Draws `true` with probability `numerator / denominator`, with the
/// thread-local generator of `rand` (`Rng::gen_ratio`, which panics when the
/// denominator is zero or below the numerator). The contract states what its
/// documentation guarantees: a zero numerator always gives `false`, a
/// numerator equal to the denominator always gives `true`; otherwise the
/// outcome is left to chance.
#[verifier::external_body]
pub(crate) fn random_ratio(numerator: u32, denominator: u32) -> (r: bool)
    requires
        0 < denominator,
        numerator <= denominator,
    ensures
        numerator == 0 ==> !r,
        numerator == denominator ==> r,
{
    rand::thread_rng().gen_ratio(numerator, denominator)
}

/// Draws a fair coin with `rand::random::<bool>`. Nothing is promised of the
/// outcome: it is left to chance.
#[verifier::external_body]
pub(crate) fn random_bool() -> bool {
    rand::random::<bool>()
}

} // verus!
