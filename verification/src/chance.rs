//! Random numbers.
//!
//! The functions here are the only source of chance in the crate. Nothing is
//! known of a result beyond the range it lies in.

use vstd::prelude::*;

verus! {

/// Calls `rand::random_ratio`: a draw that is `true` with chance
/// `numerator / denominator`. The contract claims only what holds of every draw:
/// an impossible event never happens and a certain one always does. The outside
/// function panics on a fraction above one and on a zero denominator.
#[verifier::external_body]
pub(crate) fn random_ratio(numerator: u32, denominator: u32) -> (hit: bool)
    requires
        0 < denominator,
        numerator <= denominator,
    ensures
        numerator == 0 ==> !hit,
        numerator == denominator ==> hit,
{
    rand::random_ratio(numerator, denominator)
}

/// Calls `rand::random_range` on `0..end`. The contract claims that the number
/// drawn lies in that range. The outside function panics on an empty range.
#[verifier::external_body]
pub(crate) fn random_below(end: usize) -> (drawn: usize)
    requires
        0 < end,
    ensures
        drawn < end,
{
    rand::random_range(0..end)
}

} // verus!
