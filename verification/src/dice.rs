//! Random draws: whole numbers from the process-wide generator, and yes or no
//! from whoever can weigh a probability.

use vstd::prelude::*;

verus! {

/// A source of yes and no. Nothing is promised of the answers.
pub trait Chance {
    /// Yes with a probability of `percent` in a hundred.
    fn chance(&self, percent: u8) -> bool;
}

/// A draw of `fastrand::u8` over the closed range from `low` to `high`.
///
/// Taken on trust, not proved: the draw lies in the range. Which value comes
/// is left open. The range must not be empty, or the draw would panic.
#[verifier::external_body]
pub(crate) fn random_u8(low: u8, high: u8) -> (drawn: u8)
    requires
        low <= high,
    ensures
        low <= drawn <= high,
{
    fastrand::u8(low..=high)
}

/// A draw of `fastrand::usize` over the closed range from `low` to `high`.
///
/// Taken on trust, not proved: the draw lies in the range. Which value comes
/// is left open. The range must not be empty, or the draw would panic.
#[verifier::external_body]
pub(crate) fn random_usize(low: usize, high: usize) -> (drawn: usize)
    requires
        low <= high,
    ensures
        low <= drawn <= high,
{
    fastrand::usize(low..=high)
}

/// A draw of `fastrand::bool`: either value, and nothing is claimed of it.
#[verifier::external_body]
pub(crate) fn random_bool() -> bool {
    fastrand::bool()
}

} // verus!
