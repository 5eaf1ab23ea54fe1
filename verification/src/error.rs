//! Errors of the lending arithmetic and of the liquidation planner.

use vstd::prelude::*;

verus! {

/// Errors raised while valuing an obligation.
#[derive(Clone, Copy, Debug, PartialEq, Eq, Structural)]
pub enum LendingError {
    /// An intermediate value left the range of its fixed-point type, or a
    /// divisor was zero.
    MathOverflow,
    /// An obligation names a reserve or a price feed that is not known.
    InvalidAccountInput,
    /// A reserve's cumulative borrow rate is below the one the obligation
    /// last saw.
    NegativeInterestRate,
}

/// Errors raised while preparing a liquidation.
#[derive(Clone, Copy, Debug, PartialEq, Eq, Structural)]
pub enum LiquidationAndRedeemError {
    /// The repay or the withdraw reserve is missing from the market's
    /// configuration.
    ReservesAreNotIdentified,
}

impl LiquidationAndRedeemError {
    /// The message the error is shown with.
    pub fn message(&self) -> (r: &'static str)
        ensures
            r@ == "reserves are not identified"@,
    {
        "reserves are not identified"
    }
}

} // verus!
