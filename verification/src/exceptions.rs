//! The recoverable failures the library reports.  Every condition below is a
//! typed value error; no input makes the library panic.
use vstd::prelude::*;

verus! {

/// Failures of order-book mutation and inspection.
#[derive(Debug, Clone, Copy, PartialEq, Eq, PartialOrd, Ord, Structural)]
pub enum OrderBookException {
    /// The order matches neither side's currency orientation.
    InvalidOrder,
    /// A spread or liquidity question was asked of an empty side.
    EmptySide,
    /// A mutual-exclusion gate was poisoned or unavailable.
    LockUnavailable,
    /// A flip or spread was asked of a zero rate.
    DivideByZero,
    /// A fee or quantity product left the representable decimal range.
    Overflow,
}

/// Failures of pairing two order books into a swap trade.
#[derive(Debug, Clone, Copy, PartialEq, Eq, Structural)]
pub enum SwapArbitrageException {
    /// The two order books cannot be aligned for the trading currency.
    InvalidOrderBookCombo,
    /// An aligned combination needs a best order from an empty side.
    EmptySide,
    /// A leg had to be flipped but its rate is exactly zero.
    DivideByZero,
    /// A fee or quantity product left the representable decimal range.
    Overflow,
}

} // verus!
