use vstd::prelude::*;

verus! {

/// Every failure the exchange core can report. Each operation returns
/// success or exactly one of these; no operation leaves a partial mutation
/// behind on failure.
#[derive(Clone, Copy, Debug, PartialEq, Eq, Structural)]
pub enum AmmError {
    /// `create_pair` found a pool already registered for the unordered pair.
    PairExists,
    /// No pool is registered for the requested pair or pool id.
    PairNotFound,
    /// A token does not belong to the pool it was used against.
    InvalidToken,
    /// A liquidity deposit named a zero amount.
    InvalidAmount,
    /// A route has fewer than two tokens.
    InvalidPath,
    /// A withdrawal asked for more LP tokens than exist, or a swap hit a
    /// pool with no funds on its input or output side.
    InsufficientLiquidity,
    /// A quotient's divisor is zero.
    DivisionByZero,
    /// An intermediate value exceeds the widest integer carried here.
    ArithmeticOverflow,
    /// A route's final output fell below the caller's minimum.
    SlippageExceeded,
    /// A pool state or a recorded trade breaks the constant-product rules.
    InvariantViolation,
    /// A recorded trade's output differs from the fee formula's output.
    OutputMismatch,
}

} // verus!
