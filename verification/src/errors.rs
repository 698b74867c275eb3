//! The explicit failure values of the core.

use vstd::prelude::*;

verus! {

/// Every failure of the core, as an explicit value; nothing is silently
/// coerced to a default.
#[derive(Debug)]
pub enum AmmError {
    /// A pair was built from two identical token addresses.
    IdenticalTokens,
    /// The lower token of a sorted pair is the zero address.
    ZeroToken,
    /// A trade path holds fewer than two tokens.
    InvalidPath,
    /// A quote was requested for a zero amount.
    InsufficientAmount,
    /// A swap output was requested for a zero input amount.
    InsufficientInputAmount,
    /// A swap input was requested for a zero output amount.
    InsufficientOutputAmount,
    /// A reserve of the pool is zero, or the requested output meets or
    /// exceeds the available reserve.
    InsufficientLiquidity,
    /// An intermediate product exceeds the 256-bit domain, or a result does
    /// not fit the 128-bit amount type.
    Overflow,
    /// A remote read failed; carries the transport diagnostic opaquely.
    LedgerQueryFailed(String),
}

} // verus!
