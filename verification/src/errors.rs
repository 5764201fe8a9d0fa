//! Failures of the arbitrage engine: missing market data at comparison time,
//! and a venue lookup miss used by the bot layer.

use vstd::prelude::*;
use vstd::string::StringExecFns;

verus! {

/// Why an arbitrage comparison could not be made.
#[derive(Clone, Copy, Debug, PartialEq, Eq, Structural)]
pub enum ArbitrageEngineError {
    BestBidError,
    BestAskError,
    OrderBookNotFound,
}

/// The diagnostic text of each engine error.
pub open spec fn engine_error_message(e: ArbitrageEngineError) -> Seq<char> {
    match e {
        ArbitrageEngineError::BestBidError => "Best bid not found"@,
        ArbitrageEngineError::BestAskError => "Best ask not found"@,
        ArbitrageEngineError::OrderBookNotFound => "Order book not found"@,
    }
}

impl ArbitrageEngineError {
    /// The error as a plain message string.
    pub fn message(&self) -> (r: String)
        ensures
            r@ == engine_error_message(*self),
    {
        match self {
            ArbitrageEngineError::BestBidError => String::from_str("Best bid not found"),
            ArbitrageEngineError::BestAskError => String::from_str("Best ask not found"),
            ArbitrageEngineError::OrderBookNotFound => String::from_str("Order book not found"),
        }
    }
}

} // verus!
