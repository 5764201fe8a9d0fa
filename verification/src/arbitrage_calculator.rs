//! The simplest, unconditional profit comparison: two optional quotes in,
//! an optional positive spread out, with no threshold applied.

use vstd::prelude::*;

verus! {

/// Stateless two-quote profit comparator.
pub struct ArbitrageCalculator;

/// The profit of buying at `best_ask` and selling at `best_bid`: the
/// difference whenever both quotes are present and the bid is strictly
/// higher, absent otherwise. Every positive spread, however small, counts.
pub open spec fn spec_calculate_arbitrage(best_bid: Option<i64>, best_ask: Option<i64>) -> Option<
    i64,
> {
    match (best_bid, best_ask) {
        (Some(bid), Some(ask)) => if bid > ask {
            Some((bid - ask) as i64)
        } else {
            None
        },
        _ => None,
    }
}

impl ArbitrageCalculator {
    /// Compares a best bid and a best ask; reports the raw profit `bid - ask`
    /// when it is strictly positive, and nothing when it is not or when
    /// either quote is missing.
    pub fn calculate_arbitrage(best_bid: Option<i64>, best_ask: Option<i64>) -> (r: Option<i64>)
        requires
            best_bid matches Some(bid) ==> bid >= 0,
            best_ask matches Some(ask) ==> ask >= 0,
        ensures
            r == spec_calculate_arbitrage(best_bid, best_ask),
    {
        match (best_bid, best_ask) {
            (Some(bid), Some(ask)) => {
                if bid > ask {
                    Some(bid - ask)
                } else {
                    None
                }
            },
            _ => None,
        }
    }
}

} // verus!
