//! Multi-venue opportunity scan: given an instantaneous venue-to-price
//! snapshot, find the single best buy-low/sell-high venue pair whose profit
//! exceeds a threshold.
//!
//! The snapshot is a sequence of `(venue, price)` quotes, and pairs are
//! examined in sequence order (buy venue outermost), so the tie-break among
//! equal profits is deterministic: the caller fixes it by fixing the order
//! of the snapshot, say sorted by venue name.

use vstd::prelude::*;

verus! {

/// A detected opportunity: buy at `buy_dex`, sell at `sell_dex`, for
/// `profit` ticks. Transient: only ever a return value of one scan.
#[derive(Debug, Clone)]
pub struct ArbitrageOpportunity {
    pub buy_dex: String,
    pub sell_dex: String,
    pub profit: i64,
}

/// The profit of buying at index `buy` and selling at index `sell` of the
/// snapshot.
pub open spec fn scan_profit(ps: Seq<(String, i64)>, buy: int, sell: int) -> int {
    ps[sell].1 - ps[buy].1
}

/// The pair `(buy, sell)` is reportable: two differently named venues whose
/// profit is positive and exceeds the threshold.
pub open spec fn viable_pair(ps: Seq<(String, i64)>, threshold: i64, buy: int, sell: int) -> bool {
    &&& 0 <= buy < ps.len()
    &&& 0 <= sell < ps.len()
    &&& ps[buy].0@ != ps[sell].0@
    &&& scan_profit(ps, buy, sell) > threshold
    &&& scan_profit(ps, buy, sell) > 0
}

/// `o` records a viable pair of maximum profit, and among the viable pairs
/// of that profit it records the first in scan order.
pub open spec fn is_best_opportunity(
    ps: Seq<(String, i64)>,
    threshold: i64,
    o: ArbitrageOpportunity,
) -> bool {
    exists|buy: int, sell: int|
        {
            &&& #[trigger] viable_pair(ps, threshold, buy, sell)
            &&& o.buy_dex@ == ps[buy].0@
            &&& o.sell_dex@ == ps[sell].0@
            &&& o.profit == scan_profit(ps, buy, sell)
            &&& forall|b: int, s: int|
                #[trigger] viable_pair(ps, threshold, b, s) ==> scan_profit(ps, b, s) <= o.profit
            &&& forall|b: int, s: int|
                #[trigger] viable_pair(ps, threshold, b, s) && scan_profit(ps, b, s) == o.profit
                    ==> buy < b || (buy == b && sell <= s)
        }
}

/// Examines every ordered pair of distinct venues of the snapshot and
/// returns the pair with the strictly greatest profit above the threshold,
/// or nothing when no pair clears it. Equal profits are resolved in favour
/// of the pair encountered first, scanning buy venues outermost. Quotes are
/// non-negative prices, so every pair's profit fits the tick range.
pub fn find_arbitrage_opportunity(
    prices: &Vec<(String, i64)>,
    min_profit_threshold: i64,
) -> (r: Option<ArbitrageOpportunity>)
    requires
        forall|i: int| 0 <= i < prices@.len() ==> (#[trigger] prices@[i]).1 >= 0,
    ensures
        r is Some <==> exists|b: int, s: int|
            viable_pair(prices@, min_profit_threshold, b, s),
        r matches Some(o) ==> is_best_opportunity(prices@, min_profit_threshold, o),
{
    let n = prices.len();
    let mut best: Option<ArbitrageOpportunity> = None;
    let mut max_profit: i64 = 0;
    let ghost mut bb: int = 0;
    let ghost mut bs: int = 0;
    let mut i: usize = 0;
    while i < n
        invariant
            n == prices@.len(),
            forall|k: int| 0 <= k < prices@.len() ==> (#[trigger] prices@[k]).1 >= 0,
            0 <= i <= n,
            max_profit >= 0,
            best is None ==> max_profit == 0,
            best is None ==> forall|b: int, s: int|
                #[trigger] viable_pair(prices@, min_profit_threshold, b, s) ==> b >= i,
            best matches Some(o) ==> {
                &&& 0 <= bb < i
                &&& 0 <= bs < n
                &&& viable_pair(prices@, min_profit_threshold, bb, bs)
                &&& o.buy_dex@ == prices@[bb].0@
                &&& o.sell_dex@ == prices@[bs].0@
                &&& o.profit == scan_profit(prices@, bb, bs)
                &&& max_profit == o.profit
                &&& forall|b: int, s: int|
                    b < i && #[trigger] viable_pair(prices@, min_profit_threshold, b, s)
                        ==> scan_profit(prices@, b, s) <= max_profit
                &&& forall|b: int, s: int|
                    b < i && #[trigger] viable_pair(prices@, min_profit_threshold, b, s)
                        && scan_profit(prices@, b, s) == max_profit ==> bb < b || (bb == b && bs
                        <= s)
            },
        decreases n - i,
    {
        let mut j: usize = 0;
        while j < n
            invariant
                n == prices@.len(),
                forall|k: int| 0 <= k < prices@.len() ==> (#[trigger] prices@[k]).1 >= 0,
                0 <= i < n,
                0 <= j <= n,
                max_profit >= 0,
                best is None ==> max_profit == 0,
                best is None ==> forall|b: int, s: int|
                    #[trigger] viable_pair(prices@, min_profit_threshold, b, s) ==> b > i || (b
                        == i && s >= j),
                best matches Some(o) ==> {
                    &&& (bb < i || (bb == i && bs < j))
                    &&& 0 <= bb < n
                    &&& 0 <= bs < n
                    &&& viable_pair(prices@, min_profit_threshold, bb, bs)
                    &&& o.buy_dex@ == prices@[bb].0@
                    &&& o.sell_dex@ == prices@[bs].0@
                    &&& o.profit == scan_profit(prices@, bb, bs)
                    &&& max_profit == o.profit
                    &&& forall|b: int, s: int|
                        (b < i || (b == i && s < j)) && #[trigger] viable_pair(
                            prices@,
                            min_profit_threshold,
                            b,
                            s,
                        ) ==> scan_profit(prices@, b, s) <= max_profit
                    &&& forall|b: int, s: int|
                        (b < i || (b == i && s < j)) && #[trigger] viable_pair(
                            prices@,
                            min_profit_threshold,
                            b,
                            s,
                        ) && scan_profit(prices@, b, s) == max_profit ==> bb < b || (bb == b
                            && bs <= s)
                },
            decreases n - j,
        {
            if !(prices[i].0 == prices[j].0) {
                let profit = prices[j].1 - prices[i].1;
                if profit > max_profit && profit > min_profit_threshold {
                    max_profit = profit;
                    let buy_name = prices[i].0.clone();
                    let sell_name = prices[j].0.clone();
                    best = Some(
                        ArbitrageOpportunity { buy_dex: buy_name, sell_dex: sell_name, profit },
                    );
                    proof {
                        bb = i as int;
                        bs = j as int;
                    }
                }
            }
            j += 1;
        }
        i += 1;
    }
    proof {
        if best is Some {
            assert(viable_pair(prices@, min_profit_threshold, bb, bs));
        }
    }
    best
}

} // verus!
