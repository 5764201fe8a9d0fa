//! Book-to-book arbitrage detection with a minimum-profit threshold, and the
//! convenience entry point that builds the two books from raw order lists.

use vstd::prelude::*;
use vstd::slice::slice_to_vec;

use crate::errors::ArbitrageEngineError;
use crate::errors::engine_error_message;
use crate::order::Order;
use crate::order::orders_valid;
use crate::order_book::OrderBook;
use crate::order_book::OrderBookError;
use crate::order_book::apply_updates;
use crate::order_book::book_error_message;
use crate::order_book::prices_distinct;

verus! {

/// The least profit, in ticks, that is reported as an opportunity: profits
/// at or below one tick (0.01 units) are treated as noise.
pub const MINIMUM_PROFIT_THRESHOLD: i64 = 1;

/// Detects arbitrage between two order books.
pub struct ArbitrageEngine;

/// What `find_arbitrage` returns: the best bid of `a` against the best ask
/// of `b`. Missing market data is a hard error, so a caller can tell "no
/// data" from "no opportunity"; a profit at or below the threshold is no
/// opportunity.
pub open spec fn spec_find_arbitrage(a: OrderBook, b: OrderBook) -> Result<
    Option<i64>,
    ArbitrageEngineError,
> {
    if a.bids().len() == 0 {
        Err(ArbitrageEngineError::BestBidError)
    } else if b.asks().len() == 0 {
        Err(ArbitrageEngineError::BestAskError)
    } else {
        let profit = a.bids().last().0 - b.asks().first().0;
        if profit > MINIMUM_PROFIT_THRESHOLD {
            Ok(Some(profit as i64))
        } else {
            Ok(None)
        }
    }
}

/// What `calculate_arbitrage` returns, with the error as its message text:
/// building either book fails on a repeated price within a side; otherwise
/// the books are compared as in `spec_find_arbitrage`.
pub open spec fn spec_calculate_arbitrage_books(
    exchange1_bids: Seq<Order>,
    exchange1_asks: Seq<Order>,
    exchange2_bids: Seq<Order>,
    exchange2_asks: Seq<Order>,
) -> Result<Option<i64>, Seq<char>> {
    if !(prices_distinct(exchange1_bids) && prices_distinct(exchange1_asks) && prices_distinct(
        exchange2_bids,
    ) && prices_distinct(exchange2_asks)) {
        Err(book_error_message(OrderBookError::DuplicatePrice))
    } else if exchange1_bids.len() == 0 {
        Err(engine_error_message(ArbitrageEngineError::BestBidError))
    } else if exchange2_asks.len() == 0 {
        Err(engine_error_message(ArbitrageEngineError::BestAskError))
    } else {
        let bid = apply_updates(Seq::<(i64, i64)>::empty(), exchange1_bids).last().0;
        let ask = apply_updates(Seq::<(i64, i64)>::empty(), exchange2_asks).first().0;
        if bid - ask > MINIMUM_PROFIT_THRESHOLD {
            Ok(Some((bid - ask) as i64))
        } else {
            Ok(None)
        }
    }
}

impl ArbitrageEngine {
    /// A new engine. The engine is stateless; the value only carries the
    /// capability to compare books.
    pub fn new() -> (r: ArbitrageEngine)
    {
        ArbitrageEngine
    }

    /// Compares the best bid of `book_a` with the best ask of `book_b`.
    /// Fails with `BestBidError` when `book_a` has no bids, else with
    /// `BestAskError` when `book_b` has no asks. Otherwise returns
    /// `Some(best_bid - best_ask)` exactly when that difference exceeds the
    /// minimum profit threshold, and `None` otherwise.
    pub fn find_arbitrage(book_a: &OrderBook, book_b: &OrderBook) -> (r: Result<
        Option<i64>,
        ArbitrageEngineError,
    >)
        requires
            book_a.wf(),
            book_b.wf(),
        ensures
            r == spec_find_arbitrage(*book_a, *book_b),
    {
        let best_bid = match book_a.get_best_bid() {
            Some((price, _)) => price,
            None => {
                return Err(ArbitrageEngineError::BestBidError);
            },
        };
        let best_ask = match book_b.get_best_ask() {
            Some((price, _)) => price,
            None => {
                return Err(ArbitrageEngineError::BestAskError);
            },
        };
        if best_bid > best_ask {
            let profit = best_bid - best_ask;
            if profit > MINIMUM_PROFIT_THRESHOLD {
                Ok(Some(profit))
            } else {
                Ok(None)
            }
        } else {
            Ok(None)
        }
    }

    /// Builds one book per exchange from its bid and ask lists and compares
    /// them, flattening any structured failure into its message string.
    pub fn calculate_arbitrage(
        &self,
        exchange1_bids: &[Order],
        exchange1_asks: &[Order],
        exchange2_bids: &[Order],
        exchange2_asks: &[Order],
    ) -> (r: Result<Option<i64>, String>)
        requires
            orders_valid(exchange1_bids@),
            orders_valid(exchange1_asks@),
            orders_valid(exchange2_bids@),
            orders_valid(exchange2_asks@),
        ensures
            ({
                let s = spec_calculate_arbitrage_books(
                    exchange1_bids@,
                    exchange1_asks@,
                    exchange2_bids@,
                    exchange2_asks@,
                );
                match r {
                    Ok(p) => s == Ok::<Option<i64>, Seq<char>>(p),
                    Err(m) => s matches Err(t) && m@ == t,
                }
            }),
    {
        let book_a = match OrderBook::from_orders(
            slice_to_vec(exchange1_bids),
            slice_to_vec(exchange1_asks),
        ) {
            Ok(book) => book,
            Err(e) => {
                return Err(e.message());
            },
        };
        let book_b = match OrderBook::from_orders(
            slice_to_vec(exchange2_bids),
            slice_to_vec(exchange2_asks),
        ) {
            Ok(book) => book,
            Err(e) => {
                return Err(e.message());
            },
        };
        match Self::find_arbitrage(&book_a, &book_b) {
            Ok(opportunity) => Ok(opportunity),
            Err(e) => Err(e.message()),
        }
    }
}

} // verus!
