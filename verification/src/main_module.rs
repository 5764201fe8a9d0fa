//! The bot layer: keeps the raw bid/ask lists per exchange beside the
//! processed registry, and answers arbitrage checks between two exchanges.

use vstd::prelude::*;
use vstd::string::StringExecFns;

use crate::arbitrage_engine::ArbitrageEngine;
use crate::arbitrage_engine::spec_calculate_arbitrage_books;
use crate::data_processor::DataProcessor;
use crate::order::Order;
use crate::order::orders_valid;
use crate::order_book::apply_updates;

verus! {

/// Orchestrates ingestion and arbitrage checks: raw order lists per
/// exchange, the processed per-venue books, and the engine that compares
/// them.
pub struct ArbitrageBot {
    data_processor: DataProcessor,
    arbitrage_engine: ArbitrageEngine,
    order_books: Vec<(String, (Vec<Order>, Vec<Order>))>,
}

impl ArbitrageBot {
    /// The stored raw books: exchange names with their latest bid and ask
    /// lists, in the order the exchanges were first seen.
    pub closed spec fn entries(self) -> Seq<(String, (Vec<Order>, Vec<Order>))> {
        self.order_books@
    }

    /// The processed registry fed by every update.
    pub closed spec fn processor(self) -> DataProcessor {
        self.data_processor
    }

    /// Some raw books are stored under the exchange name `name`.
    pub open spec fn has_books(self, name: Seq<char>) -> bool {
        exists|i: int|
            0 <= i < self.entries().len() && (#[trigger] self.entries()[i]).0@ == name
    }

    /// The raw books stored under `name`; meaningful under `has_books`.
    pub open spec fn books_of(self, name: Seq<char>) -> (Vec<Order>, Vec<Order>) {
        let i = choose|i: int|
            0 <= i < self.entries().len() && (#[trigger] self.entries()[i]).0@ == name;
        self.entries()[i].1
    }

    /// Well-formedness: exchange names are unique keys, every stored order
    /// is valid, and the processed registry is well-formed.
    pub open spec fn wf(self) -> bool {
        &&& forall|i: int, j: int|
            0 <= i < j < self.entries().len() ==> (#[trigger] self.entries()[i]).0@ != (
            #[trigger] self.entries()[j]).0@
        &&& forall|i: int|
            0 <= i < self.entries().len() ==> orders_valid((#[trigger] self.entries()[i]).1.0@)
                && orders_valid(self.entries()[i].1.1@)
        &&& self.processor().wf()
    }

    /// A bot with an empty registry and no stored books.
    pub fn new() -> (r: ArbitrageBot)
        ensures
            r.wf(),
            r.entries().len() == 0,
            r.processor().entries().len() == 0,
    {
        ArbitrageBot {
            data_processor: DataProcessor::new(),
            arbitrage_engine: ArbitrageEngine::new(),
            order_books: Vec::new(),
        }
    }

    /// The index of the exchange's stored books, if any.
    fn index_of_exchange(&self, exchange: &str) -> (r: Option<usize>)
        requires
            self.wf(),
        ensures
            r is Some <==> self.has_books(exchange@),
            r matches Some(i) ==> 0 <= i < self.entries().len() && self.entries()[i as int].0@
                == exchange@,
    {
        let key = String::from_str(exchange);
        let mut i: usize = 0;
        while i < self.order_books.len()
            invariant
                0 <= i <= self.entries().len(),
                key@ == exchange@,
                forall|k: int| 0 <= k < i ==> (#[trigger] self.entries()[k]).0@ != exchange@,
            decreases self.entries().len() - i,
        {
            if self.order_books[i].0 == key {
                return Some(i);
            }
            i += 1;
        }
        None
    }

    /// Stores the given lists as the exchange's raw books, replacing any
    /// previous ones, and feeds both lists to the processed registry (bids
    /// first).
    pub fn update_order_books(&mut self, exchange: &str, bids: Vec<Order>, asks: Vec<Order>)
        requires
            old(self).wf(),
            orders_valid(bids@),
            orders_valid(asks@),
        ensures
            final(self).wf(),
            final(self).has_books(exchange@),
            final(self).books_of(exchange@).0@ == bids@,
            final(self).books_of(exchange@).1@ == asks@,
            forall|n: Seq<char>|
                n != exchange@ ==> (#[trigger] final(self).has_books(n) <==> old(self).has_books(
                    n,
                )),
            forall|n: Seq<char>|
                n != exchange@ && old(self).has_books(n) ==> #[trigger] final(self).books_of(n)
                    == old(self).books_of(n),
            final(self).processor().has_venue(exchange@),
            ({
                let old_bids = if old(self).processor().has_venue(exchange@) {
                    old(self).processor().book_of(exchange@).bids()
                } else {
                    Seq::<(i64, i64)>::empty()
                };
                let old_asks = if old(self).processor().has_venue(exchange@) {
                    old(self).processor().book_of(exchange@).asks()
                } else {
                    Seq::<(i64, i64)>::empty()
                };
                let book = final(self).processor().book_of(exchange@);
                book.bids() == apply_updates(old_bids, bids@) && book.asks() == apply_updates(
                    old_asks,
                    asks@,
                )
            }),
            forall|n: Seq<char>|
                n != exchange@ ==> (#[trigger] final(self).processor().has_venue(n)
                    <==> old(self).processor().has_venue(n)),
            forall|n: Seq<char>|
                n != exchange@ && old(self).processor().has_venue(n)
                    ==> #[trigger] final(self).processor().book_of(n)
                    == old(self).processor().book_of(n),
    {
        let stored_bids = copy_orders(&bids);
        let stored_asks = copy_orders(&asks);
        let key = String::from_str(exchange);
        let ghost old_entries = self.entries();
        let opt_idx = self.index_of_exchange(exchange);
        match opt_idx {
            Some(idx) => {
                let slot = &mut self.order_books[idx];
                *slot = (key, (stored_bids, stored_asks));
            },
            None => {
                self.order_books.push((key, (stored_bids, stored_asks)));
            },
        }
        self.data_processor.process_order_book_update(exchange, bids, true);
        self.data_processor.process_order_book_update(exchange, asks, false);
        proof {
            let t = self.entries();
            let i0: int = match opt_idx {
                Some(idx) => idx as int,
                None => old_entries.len() as int,
            };
            assert(t[i0].0@ == exchange@);
            assert(t[i0].1.0@ == bids@);
            assert(t[i0].1.1@ == asks@);
            assert(forall|k: int| 0 <= k < t.len() && k != i0 ==> #[trigger] t[k] == old_entries[k]);
            if opt_idx is Some {
                assert(old_entries[i0].0@ == exchange@);
            }
            assert forall|a: int, b: int| 0 <= a < b < t.len() implies (#[trigger] t[a]).0@ != (
            #[trigger] t[b]).0@ by {
                if a == i0 {
                    assert(t[b] == old_entries[b]);
                    if opt_idx is Some {
                        assert(old_entries[i0].0@ != old_entries[b].0@);
                    }
                } else if b == i0 {
                    assert(t[a] == old_entries[a]);
                    if opt_idx is Some {
                        assert(old_entries[a].0@ != old_entries[i0].0@);
                    } else {
                        assert(!old(self).has_books(exchange@));
                    }
                } else {
                    assert(t[a] == old_entries[a]);
                    assert(t[b] == old_entries[b]);
                    assert(old_entries[a].0@ != old_entries[b].0@);
                }
            }
            assert forall|k: int| 0 <= k < t.len() implies orders_valid((#[trigger] t[k]).1.0@)
                && orders_valid(t[k].1.1@) by {
                if k != i0 {
                    assert(t[k] == old_entries[k]);
                    assert(orders_valid(old_entries[k].1.0@) && orders_valid(
                        old_entries[k].1.1@,
                    ));
                }
            }
            assert(self.wf());
            lemma_unique_exchange_lookup(*self, i0, exchange@);
            assert forall|n: Seq<char>| n != exchange@ implies (#[trigger] self.has_books(n)
                <==> old(self).has_books(n)) by {
                if self.has_books(n) {
                    let k = choose|k: int| 0 <= k < t.len() && (#[trigger] t[k]).0@ == n;
                    assert(k != i0);
                    assert(old_entries[k].0@ == n);
                }
                if old(self).has_books(n) {
                    let k = choose|k: int|
                        0 <= k < old_entries.len() && (#[trigger] old_entries[k]).0@ == n;
                    assert(k != i0);
                    assert(t[k].0@ == n);
                }
            }
            assert forall|n: Seq<char>|
                n != exchange@ && old(self).has_books(n) implies #[trigger] self.books_of(n)
                == old(self).books_of(n) by {
                let k = choose|k: int|
                    0 <= k < old_entries.len() && (#[trigger] old_entries[k]).0@ == n;
                assert(k != i0);
                assert(t[k].0@ == n);
                lemma_unique_exchange_lookup(*old(self), k, n);
                lemma_unique_exchange_lookup(*self, k, n);
            }
        }
    }

    /// Ingests the books of two exchanges, the first one first.
    pub fn process_order_books(
        &mut self,
        exchange1: &str,
        exchange2: &str,
        exchange1_bids: Vec<Order>,
        exchange1_asks: Vec<Order>,
        exchange2_bids: Vec<Order>,
        exchange2_asks: Vec<Order>,
    )
        requires
            old(self).wf(),
            orders_valid(exchange1_bids@),
            orders_valid(exchange1_asks@),
            orders_valid(exchange2_bids@),
            orders_valid(exchange2_asks@),
        ensures
            final(self).wf(),
            final(self).has_books(exchange1@),
            final(self).has_books(exchange2@),
            final(self).books_of(exchange2@).0@ == exchange2_bids@,
            final(self).books_of(exchange2@).1@ == exchange2_asks@,
            exchange1@ != exchange2@ ==> final(self).books_of(exchange1@).0@ == exchange1_bids@
                && final(self).books_of(exchange1@).1@ == exchange1_asks@,
            forall|n: Seq<char>|
                n != exchange1@ && n != exchange2@ ==> (#[trigger] final(self).has_books(n) <==>
                    old(self).has_books(n)),
            forall|n: Seq<char>|
                n != exchange1@ && n != exchange2@ && old(self).has_books(n)
                    ==> #[trigger] final(self).books_of(n) == old(self).books_of(n),
            final(self).processor().has_venue(exchange1@),
            final(self).processor().has_venue(exchange2@),
            exchange1@ != exchange2@ ==> ({
                let old_bids = if old(self).processor().has_venue(exchange1@) {
                    old(self).processor().book_of(exchange1@).bids()
                } else {
                    Seq::<(i64, i64)>::empty()
                };
                let old_asks = if old(self).processor().has_venue(exchange1@) {
                    old(self).processor().book_of(exchange1@).asks()
                } else {
                    Seq::<(i64, i64)>::empty()
                };
                let book = final(self).processor().book_of(exchange1@);
                book.bids() == apply_updates(old_bids, exchange1_bids@) && book.asks()
                    == apply_updates(old_asks, exchange1_asks@)
            }),
            exchange1@ != exchange2@ ==> ({
                let old_bids = if old(self).processor().has_venue(exchange2@) {
                    old(self).processor().book_of(exchange2@).bids()
                } else {
                    Seq::<(i64, i64)>::empty()
                };
                let old_asks = if old(self).processor().has_venue(exchange2@) {
                    old(self).processor().book_of(exchange2@).asks()
                } else {
                    Seq::<(i64, i64)>::empty()
                };
                let book = final(self).processor().book_of(exchange2@);
                book.bids() == apply_updates(old_bids, exchange2_bids@) && book.asks()
                    == apply_updates(old_asks, exchange2_asks@)
            }),
            exchange1@ == exchange2@ ==> ({
                let old_bids = if old(self).processor().has_venue(exchange1@) {
                    old(self).processor().book_of(exchange1@).bids()
                } else {
                    Seq::<(i64, i64)>::empty()
                };
                let old_asks = if old(self).processor().has_venue(exchange1@) {
                    old(self).processor().book_of(exchange1@).asks()
                } else {
                    Seq::<(i64, i64)>::empty()
                };
                let book = final(self).processor().book_of(exchange2@);
                book.bids() == apply_updates(
                    apply_updates(old_bids, exchange1_bids@),
                    exchange2_bids@,
                ) && book.asks() == apply_updates(
                    apply_updates(old_asks, exchange1_asks@),
                    exchange2_asks@,
                )
            }),
            forall|n: Seq<char>|
                n != exchange1@ && n != exchange2@
                    ==> (#[trigger] final(self).processor().has_venue(n)
                    <==> old(self).processor().has_venue(n)),
            forall|n: Seq<char>|
                n != exchange1@ && n != exchange2@ && old(self).processor().has_venue(n)
                    ==> #[trigger] final(self).processor().book_of(n)
                    == old(self).processor().book_of(n),
    {
        self.update_order_books(exchange1, exchange1_bids, exchange1_asks);
        self.update_order_books(exchange2, exchange2_bids, exchange2_asks);
    }

    /// The exchange's stored raw books, if it has any.
    pub fn get_order_book(&self, exchange: &str) -> (r: Option<&(Vec<Order>, Vec<Order>)>)
        requires
            self.wf(),
        ensures
            r is Some <==> self.has_books(exchange@),
            r matches Some(b) ==> *b == self.books_of(exchange@),
    {
        match self.index_of_exchange(exchange) {
            Some(idx) => {
                proof {
                    lemma_unique_exchange_lookup(*self, idx as int, exchange@);
                }
                Some(&self.order_books[idx].1)
            },
            None => None,
        }
    }

    /// What `check_arbitrage` returns, with errors as their message text: a
    /// missing exchange (the first one checked first) is a lookup failure
    /// whose message names that exchange, otherwise the stored raw books are
    /// compared as by the engine.
    pub open spec fn spec_check_arbitrage(self, e1: Seq<char>, e2: Seq<char>) -> Result<
        Option<i64>,
        Seq<char>,
    > {
        if !self.has_books(e1) {
            Err(not_found_message(e1))
        } else if !self.has_books(e2) {
            Err(not_found_message(e2))
        } else {
            spec_calculate_arbitrage_books(
                self.books_of(e1).0@,
                self.books_of(e1).1@,
                self.books_of(e2).0@,
                self.books_of(e2).1@,
            )
        }
    }

    /// Looks up the stored books of both exchanges and compares them through
    /// the engine, flattening any failure into its message string.
    pub fn check_arbitrage(&self, exchange1: &str, exchange2: &str) -> (r: Result<
        Option<i64>,
        String,
    >)
        requires
            self.wf(),
        ensures
            ({
                let s = self.spec_check_arbitrage(exchange1@, exchange2@);
                match r {
                    Ok(p) => s == Ok::<Option<i64>, Seq<char>>(p),
                    Err(m) => s matches Err(t) && m@ == t,
                }
            }),
    {
        let book1 = match self.get_order_book(exchange1) {
            Some(b) => b,
            None => {
                return Err(not_found_string(exchange1));
            },
        };
        let book2 = match self.get_order_book(exchange2) {
            Some(b) => b,
            None => {
                return Err(not_found_string(exchange2));
            },
        };
        self.arbitrage_engine.calculate_arbitrage(
            book1.0.as_slice(),
            book1.1.as_slice(),
            book2.0.as_slice(),
            book2.1.as_slice(),
        )
    }
}

/// The lookup-miss message of `check_arbitrage`: it names the missing
/// exchange.
pub open spec fn not_found_message(venue: Seq<char>) -> Seq<char> {
    "OrderBookNotFound for "@ + venue
}

/// Builds the lookup-miss message for the given exchange.
fn not_found_string(venue: &str) -> (r: String)
    ensures
        r@ == not_found_message(venue@),
{
    String::from_str("OrderBookNotFound for ").concat(venue)
}

/// With unique exchange names, any entry carrying `name` is the entry that
/// the lookup `books_of` denotes.
proof fn lemma_unique_exchange_lookup(bot: ArbitrageBot, i: int, name: Seq<char>)
    requires
        bot.wf(),
        0 <= i < bot.entries().len(),
        bot.entries()[i].0@ == name,
    ensures
        bot.has_books(name),
        bot.books_of(name) == bot.entries()[i].1,
{
    assert(bot.has_books(name));
    let k = choose|k: int|
        0 <= k < bot.entries().len() && (#[trigger] bot.entries()[k]).0@ == name;
    if k != i {
        if k < i {
            assert(bot.entries()[k].0@ != bot.entries()[i].0@);
        } else {
            assert(bot.entries()[i].0@ != bot.entries()[k].0@);
        }
    }
}

/// A fresh vector with the same orders.
fn copy_orders(v: &Vec<Order>) -> (r: Vec<Order>)
    ensures
        r@ == v@,
{
    let mut r: Vec<Order> = Vec::new();
    let mut i: usize = 0;
    while i < v.len()
        invariant
            0 <= i <= v@.len(),
            r@ == v@.take(i as int),
        decreases v@.len() - i,
    {
        r.push(v[i]);
        proof {
            assert(v@.take(i + 1 as int) =~= v@.take(i as int).push(v@[i as int]));
        }
        i += 1;
    }
    proof {
        assert(v@.take(v@.len() as int) =~= v@);
    }
    r
}

} // verus!
