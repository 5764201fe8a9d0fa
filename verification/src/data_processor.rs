//! Registry mapping venue name to its order book: batch ingestion and
//! spread queries.
//!
//! Ingestion is deliberately more lenient than a single insertion: an order
//! whose price collides with an existing entry is skipped and the rest of
//! the batch is still processed, so one bad feed entry never aborts a batch.

use vstd::prelude::*;
use vstd::string::StringExecFns;

use crate::order::Order;
use crate::order::orders_valid;
use crate::order_book::OrderBook;
use crate::order_book::apply_updates;
use crate::order_book::lemma_apply_take_step;

verus! {

/// Venue registry: one order book per venue name, created lazily on the
/// first update and never removed.
pub struct DataProcessor {
    exchange_data: Vec<(String, OrderBook)>,
}

impl DataProcessor {
    /// The registry's entries: venue names with their books, in the order
    /// the venues were first seen.
    pub closed spec fn entries(self) -> Seq<(String, OrderBook)> {
        self.exchange_data@
    }

    /// Some entry carries the venue name `name`.
    pub open spec fn has_venue(self, name: Seq<char>) -> bool {
        exists|i: int|
            0 <= i < self.entries().len() && (#[trigger] self.entries()[i]).0@ == name
    }

    /// The book of the venue named `name`; meaningful under `has_venue`.
    pub open spec fn book_of(self, name: Seq<char>) -> OrderBook {
        let i = choose|i: int|
            0 <= i < self.entries().len() && (#[trigger] self.entries()[i]).0@ == name;
        self.entries()[i].1
    }

    /// Well-formedness: venue names are unique keys, and every book is
    /// well-formed.
    pub open spec fn wf(self) -> bool {
        &&& forall|i: int, j: int|
            0 <= i < j < self.entries().len() ==> (#[trigger] self.entries()[i]).0@ != (
            #[trigger] self.entries()[j]).0@
        &&& forall|i: int|
            0 <= i < self.entries().len() ==> (#[trigger] self.entries()[i]).1.wf()
    }

    /// An empty registry.
    pub fn new() -> (r: DataProcessor)
        ensures
            r.wf(),
            r.entries().len() == 0,
    {
        DataProcessor { exchange_data: Vec::new() }
    }

    /// The index of the venue's entry, if the venue has one.
    fn index_of_venue(&self, exchange: &str) -> (r: Option<usize>)
        requires
            self.wf(),
        ensures
            r is Some <==> self.has_venue(exchange@),
            r matches Some(i) ==> 0 <= i < self.entries().len() && self.entries()[i as int].0@
                == exchange@,
    {
        let key = String::from_str(exchange);
        let mut i: usize = 0;
        while i < self.exchange_data.len()
            invariant
                0 <= i <= self.entries().len(),
                key@ == exchange@,
                forall|k: int| 0 <= k < i ==> (#[trigger] self.entries()[k]).0@ != exchange@,
            decreases self.entries().len() - i,
        {
            if self.exchange_data[i].0 == key {
                return Some(i);
            }
            i += 1;
        }
        None
    }

    /// Looks up or creates the venue's book, then adds each order of the
    /// batch to the chosen side in batch order, skipping any order whose
    /// price that side already holds. Other venues are untouched.
    pub fn process_order_book_update(&mut self, exchange: &str, orders: Vec<Order>, is_bid: bool)
        requires
            old(self).wf(),
            orders_valid(orders@),
        ensures
            final(self).wf(),
            final(self).has_venue(exchange@),
            ({
                let old_bids = if old(self).has_venue(exchange@) {
                    old(self).book_of(exchange@).bids()
                } else {
                    Seq::<(i64, i64)>::empty()
                };
                let old_asks = if old(self).has_venue(exchange@) {
                    old(self).book_of(exchange@).asks()
                } else {
                    Seq::<(i64, i64)>::empty()
                };
                let book = final(self).book_of(exchange@);
                &&& is_bid ==> book.bids() == apply_updates(old_bids, orders@) && book.asks()
                    == old_asks
                &&& !is_bid ==> book.asks() == apply_updates(old_asks, orders@) && book.bids()
                    == old_bids
            }),
            forall|n: Seq<char>|
                n != exchange@ ==> (#[trigger] final(self).has_venue(n) <==> old(self).has_venue(
                    n,
                )),
            forall|n: Seq<char>|
                n != exchange@ && old(self).has_venue(n) ==> #[trigger] final(self).book_of(n)
                    == old(self).book_of(n),
    {
        match self.index_of_venue(exchange) {
            Some(idx) => {
                let ghost old_entries = self.entries();
                update_book(&mut self.exchange_data[idx].1, &orders, is_bid);
                proof {
                    let t = self.entries();
                    assert(t.len() == old_entries.len());
                    assert(forall|k: int|
                        0 <= k < t.len() && k != idx ==> #[trigger] t[k] == old_entries[k]);
                    assert(t[idx as int].0 == old_entries[idx as int].0);
                    lemma_unique_venue_lookup(*old(self), idx as int, exchange@);
                    lemma_unique_venue_lookup(*self, idx as int, exchange@);
                    assert forall|n: Seq<char>| n != exchange@ implies (#[trigger] self.has_venue(
                        n,
                    ) <==> old(self).has_venue(n)) by {
                        if self.has_venue(n) {
                            let k = choose|k: int|
                                0 <= k < t.len() && (#[trigger] t[k]).0@ == n;
                            assert(old_entries[k].0@ == n);
                        }
                        if old(self).has_venue(n) {
                            let k = choose|k: int|
                                0 <= k < old_entries.len() && (#[trigger] old_entries[k]).0@
                                    == n;
                            assert(t[k].0@ == n);
                        }
                    }
                    assert forall|n: Seq<char>|
                        n != exchange@ && old(self).has_venue(n) implies #[trigger] self.book_of(
                        n,
                    ) == old(self).book_of(n) by {
                        let k = choose|k: int|
                            0 <= k < old_entries.len() && (#[trigger] old_entries[k]).0@ == n;
                        assert(t[k].0@ == n);
                        lemma_unique_venue_lookup(*old(self), k, n);
                        lemma_unique_venue_lookup(*self, k, n);
                    }
                }
            },
            None => {
                let mut book = OrderBook::new();
                update_book(&mut book, &orders, is_bid);
                let key = String::from_str(exchange);
                self.exchange_data.push((key, book));
                proof {
                    let t = self.entries();
                    let n0 = old(self).entries().len() as int;
                    assert(t[n0].0@ == exchange@);
                    lemma_unique_venue_lookup(*self, n0, exchange@);
                    assert forall|n: Seq<char>| n != exchange@ implies (#[trigger] self.has_venue(
                        n,
                    ) <==> old(self).has_venue(n)) by {
                        if self.has_venue(n) {
                            let k = choose|k: int|
                                0 <= k < t.len() && (#[trigger] t[k]).0@ == n;
                            assert(k < n0);
                            assert(old(self).entries()[k].0@ == n);
                        }
                        if old(self).has_venue(n) {
                            let k = choose|k: int|
                                0 <= k < old(self).entries().len() && (#[trigger] old(
                                    self,
                                ).entries()[k]).0@ == n;
                            assert(t[k].0@ == n);
                        }
                    }
                    assert forall|n: Seq<char>|
                        n != exchange@ && old(self).has_venue(n) implies #[trigger] self.book_of(
                        n,
                    ) == old(self).book_of(n) by {
                        let k = choose|k: int|
                            0 <= k < old(self).entries().len() && (#[trigger] old(
                                self,
                            ).entries()[k]).0@ == n;
                        assert(t[k].0@ == n);
                        lemma_unique_venue_lookup(*old(self), k, n);
                        lemma_unique_venue_lookup(*self, k, n);
                    }
                }
            },
        }
    }

    /// The venue's book, if the venue has ever been updated.
    pub fn get_order_book(&self, exchange: &str) -> (r: Option<&OrderBook>)
        requires
            self.wf(),
        ensures
            r is Some <==> self.has_venue(exchange@),
            r matches Some(book) ==> *book == self.book_of(exchange@) && book.wf(),
    {
        match self.index_of_venue(exchange) {
            Some(idx) => {
                proof {
                    lemma_unique_venue_lookup(*self, idx as int, exchange@);
                }
                Some(&self.exchange_data[idx].1)
            },
            None => None,
        }
    }

    /// The venue's spread: best ask price minus best bid price, when the
    /// venue exists and has both; absent otherwise. The sign is not checked,
    /// so a crossed book reports a negative spread.
    pub fn calculate_spread(&self, exchange: &str) -> (r: Option<i64>)
        requires
            self.wf(),
        ensures
            r == self.spec_spread(exchange@),
    {
        match self.get_order_book(exchange) {
            Some(book) => {
                match (book.get_best_bid(), book.get_best_ask()) {
                    (Some(best_bid), Some(best_ask)) => Some(best_ask.0 - best_bid.0),
                    _ => None,
                }
            },
            None => None,
        }
    }

    /// What `calculate_spread` returns: the raw measurement
    /// `best ask price - best bid price` when both sides are populated.
    pub open spec fn spec_spread(self, name: Seq<char>) -> Option<i64> {
        if self.has_venue(name) && self.book_of(name).bids().len() > 0 && self.book_of(
            name,
        ).asks().len() > 0 {
            Some((self.book_of(name).asks().first().0 - self.book_of(name).bids().last().0) as i64)
        } else {
            None
        }
    }
}

/// With unique venue names, any entry carrying `name` is the entry that the
/// lookup `book_of` denotes.
proof fn lemma_unique_venue_lookup(p: DataProcessor, i: int, name: Seq<char>)
    requires
        p.wf(),
        0 <= i < p.entries().len(),
        p.entries()[i].0@ == name,
    ensures
        p.has_venue(name),
        p.book_of(name) == p.entries()[i].1,
{
    assert(p.has_venue(name));
    let k = choose|k: int| 0 <= k < p.entries().len() && (#[trigger] p.entries()[k]).0@ == name;
    if k != i {
        if k < i {
            assert(p.entries()[k].0@ != p.entries()[i].0@);
        } else {
            assert(p.entries()[i].0@ != p.entries()[k].0@);
        }
    }
}

/// Adds each order of the batch to the chosen side of `book`, in batch
/// order, skipping orders whose price is already present.
fn update_book(book: &mut OrderBook, orders: &Vec<Order>, is_bid: bool)
    requires
        old(book).wf(),
        orders_valid(orders@),
    ensures
        final(book).wf(),
        is_bid ==> final(book).bids() == apply_updates(old(book).bids(), orders@)
            && final(book).asks() == old(book).asks(),
        !is_bid ==> final(book).asks() == apply_updates(old(book).asks(), orders@)
            && final(book).bids() == old(book).bids(),
{
    let mut k: usize = 0;
    while k < orders.len()
        invariant
            0 <= k <= orders@.len(),
            orders_valid(orders@),
            book.wf(),
            is_bid ==> book.bids() == apply_updates(old(book).bids(), orders@.take(k as int))
                && book.asks() == old(book).asks(),
            !is_bid ==> book.asks() == apply_updates(old(book).asks(), orders@.take(k as int))
                && book.bids() == old(book).bids(),
        decreases orders@.len() - k,
    {
        proof {
            if is_bid {
                lemma_apply_take_step(old(book).bids(), orders@, k as int);
            } else {
                lemma_apply_take_step(old(book).asks(), orders@, k as int);
            }
        }
        let _ = book.add_order(&orders[k], is_bid);
        k += 1;
    }
    proof {
        assert(orders@.take(orders@.len() as int) =~= orders@);
    }
}

} // verus!
