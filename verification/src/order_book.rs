//! Per-venue order book: two independent price-keyed sides, bids and asks.
//!
//! Each side is kept as a vector of `(price, amount)` entries sorted by
//! strictly ascending price, so a price appears at most once per side. Bids
//! are "best" at the maximum price (the last entry), asks at the minimum
//! price (the first entry).

use vstd::prelude::*;
use vstd::string::StringExecFns;

use crate::order::Order;
use crate::order::orders_valid;

verus! {

/// Why the book refused an operation.
#[derive(Clone, Copy, Debug, PartialEq, Eq, Structural)]
pub enum OrderBookError {
    InvalidOrderType,
    DuplicatePrice,
}

/// The diagnostic text of each book error.
pub open spec fn book_error_message(e: OrderBookError) -> Seq<char> {
    match e {
        OrderBookError::InvalidOrderType => "Invalid order type"@,
        OrderBookError::DuplicatePrice => "Order price already exists"@,
    }
}

impl OrderBookError {
    /// The error as a plain message string.
    pub fn message(&self) -> (r: String)
        ensures
            r@ == book_error_message(*self),
    {
        match self {
            OrderBookError::InvalidOrderType => String::from_str("Invalid order type"),
            OrderBookError::DuplicatePrice => String::from_str("Order price already exists"),
        }
    }
}

/// The entries of a side are sorted by strictly ascending price.
pub open spec fn price_sorted(s: Seq<(i64, i64)>) -> bool {
    forall|i: int, j: int| 0 <= i < j < s.len() ==> (#[trigger] s[i]).0 < (#[trigger] s[j]).0
}

/// Every entry of a side has a positive price and a positive amount.
pub open spec fn entries_valid(s: Seq<(i64, i64)>) -> bool {
    forall|i: int| 0 <= i < s.len() ==> (#[trigger] s[i]).0 > 0 && s[i].1 > 0
}

/// Some entry of the side has price `p`.
pub open spec fn contains_price(s: Seq<(i64, i64)>, p: i64) -> bool {
    exists|i: int| 0 <= i < s.len() && (#[trigger] s[i]).0 == p
}

/// The side `s` with `(p, a)` inserted immediately before the first entry
/// whose price exceeds `p`. On a sorted side this keeps the sort order.
pub open spec fn insert_entry(s: Seq<(i64, i64)>, p: i64, a: i64) -> Seq<(i64, i64)>
    decreases s.len(),
{
    if s.len() == 0 {
        seq![(p, a)]
    } else if p < s[0].0 {
        seq![(p, a)] + s
    } else {
        seq![s[0]] + insert_entry(s.drop_first(), p, a)
    }
}

/// One ingestion step: insert the order's entry unless its price is already
/// present, in which case the side is left unchanged.
pub open spec fn book_update(s: Seq<(i64, i64)>, o: Order) -> Seq<(i64, i64)> {
    if contains_price(s, o.price) {
        s
    } else {
        insert_entry(s, o.price, o.amount)
    }
}

/// All the orders of `os` applied to the side `s` in sequence order,
/// each duplicate price skipped.
pub open spec fn apply_updates(s: Seq<(i64, i64)>, os: Seq<Order>) -> Seq<(i64, i64)>
    decreases os.len(),
{
    if os.len() == 0 {
        s
    } else {
        apply_updates(book_update(s, os[0]), os.drop_first())
    }
}

/// No two orders of `os` share a price.
pub open spec fn prices_distinct(os: Seq<Order>) -> bool {
    forall|i: int, j: int|
        0 <= i < j < os.len() ==> (#[trigger] os[i]).price != (#[trigger] os[j]).price
}

/// A per-venue book: bid entries and ask entries, each sorted by price.
#[derive(Debug)]
pub struct OrderBook {
    bid_side: Vec<(i64, i64)>,
    ask_side: Vec<(i64, i64)>,
}

impl OrderBook {
    /// The bid side as a sequence of `(price, amount)` entries, ascending by
    /// price.
    pub closed spec fn bids(self) -> Seq<(i64, i64)> {
        self.bid_side@
    }

    /// The ask side as a sequence of `(price, amount)` entries, ascending by
    /// price.
    pub closed spec fn asks(self) -> Seq<(i64, i64)> {
        self.ask_side@
    }

    /// Well-formedness: both sides sorted strictly by price, all entries
    /// positive. Strict sorting makes the price a unique key per side.
    pub open spec fn wf(self) -> bool {
        &&& price_sorted(self.bids())
        &&& entries_valid(self.bids())
        &&& price_sorted(self.asks())
        &&& entries_valid(self.asks())
    }

    /// An empty book.
    pub fn new() -> (r: OrderBook)
        ensures
            r.wf(),
            r.bids() == Seq::<(i64, i64)>::empty(),
            r.asks() == Seq::<(i64, i64)>::empty(),
    {
        OrderBook { bid_side: Vec::new(), ask_side: Vec::new() }
    }

    /// Inserts `(order.price, order.amount)` into the chosen side. Fails with
    /// `DuplicatePrice`, leaving the book unchanged, exactly when that side
    /// already holds an entry at that price; insertion is all-or-nothing,
    /// never an upsert.
    pub fn add_order(&mut self, order: &Order, is_bid: bool) -> (r: Result<(), OrderBookError>)
        requires
            old(self).wf(),
            order.valid(),
        ensures
            final(self).wf(),
            is_bid ==> final(self).asks() == old(self).asks() && final(self).bids()
                == book_update(old(self).bids(), *order),
            !is_bid ==> final(self).bids() == old(self).bids() && final(self).asks()
                == book_update(old(self).asks(), *order),
            ({
                let side = if is_bid {
                    old(self).bids()
                } else {
                    old(self).asks()
                };
                r == if contains_price(side, order.price) {
                    Err::<(), OrderBookError>(OrderBookError::DuplicatePrice)
                } else {
                    Ok::<(), OrderBookError>(())
                }
            }),
    {
        if is_bid {
            insert_into_side(&mut self.bid_side, order.price, order.amount)
        } else {
            insert_into_side(&mut self.ask_side, order.price, order.amount)
        }
    }

    /// The bulk constructor: starts from an empty book and inserts each bid,
    /// then each ask, via `add_order`. The first duplicate-price collision is
    /// returned as the constructor's error, so `Ok` comes back exactly when
    /// the bid prices are pairwise distinct and the ask prices are too.
    pub fn from_orders(bids: Vec<Order>, asks: Vec<Order>) -> (r: Result<
        OrderBook,
        OrderBookError,
    >)
        requires
            orders_valid(bids@),
            orders_valid(asks@),
        ensures
            r is Ok <==> prices_distinct(bids@) && prices_distinct(asks@),
            r matches Ok(book) ==> {
                &&& book.wf()
                &&& book.bids() == apply_updates(Seq::<(i64, i64)>::empty(), bids@)
                &&& book.asks() == apply_updates(Seq::<(i64, i64)>::empty(), asks@)
                &&& book.bids().len() == bids@.len()
                &&& book.asks().len() == asks@.len()
            },
            r is Err ==> r == Err::<OrderBook, OrderBookError>(OrderBookError::DuplicatePrice),
    {
        let mut book = OrderBook::new();
        let mut i: usize = 0;
        while i < bids.len()
            invariant
                0 <= i <= bids@.len(),
                forall|k: int| 0 <= k < bids@.len() ==> (#[trigger] bids@[k]).valid(),
                book.wf(),
                book.asks() == Seq::<(i64, i64)>::empty(),
                book.bids() == apply_updates(Seq::<(i64, i64)>::empty(), bids@.take(i as int)),
                book.bids().len() == i,
                prices_distinct(bids@.take(i as int)),
            decreases bids@.len() - i,
        {
            proof {
                lemma_apply_take_step(Seq::<(i64, i64)>::empty(), bids@, i as int);
            }
            let ghost prev = book.bids();
            match book.add_order(&bids[i], true) {
                Ok(()) => {
                    proof {
                        lemma_contains_after_updates(
                            Seq::<(i64, i64)>::empty(),
                            bids@.take(i as int),
                            bids@[i as int].price,
                        );
                        lemma_insert_entry_len(prev, bids@[i as int].price, bids@[i as int].amount);
                        lemma_take_distinct_extend(bids@, i as int);
                    }
                },
                Err(e) => {
                    proof {
                        lemma_contains_after_updates(
                            Seq::<(i64, i64)>::empty(),
                            bids@.take(i as int),
                            bids@[i as int].price,
                        );
                        let ghost p = bids@[i as int].price;
                        let j = choose|j: int|
                            0 <= j < i && (#[trigger] bids@.take(i as int)[j]).price == p;
                        assert(bids@[j].price == bids@[i as int].price);
                        assert(!prices_distinct(bids@));
                    }
                    return Err(e);
                },
            }
            i += 1;
        }
        proof {
            assert(bids@.take(bids@.len() as int) =~= bids@);
        }
        let mut j: usize = 0;
        while j < asks.len()
            invariant
                0 <= j <= asks@.len(),
                forall|k: int| 0 <= k < asks@.len() ==> (#[trigger] asks@[k]).valid(),
                book.wf(),
                book.bids() == apply_updates(Seq::<(i64, i64)>::empty(), bids@),
                book.bids().len() == bids@.len(),
                prices_distinct(bids@),
                book.asks() == apply_updates(Seq::<(i64, i64)>::empty(), asks@.take(j as int)),
                book.asks().len() == j,
                prices_distinct(asks@.take(j as int)),
            decreases asks@.len() - j,
        {
            proof {
                lemma_apply_take_step(Seq::<(i64, i64)>::empty(), asks@, j as int);
            }
            let ghost prev = book.asks();
            match book.add_order(&asks[j], false) {
                Ok(()) => {
                    proof {
                        lemma_contains_after_updates(
                            Seq::<(i64, i64)>::empty(),
                            asks@.take(j as int),
                            asks@[j as int].price,
                        );
                        lemma_insert_entry_len(prev, asks@[j as int].price, asks@[j as int].amount);
                        lemma_take_distinct_extend(asks@, j as int);
                    }
                },
                Err(e) => {
                    proof {
                        lemma_contains_after_updates(
                            Seq::<(i64, i64)>::empty(),
                            asks@.take(j as int),
                            asks@[j as int].price,
                        );
                        let ghost p = asks@[j as int].price;
                        let k = choose|k: int|
                            0 <= k < j && (#[trigger] asks@.take(j as int)[k]).price == p;
                        assert(asks@[k].price == asks@[j as int].price);
                        assert(!prices_distinct(asks@));
                    }
                    return Err(e);
                },
            }
            j += 1;
        }
        proof {
            assert(asks@.take(asks@.len() as int) =~= asks@);
        }
        Ok(book)
    }

    /// The maximum-price bid with its amount, or `None` exactly when there
    /// are no bids.
    pub fn get_best_bid(&self) -> (r: Option<(i64, i64)>)
        requires
            self.wf(),
        ensures
            r is Some <==> self.bids().len() > 0,
            r matches Some(e) ==> {
                &&& e == self.bids().last()
                &&& contains_price(self.bids(), e.0)
                &&& forall|i: int| 0 <= i < self.bids().len() ==> (#[trigger] self.bids()[i]).0
                    <= e.0
            },
    {
        let n = self.bid_side.len();
        if n == 0 {
            None
        } else {
            let e = self.bid_side[n - 1];
            proof {
                assert(forall|i: int|
                    0 <= i < self.bids().len() - 1 ==> (#[trigger] self.bids()[i]).0
                        < self.bids().last().0);
            }
            Some(e)
        }
    }

    /// The minimum-price ask with its amount, or `None` exactly when there
    /// are no asks.
    pub fn get_best_ask(&self) -> (r: Option<(i64, i64)>)
        requires
            self.wf(),
        ensures
            r is Some <==> self.asks().len() > 0,
            r matches Some(e) ==> {
                &&& e == self.asks().first()
                &&& contains_price(self.asks(), e.0)
                &&& forall|i: int| 0 <= i < self.asks().len() ==> (#[trigger] self.asks()[i]).0
                    >= e.0
            },
    {
        if self.ask_side.len() == 0 {
            None
        } else {
            let e = self.ask_side[0];
            proof {
                assert(forall|i: int|
                    1 <= i < self.asks().len() ==> (#[trigger] self.asks()[i]).0
                        > self.asks().first().0);
            }
            Some(e)
        }
    }

    /// The whole bid side as orders, ascending by price.
    pub fn get_all_bids(&self) -> (r: Vec<Order>)
        requires
            self.wf(),
        ensures
            r@.len() == self.bids().len(),
            forall|i: int| 0 <= i < r@.len() ==> #[trigger] r@[i] == (Order {
                price: self.bids()[i].0,
                amount: self.bids()[i].1,
            }),
            forall|i: int| 0 <= i < r@.len() ==> (#[trigger] r@[i]).valid(),
            forall|i: int, j: int|
                0 <= i < j < r@.len() ==> (#[trigger] r@[i]).price < (#[trigger] r@[j]).price,
    {
        side_to_orders(&self.bid_side)
    }

    /// The whole ask side as orders, ascending by price.
    pub fn get_all_asks(&self) -> (r: Vec<Order>)
        requires
            self.wf(),
        ensures
            r@.len() == self.asks().len(),
            forall|i: int| 0 <= i < r@.len() ==> #[trigger] r@[i] == (Order {
                price: self.asks()[i].0,
                amount: self.asks()[i].1,
            }),
            forall|i: int| 0 <= i < r@.len() ==> (#[trigger] r@[i]).valid(),
            forall|i: int, j: int|
                0 <= i < j < r@.len() ==> (#[trigger] r@[i]).price < (#[trigger] r@[j]).price,
    {
        side_to_orders(&self.ask_side)
    }
}

/// A well-formed book never holds two entries at the same price on the same
/// side: the price is a unique key within each side.
pub proof fn lemma_no_duplicate_prices(book: OrderBook)
    requires
        book.wf(),
    ensures
        forall|i: int, j: int|
            0 <= i < j < book.bids().len() ==> (#[trigger] book.bids()[i]).0
                != (#[trigger] book.bids()[j]).0,
        forall|i: int, j: int|
            0 <= i < j < book.asks().len() ==> (#[trigger] book.asks()[i]).0
                != (#[trigger] book.asks()[j]).0,
{
}

/// Rebuilds the side's entries as `Order` values, in side order.
fn side_to_orders(side: &Vec<(i64, i64)>) -> (r: Vec<Order>)
    requires
        entries_valid(side@),
    ensures
        r@.len() == side@.len(),
        forall|i: int| 0 <= i < r@.len() ==> #[trigger] r@[i] == (Order {
            price: side@[i].0,
            amount: side@[i].1,
        }),
        forall|i: int| 0 <= i < r@.len() ==> (#[trigger] r@[i]).valid(),
{
    let mut r: Vec<Order> = Vec::new();
    let mut i: usize = 0;
    while i < side.len()
        invariant
            0 <= i <= side@.len(),
            entries_valid(side@),
            r@.len() == i,
            forall|k: int| 0 <= k < i ==> #[trigger] r@[k] == (Order {
                price: side@[k].0,
                amount: side@[k].1,
            }),
        decreases side@.len() - i,
    {
        let e = side[i];
        r.push(Order { price: e.0, amount: e.1 });
        i += 1;
    }
    r
}

/// Sorted insertion into one side, rejecting a duplicate price.
fn insert_into_side(side: &mut Vec<(i64, i64)>, price: i64, amount: i64) -> (r: Result<
    (),
    OrderBookError,
>)
    requires
        price_sorted(old(side)@),
        entries_valid(old(side)@),
        price > 0,
        amount > 0,
    ensures
        price_sorted(final(side)@),
        entries_valid(final(side)@),
        final(side)@ == book_update(old(side)@, (Order { price, amount })),
        r == if contains_price(old(side)@, price) {
            Err::<(), OrderBookError>(OrderBookError::DuplicatePrice)
        } else {
            Ok::<(), OrderBookError>(())
        },
{
    let n = side.len();
    let mut idx: usize = 0;
    while idx < n && side[idx].0 < price
        invariant
            0 <= idx <= n,
            n == side@.len(),
            price_sorted(side@),
            forall|i: int| 0 <= i < idx ==> (#[trigger] side@[i]).0 < price,
        decreases n - idx,
    {
        idx += 1;
    }
    if idx < n && side[idx].0 == price {
        proof {
            assert(contains_price(side@, price));
        }
        Err(OrderBookError::DuplicatePrice)
    } else {
        proof {
            assert forall|i: int| 0 <= i < side@.len() implies (#[trigger] side@[i]).0
                != price by {
                if i < idx {
                    assert(side@[i].0 < price);
                } else if idx < side@.len() {
                    if i > idx {
                        assert(side@[idx as int].0 < side@[i].0);
                    }
                }
            }
            assert(!contains_price(side@, price));
            if idx < side@.len() {
                assert(side@[idx as int].0 > price);
            }
        }
        let ghost s0 = side@;
        side.insert(idx, (price, amount));
        proof {
            lemma_insert_entry_at(s0, price, amount, idx as int);
            s0.insert_ensures(idx as int, (price, amount));
            let t = side@;
            assert forall|i: int, j: int| 0 <= i < j < t.len() implies (#[trigger] t[i]).0 < (
            #[trigger] t[j]).0 by {
                if j < idx {
                    assert(t[i] == s0[i]);
                    assert(t[j] == s0[j]);
                    assert(s0[i].0 < s0[j].0);
                } else if i > idx {
                    assert(t[i] == s0[i - 1]);
                    assert(t[j] == s0[j - 1]);
                    assert(s0[i - 1].0 < s0[j - 1].0);
                } else if i == idx {
                    assert(t[i].0 == price);
                    assert(t[j] == s0[j - 1]);
                    assert(price < s0[idx as int].0);
                    if j - 1 > idx {
                        assert(s0[idx as int].0 < s0[j - 1].0);
                    }
                } else if j == idx {
                    assert(t[i] == s0[i]);
                    assert(s0[i].0 < price);
                } else {
                    assert(t[i] == s0[i]);
                    assert(t[j] == s0[j - 1]);
                    assert(s0[i].0 < price);
                    assert(price < s0[idx as int].0);
                    if j - 1 > idx {
                        assert(s0[idx as int].0 < s0[j - 1].0);
                    }
                }
            }
            assert forall|i: int| 0 <= i < t.len() implies (#[trigger] t[i]).0 > 0 && t[i].1
                > 0 by {
                if i < idx {
                    assert(t[i] == s0[i]);
                    assert(s0[i].0 > 0 && s0[i].1 > 0);
                } else if i > idx {
                    assert(t[i] == s0[i - 1]);
                    assert(s0[i - 1].0 > 0 && s0[i - 1].1 > 0);
                }
            }
        }
        Ok(())
    }
}

/// Characterises `insert_entry` by the insertion index: inserting before the
/// first larger price is inserting at index `k` when everything below `k` is
/// smaller and the entry at `k`, if any, is larger.
proof fn lemma_insert_entry_at(s: Seq<(i64, i64)>, p: i64, a: i64, k: int)
    requires
        0 <= k <= s.len(),
        forall|i: int| 0 <= i < k ==> (#[trigger] s[i]).0 < p,
        k < s.len() ==> p < s[k].0,
    ensures
        insert_entry(s, p, a) == s.insert(k, (p, a)),
    decreases k,
{
    if k == 0 {
        if s.len() == 0 {
            assert(s.insert(0, (p, a)) =~= seq![(p, a)]);
        } else {
            assert(p < s[0].0);
            assert(s.insert(0, (p, a)) =~= seq![(p, a)] + s);
        }
    } else {
        assert(s[0].0 < p);
        lemma_insert_entry_at(s.drop_first(), p, a, k - 1);
        assert(insert_entry(s, p, a) == seq![s[0]] + s.drop_first().insert(k - 1, (p, a)));
        assert(seq![s[0]] + s.drop_first().insert(k - 1, (p, a)) =~= s.insert(k, (p, a)));
    }
}

/// Inserting an entry grows the side by one.
proof fn lemma_insert_entry_len(s: Seq<(i64, i64)>, p: i64, a: i64)
    ensures
        insert_entry(s, p, a).len() == s.len() + 1,
    decreases s.len(),
{
    if s.len() > 0 && !(p < s[0].0) {
        lemma_insert_entry_len(s.drop_first(), p, a);
    }
}

/// The prices present after an insertion are the old prices plus the new one.
proof fn lemma_insert_entry_contains(s: Seq<(i64, i64)>, p: i64, a: i64, q: i64)
    ensures
        contains_price(insert_entry(s, p, a), q) <==> contains_price(s, q) || q == p,
    decreases s.len(),
{
    if s.len() == 0 {
        assert(insert_entry(s, p, a)[0] == (p, a));
    } else if p < s[0].0 {
        let t = seq![(p, a)] + s;
        assert(t[0] == (p, a));
        if contains_price(s, q) {
            let i = choose|i: int| 0 <= i < s.len() && (#[trigger] s[i]).0 == q;
            assert(t[i + 1].0 == q);
        }
        if contains_price(t, q) {
            let i = choose|i: int| 0 <= i < t.len() && (#[trigger] t[i]).0 == q;
            if i > 0 {
                assert(s[i - 1].0 == q);
            }
        }
    } else {
        lemma_insert_entry_contains(s.drop_first(), p, a, q);
        let rest = insert_entry(s.drop_first(), p, a);
        let t = seq![s[0]] + rest;
        assert(t[0] == s[0]);
        if contains_price(s, q) {
            let i = choose|i: int| 0 <= i < s.len() && (#[trigger] s[i]).0 == q;
            if i > 0 {
                assert(s.drop_first()[i - 1].0 == q);
                let j = choose|j: int| 0 <= j < rest.len() && (#[trigger] rest[j]).0 == q;
                assert(t[j + 1].0 == q);
            }
        }
        if q == p {
            let j = choose|j: int| 0 <= j < rest.len() && (#[trigger] rest[j]).0 == q;
            assert(t[j + 1].0 == q);
        }
        if contains_price(t, q) {
            let i = choose|i: int| 0 <= i < t.len() && (#[trigger] t[i]).0 == q;
            if i > 0 {
                assert(rest[i - 1].0 == q);
                if contains_price(s.drop_first(), q) {
                    let j = choose|j: int|
                        0 <= j < s.drop_first().len() && (#[trigger] s.drop_first()[j]).0 == q;
                    assert(s[j + 1].0 == q);
                }
            }
        }
    }
}

/// The prices present after one ingestion step.
proof fn lemma_book_update_contains(s: Seq<(i64, i64)>, o: Order, q: i64)
    ensures
        contains_price(book_update(s, o), q) <==> contains_price(s, q) || q == o.price,
{
    if contains_price(s, o.price) {
    } else {
        lemma_insert_entry_contains(s, o.price, o.amount, q);
    }
}

/// The prices present after a batch of updates are the old prices plus the
/// batch's prices.
proof fn lemma_contains_after_updates(s: Seq<(i64, i64)>, os: Seq<Order>, q: i64)
    ensures
        contains_price(apply_updates(s, os), q) <==> contains_price(s, q) || exists|j: int|
            0 <= j < os.len() && (#[trigger] os[j]).price == q,
    decreases os.len(),
{
    if os.len() == 0 {
    } else {
        lemma_book_update_contains(s, os[0], q);
        lemma_contains_after_updates(book_update(s, os[0]), os.drop_first(), q);
        if exists|j: int| 0 <= j < os.len() && (#[trigger] os[j]).price == q {
            let j = choose|j: int| 0 <= j < os.len() && (#[trigger] os[j]).price == q;
            if j > 0 {
                assert(os.drop_first()[j - 1].price == q);
            }
        }
        if exists|j: int| 0 <= j < os.drop_first().len() && (#[trigger] os.drop_first()[j]).price
            == q {
            let j = choose|j: int|
                0 <= j < os.drop_first().len() && (#[trigger] os.drop_first()[j]).price == q;
            assert(os[j + 1].price == q);
        }
    }
}

/// Unrolls one step of a batch applied to a prefix: applying the first `i + 1`
/// orders is applying the first `i` and then the next one.
pub(crate) proof fn lemma_apply_take_step(s: Seq<(i64, i64)>, os: Seq<Order>, i: int)
    requires
        0 <= i < os.len(),
    ensures
        apply_updates(s, os.take(i + 1)) == book_update(apply_updates(s, os.take(i)), os[i]),
    decreases i,
{
    if i == 0 {
        assert(os.take(1).len() == 1);
        assert(os.take(1).drop_first() =~= Seq::<Order>::empty());
        assert(os.take(1)[0] == os[0]);
        assert(apply_updates(s, os.take(1)) == apply_updates(
            book_update(s, os[0]),
            Seq::<Order>::empty(),
        ));
        assert(apply_updates(book_update(s, os[0]), Seq::<Order>::empty()) == book_update(
            s,
            os[0],
        ));
        assert(os.take(0) =~= Seq::<Order>::empty());
        assert(apply_updates(s, os.take(0)) == s);
    } else {
        let s1 = book_update(s, os[0]);
        assert(os.take(i + 1)[0] == os[0]);
        assert(os.take(i)[0] == os[0]);
        assert(os.take(i + 1).drop_first() =~= os.drop_first().take(i));
        assert(os.take(i).drop_first() =~= os.drop_first().take(i - 1));
        assert(apply_updates(s, os.take(i + 1)) == apply_updates(s1, os.drop_first().take(i)));
        assert(apply_updates(s, os.take(i)) == apply_updates(s1, os.drop_first().take(i - 1)));
        lemma_apply_take_step(s1, os.drop_first(), i - 1);
        assert(os.drop_first()[i - 1] == os[i]);
    }
}

/// A distinct prefix stays distinct when the next order's price is new.
proof fn lemma_take_distinct_extend(os: Seq<Order>, i: int)
    requires
        0 <= i < os.len(),
        prices_distinct(os.take(i)),
        forall|j: int| 0 <= j < i ==> (#[trigger] os.take(i)[j]).price != os[i].price,
    ensures
        prices_distinct(os.take(i + 1)),
{
    assert forall|a: int, b: int| 0 <= a < b < i + 1 implies (#[trigger] os.take(i + 1)[a]).price
        != (#[trigger] os.take(i + 1)[b]).price by {
        if b < i {
            assert(os.take(i)[a] == os.take(i + 1)[a]);
            assert(os.take(i)[b] == os.take(i + 1)[b]);
        } else {
            assert(os.take(i)[a] == os.take(i + 1)[a]);
        }
    }
}

} // verus!
