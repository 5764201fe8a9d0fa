//! A validated (price, amount) pair representing standing buy or sell
//! interest. Both fields are fixed-point ticks (1 tick = 0.01 units).

use vstd::prelude::*;

verus! {

/// A single order: a price and an amount, both in ticks.
///
/// An `Order` produced by [`Order::new`] always satisfies [`Order::valid`]:
/// both fields are strictly positive. The value is never mutated after
/// construction.
#[derive(Clone, Copy, Debug, PartialEq, Eq, Structural)]
pub struct Order {
    pub price: i64,
    pub amount: i64,
}

/// Why an order could not be constructed. Each variant carries the offending
/// input value.
#[derive(Clone, Copy, Debug, PartialEq, Eq, Structural)]
pub enum OrderError {
    InvalidPrice(i64),
    InvalidAmount(i64),
}

impl Order {
    /// The invariant established by construction: both fields are positive.
    pub open spec fn valid(self) -> bool {
        self.price > 0 && self.amount > 0
    }

    /// Builds an order, rejecting a non-positive price first, then a
    /// non-positive amount.
    pub fn new(price: i64, amount: i64) -> (r: Result<Order, OrderError>)
        ensures
            price <= 0 ==> r == Err::<Order, OrderError>(OrderError::InvalidPrice(price)),
            price > 0 && amount <= 0 ==> r == Err::<Order, OrderError>(
                OrderError::InvalidAmount(amount),
            ),
            price > 0 && amount > 0 ==> r == Ok::<Order, OrderError>(Order { price, amount }),
            r matches Ok(o) ==> o.valid(),
    {
        if price <= 0 {
            return Err(OrderError::InvalidPrice(price));
        }
        if amount <= 0 {
            return Err(OrderError::InvalidAmount(amount));
        }
        Ok(Order { price, amount })
    }
}

/// Every order of the batch satisfies the construction invariant.
pub open spec fn orders_valid(os: Seq<Order>) -> bool {
    forall|i: int| 0 <= i < os.len() ==> (#[trigger] os[i]).valid()
}

} // verus!
