use arbitrage_core::order::Order;
use arbitrage_core::order::OrderError;

/// Price or amount in ticks: one tick is 0.01 units.
fn ticks(x: f64) -> i64 {
    (x * 100.0).round() as i64
}

#[test]
fn test_order_creation_valid() {
    let order = Order::new(ticks(100.0), ticks(10.0));
    assert!(order.is_ok());
    let order = order.unwrap();
    assert_eq!(order.price, ticks(100.0));
    assert_eq!(order.amount, ticks(10.0));
}

#[test]
fn test_order_creation_invalid_price() {
    let order = Order::new(0, ticks(10.0));
    assert!(matches!(order, Err(OrderError::InvalidPrice(0))));
}

#[test]
fn test_order_creation_invalid_amount() {
    let order = Order::new(ticks(100.0), 0);
    assert!(matches!(order, Err(OrderError::InvalidAmount(0))));
}

#[test]
fn test_order_creation_negative_price() {
    let order = Order::new(ticks(-10.0), ticks(10.0));
    assert!(matches!(order, Err(OrderError::InvalidPrice(-1000))));
}

#[test]
fn test_order_creation_negative_amount() {
    let order = Order::new(ticks(100.0), ticks(-5.0));
    assert!(matches!(order, Err(OrderError::InvalidAmount(-500))));
}

#[test]
fn test_order_price_checked_before_amount() {
    let order = Order::new(-1, -1);
    assert!(matches!(order, Err(OrderError::InvalidPrice(-1))));
}
