use arbitrage_core::arbitrage_engine::ArbitrageEngine;
use arbitrage_core::errors::ArbitrageEngineError;
use arbitrage_core::order::Order;
use arbitrage_core::order_book::OrderBook;

/// Price or amount in ticks: one tick is 0.01 units.
fn ticks(x: f64) -> i64 {
    (x * 100.0).round() as i64
}

#[test]
fn test_empty_order_book() {
    let book_a = OrderBook::new();
    let book_b = OrderBook::new();

    let result = ArbitrageEngine::find_arbitrage(&book_a, &book_b);
    assert!(
        matches!(result, Err(ArbitrageEngineError::BestBidError)),
        "Expected BestBidError due to empty order books"
    );
}

#[test]
fn test_find_arbitrage_opportunity() {
    let mut book_a = OrderBook::new();
    let mut book_b = OrderBook::new();

    let order_a = Order::new(ticks(100.0), ticks(5.0)).unwrap();
    let order_b = Order::new(ticks(99.0), ticks(5.0)).unwrap();
    book_a.add_order(&order_a, true).unwrap();
    book_b.add_order(&order_b, false).unwrap();

    let result = ArbitrageEngine::find_arbitrage(&book_a, &book_b);

    assert!(
        matches!(result, Ok(Some(profit)) if profit == ticks(1.0)),
        "Expected arbitrage opportunity with profit of 1.0"
    );
}

#[test]
fn arbitrage_engine_test_test_no_arbitrage_opportunity() {
    let mut book_a = OrderBook::new();
    let mut book_b = OrderBook::new();

    let order = Order::new(ticks(99.0), ticks(5.0)).unwrap();
    book_a.add_order(&order, true).unwrap();
    book_b.add_order(&order, false).unwrap();

    let result = ArbitrageEngine::find_arbitrage(&book_a, &book_b);

    assert!(matches!(result, Ok(None)), "Expected no arbitrage opportunity, but found one");
}

#[test]
fn test_calculate_arbitrage() {
    let engine = ArbitrageEngine::new();

    let bids_a = vec![Order::new(ticks(100.0), ticks(5.0)).unwrap()];
    let asks_a = vec![Order::new(ticks(101.0), ticks(5.0)).unwrap()];
    let bids_b = vec![Order::new(ticks(99.0), ticks(5.0)).unwrap()];
    let asks_b = vec![Order::new(ticks(98.0), ticks(5.0)).unwrap()];

    let result = engine.calculate_arbitrage(&bids_a, &asks_a, &bids_b, &asks_b);

    assert!(
        matches!(result, Ok(Some(profit)) if profit == ticks(2.0)),
        "Expected arbitrage opportunity with profit of 2.0"
    );
}

#[test]
fn test_missing_ask_side() {
    let mut book_a = OrderBook::new();
    let book_b = OrderBook::new();

    let order = Order::new(ticks(100.0), ticks(5.0)).unwrap();
    book_a.add_order(&order, true).unwrap();

    let result = ArbitrageEngine::find_arbitrage(&book_a, &book_b);
    assert!(matches!(result, Err(ArbitrageEngineError::BestAskError)));
}

#[test]
fn test_profit_at_threshold_is_discarded() {
    let mut book_a = OrderBook::new();
    let mut book_b = OrderBook::new();

    book_a.add_order(&Order::new(ticks(100.01), ticks(5.0)).unwrap(), true).unwrap();
    book_b.add_order(&Order::new(ticks(100.0), ticks(5.0)).unwrap(), false).unwrap();

    let result = ArbitrageEngine::find_arbitrage(&book_a, &book_b);
    assert!(matches!(result, Ok(None)));
}

#[test]
fn test_profit_just_above_threshold() {
    let mut book_a = OrderBook::new();
    let mut book_b = OrderBook::new();

    book_a.add_order(&Order::new(ticks(100.02), ticks(5.0)).unwrap(), true).unwrap();
    book_b.add_order(&Order::new(ticks(100.0), ticks(5.0)).unwrap(), false).unwrap();

    let result = ArbitrageEngine::find_arbitrage(&book_a, &book_b);
    assert!(matches!(result, Ok(Some(profit)) if profit == 2));
}

#[test]
fn test_calculate_arbitrage_duplicate_price_message() {
    let engine = ArbitrageEngine::new();

    let bids_a = vec![
        Order::new(ticks(100.0), ticks(5.0)).unwrap(),
        Order::new(ticks(100.0), ticks(6.0)).unwrap(),
    ];
    let asks_a = vec![];
    let bids_b = vec![];
    let asks_b = vec![Order::new(ticks(98.0), ticks(5.0)).unwrap()];

    let result = engine.calculate_arbitrage(&bids_a, &asks_a, &bids_b, &asks_b);
    assert_eq!(result, Err("Order price already exists".to_string()));
}

#[test]
fn test_calculate_arbitrage_missing_data_messages() {
    let engine = ArbitrageEngine::new();

    let asks_b = vec![Order::new(ticks(98.0), ticks(5.0)).unwrap()];
    let result = engine.calculate_arbitrage(&[], &[], &[], &asks_b);
    assert_eq!(result, Err("Best bid not found".to_string()));

    let bids_a = vec![Order::new(ticks(100.0), ticks(5.0)).unwrap()];
    let result = engine.calculate_arbitrage(&bids_a, &[], &[], &[]);
    assert_eq!(result, Err("Best ask not found".to_string()));
}

#[test]
fn test_engine_error_messages() {
    assert_eq!(ArbitrageEngineError::BestBidError.message(), "Best bid not found");
    assert_eq!(ArbitrageEngineError::BestAskError.message(), "Best ask not found");
    assert_eq!(ArbitrageEngineError::OrderBookNotFound.message(), "Order book not found");
}
