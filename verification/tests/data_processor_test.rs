use arbitrage_core::data_processor::DataProcessor;
use arbitrage_core::order::Order;

/// Price or amount in ticks: one tick is 0.01 units.
fn ticks(x: f64) -> i64 {
    (x * 100.0).round() as i64
}

#[test]
fn test_process_order_book_update() {
    let mut processor = DataProcessor::new();
    let orders = vec![
        Order::new(ticks(100.0), ticks(1.0)).unwrap(),
        Order::new(ticks(101.0), ticks(2.0)).unwrap(),
    ];
    processor.process_order_book_update("Exchange1", orders, true);

    let order_book = processor.get_order_book("Exchange1").unwrap();
    assert_eq!(order_book.get_best_bid(), Some((ticks(101.0), ticks(2.0))));
}

#[test]
fn test_calculate_spread() {
    let mut processor = DataProcessor::new();
    let bid_orders = vec![Order::new(ticks(100.0), ticks(1.0)).unwrap()];
    let ask_orders = vec![Order::new(ticks(102.0), ticks(1.0)).unwrap()];

    processor.process_order_book_update("Exchange1", bid_orders, true);
    processor.process_order_book_update("Exchange1", ask_orders, false);

    assert_eq!(processor.calculate_spread("Exchange1"), Some(ticks(2.0)));
}

#[test]
fn test_multiple_exchanges() {
    let mut processor = DataProcessor::new();
    let orders1 = vec![Order::new(ticks(100.0), ticks(1.0)).unwrap()];
    let orders2 = vec![Order::new(ticks(101.0), ticks(1.0)).unwrap()];

    processor.process_order_book_update("Exchange1", orders1, true);
    processor.process_order_book_update("Exchange2", orders2, true);

    assert_eq!(
        processor.get_order_book("Exchange1").unwrap().get_best_bid(),
        Some((ticks(100.0), ticks(1.0)))
    );
    assert_eq!(
        processor.get_order_book("Exchange2").unwrap().get_best_bid(),
        Some((ticks(101.0), ticks(1.0)))
    );
}

#[test]
fn test_duplicate_in_batch_is_skipped() {
    let mut processor = DataProcessor::new();
    let orders = vec![
        Order::new(ticks(100.0), ticks(1.0)).unwrap(),
        Order::new(ticks(100.0), ticks(9.0)).unwrap(),
        Order::new(ticks(101.0), ticks(2.0)).unwrap(),
    ];
    processor.process_order_book_update("Exchange1", orders, true);

    let order_book = processor.get_order_book("Exchange1").unwrap();
    let bids = order_book.get_all_bids();
    assert_eq!(bids.len(), 2);
    assert_eq!(bids[0], Order::new(ticks(100.0), ticks(1.0)).unwrap());
    assert_eq!(bids[1], Order::new(ticks(101.0), ticks(2.0)).unwrap());
}

#[test]
fn test_unknown_venue_has_no_book_or_spread() {
    let processor = DataProcessor::new();
    assert!(processor.get_order_book("Nowhere").is_none());
    assert_eq!(processor.calculate_spread("Nowhere"), None);
}

#[test]
fn test_crossed_book_reports_negative_spread() {
    let mut processor = DataProcessor::new();
    let bid_orders = vec![Order::new(ticks(103.0), ticks(1.0)).unwrap()];
    let ask_orders = vec![Order::new(ticks(101.0), ticks(1.0)).unwrap()];

    processor.process_order_book_update("Exchange1", bid_orders, true);
    processor.process_order_book_update("Exchange1", ask_orders, false);

    assert_eq!(processor.calculate_spread("Exchange1"), Some(ticks(-2.0)));
}

#[test]
fn test_spread_needs_both_sides() {
    let mut processor = DataProcessor::new();
    let bid_orders = vec![Order::new(ticks(100.0), ticks(1.0)).unwrap()];
    processor.process_order_book_update("Exchange1", bid_orders, true);
    assert_eq!(processor.calculate_spread("Exchange1"), None);
}
