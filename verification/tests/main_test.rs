use arbitrage_core::arbitrage_engine::ArbitrageEngine;
use arbitrage_core::data_processor::DataProcessor;
use arbitrage_core::order::Order;

/// Price or amount in ticks: one tick is 0.01 units.
fn ticks(x: f64) -> i64 {
    (x * 100.0).round() as i64
}

#[test]
fn test_main_functionality() {
    let mut data_processor = DataProcessor::new();
    let arbitrage_engine = ArbitrageEngine::new();

    let exchange1_bids = vec![Order::new(ticks(100.0), ticks(1.0)).unwrap()];
    let exchange1_asks = vec![Order::new(ticks(101.0), ticks(1.0)).unwrap()];
    let exchange2_bids = vec![Order::new(ticks(102.0), ticks(1.0)).unwrap()];
    let exchange2_asks = vec![Order::new(ticks(99.0), ticks(1.0)).unwrap()];

    data_processor.process_order_book_update("Exchange1", exchange1_bids.clone(), true);
    data_processor.process_order_book_update("Exchange1", exchange1_asks.clone(), false);
    data_processor.process_order_book_update("Exchange2", exchange2_bids.clone(), true);
    data_processor.process_order_book_update("Exchange2", exchange2_asks.clone(), false);

    let result = arbitrage_engine.calculate_arbitrage(
        &exchange1_bids,
        &exchange1_asks,
        &exchange2_bids,
        &exchange2_asks,
    );

    assert!(result.is_ok(), "Arbitrage calculation should succeed");
    assert!(result.unwrap().is_some(), "An arbitrage opportunity should be found");
}
