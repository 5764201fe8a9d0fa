use arbitrage_core::arbitrage_calculator::ArbitrageCalculator;

/// Price in ticks: one tick is 0.01 units.
fn ticks(x: f64) -> i64 {
    (x * 100.0).round() as i64
}

#[test]
fn test_arbitrage_opportunity() {
    let arbitrage = ArbitrageCalculator::calculate_arbitrage(Some(ticks(100.5)), Some(ticks(100.0)));
    assert_eq!(arbitrage, Some(ticks(0.5)));
}

#[test]
fn arbitrage_calculator_test_test_no_arbitrage_opportunity() {
    let arbitrage = ArbitrageCalculator::calculate_arbitrage(Some(ticks(100.0)), Some(ticks(100.5)));
    assert_eq!(arbitrage, None);
}

#[test]
fn test_missing_bid() {
    let arbitrage = ArbitrageCalculator::calculate_arbitrage(None, Some(ticks(100.0)));
    assert_eq!(arbitrage, None);
}

#[test]
fn test_missing_ask() {
    let arbitrage = ArbitrageCalculator::calculate_arbitrage(Some(ticks(100.0)), None);
    assert_eq!(arbitrage, None);
}

#[test]
fn test_equal_bid_and_ask() {
    let arbitrage = ArbitrageCalculator::calculate_arbitrage(Some(ticks(100.0)), Some(ticks(100.0)));
    assert_eq!(arbitrage, None);
}

#[test]
fn test_tiny_positive_spread_still_reported() {
    let arbitrage = ArbitrageCalculator::calculate_arbitrage(Some(ticks(100.01)), Some(ticks(100.0)));
    assert_eq!(arbitrage, Some(1));
}
