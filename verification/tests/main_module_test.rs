use arbitrage_core::main_module::ArbitrageBot;
use arbitrage_core::order::Order;

/// Price or amount in ticks: one tick is 0.01 units.
fn ticks(x: f64) -> i64 {
    (x * 100.0).round() as i64
}

#[test]
fn test_arbitrage_bot() {
    let bot = ArbitrageBot::new();
    assert!(bot.check_arbitrage("Exchange1", "Exchange2").is_err());
}

#[test]
fn test_update_order_books() {
    let mut bot = ArbitrageBot::new();
    let exchange = "Exchange1";
    let bids = vec![Order::new(ticks(100.0), ticks(1.0)).unwrap()];
    let asks = vec![Order::new(ticks(101.0), ticks(1.0)).unwrap()];

    bot.update_order_books(exchange, bids.clone(), asks.clone());

    let order_book = bot.get_order_book(exchange).unwrap();
    assert_eq!(order_book.0, bids);
    assert_eq!(order_book.1, asks);
}

#[test]
fn test_get_order_book() {
    let mut bot = ArbitrageBot::new();
    let exchange = "Exchange1";
    let bids = vec![Order::new(ticks(100.0), ticks(1.0)).unwrap()];
    let asks = vec![Order::new(ticks(101.0), ticks(1.0)).unwrap()];

    bot.update_order_books(exchange, bids.clone(), asks.clone());

    let order_book = bot.get_order_book(exchange);
    assert!(order_book.is_some());
    let order_book = order_book.unwrap();
    assert_eq!(order_book.0, bids);
    assert_eq!(order_book.1, asks);
}

#[test]
fn test_check_arbitrage_with_order_books() {
    let mut bot = ArbitrageBot::new();

    let exchange1 = "Exchange1";
    let exchange2 = "Exchange2";
    let exchange1_bids = vec![Order::new(ticks(100.0), ticks(1.0)).unwrap()];
    let exchange1_asks = vec![Order::new(ticks(101.0), ticks(1.0)).unwrap()];
    let exchange2_bids = vec![Order::new(ticks(102.0), ticks(1.0)).unwrap()];
    let exchange2_asks = vec![Order::new(ticks(99.0), ticks(1.0)).unwrap()];

    bot.update_order_books(exchange1, exchange1_bids, exchange1_asks);
    bot.update_order_books(exchange2, exchange2_bids, exchange2_asks);

    let result = bot.check_arbitrage(exchange1, exchange2);
    assert!(result.is_ok());
    assert!(result.unwrap().is_some());
}

#[test]
fn test_process_order_books_and_check_arbitrage() {
    let mut bot = ArbitrageBot::new();

    let exchange1_bids = vec![Order::new(ticks(100.0), ticks(1.0)).unwrap()];
    let exchange1_asks = vec![Order::new(ticks(101.0), ticks(1.0)).unwrap()];
    let exchange2_bids = vec![Order::new(ticks(102.0), ticks(1.0)).unwrap()];
    let exchange2_asks = vec![Order::new(ticks(99.0), ticks(1.0)).unwrap()];

    bot.process_order_books(
        "Exchange1",
        "Exchange2",
        exchange1_bids,
        exchange1_asks,
        exchange2_bids,
        exchange2_asks,
    );

    let result = bot.check_arbitrage("Exchange1", "Exchange2");
    println!("Check arbitrage result: {:?}", result);
    assert!(result.is_ok());
    assert!(result.unwrap().is_some());
}

#[test]
fn test_check_arbitrage_missing_exchange_message() {
    let mut bot = ArbitrageBot::new();
    let bids = vec![Order::new(ticks(100.0), ticks(1.0)).unwrap()];
    let asks = vec![Order::new(ticks(101.0), ticks(1.0)).unwrap()];
    bot.update_order_books("Exchange1", bids, asks);

    let result = bot.check_arbitrage("Exchange1", "Exchange2");
    assert_eq!(result, Err("OrderBookNotFound for Exchange2".to_string()));
}

#[test]
fn test_check_arbitrage_names_first_missing_exchange() {
    let bot = ArbitrageBot::new();
    let result = bot.check_arbitrage("Exchange1", "Exchange2");
    assert_eq!(result, Err("OrderBookNotFound for Exchange1".to_string()));
}

#[test]
fn test_update_replaces_stored_books() {
    let mut bot = ArbitrageBot::new();
    let bids1 = vec![Order::new(ticks(100.0), ticks(1.0)).unwrap()];
    let asks1 = vec![Order::new(ticks(101.0), ticks(1.0)).unwrap()];
    bot.update_order_books("Exchange1", bids1, asks1);

    let bids2 = vec![Order::new(ticks(105.0), ticks(2.0)).unwrap()];
    let asks2 = vec![Order::new(ticks(106.0), ticks(2.0)).unwrap()];
    bot.update_order_books("Exchange1", bids2.clone(), asks2.clone());

    let order_book = bot.get_order_book("Exchange1").unwrap();
    assert_eq!(order_book.0, bids2);
    assert_eq!(order_book.1, asks2);
}
