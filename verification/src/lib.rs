//! Core of an arbitrage detector: validated orders, per-venue order books,
//! spread and profit computations, and a multi-venue opportunity scan.
//!
//! Prices and amounts are fixed-point integers: a value of `1` stands for one
//! tick of 0.01 units, so `10_000` ticks are 100.00 units. Representing prices
//! as scaled integers keeps the ordering of book keys total and exact, which a
//! raw binary floating-point price cannot guarantee in a financial setting.

pub mod arbitrage_calculator;
pub mod arbitrage_engine;
pub mod arbitrage_finder;
pub mod data_processor;
pub mod errors;
pub mod logger;
pub mod main_module;
pub mod order;
pub mod order_book;

pub use arbitrage_calculator::ArbitrageCalculator;
pub use arbitrage_engine::ArbitrageEngine;
pub use arbitrage_finder::ArbitrageOpportunity;
pub use data_processor::DataProcessor;
pub use errors::ArbitrageEngineError;
pub use logger::Logger;
pub use main_module::ArbitrageBot;
pub use order::Order;
pub use order::OrderError;
pub use order_book::OrderBook;
pub use order_book::OrderBookError;
