//! A limit-order matching engine for one trading pair: price-time priority
//! matching, a two-sided book of price levels, an order index kept in step
//! with the queues, cancellation and per-period market data.

pub mod amount;
pub mod engine;
pub mod index;
pub mod levels;
pub mod matching;
pub mod book;
pub mod laws;
pub mod registry;
pub mod apis;
