//! Profit and annualized profit of a weighted basket of equities over a date
//! range, from the daily closing prices of a quote provider.
//!
//! The library computes in whole numbers, and every formula is stated and
//! proved over them. Weights, growth factors and rates of return are counted
//! in billionths (`quantity::UNIT` is one whole), prices in millionths of the
//! quoted currency, dates in seconds of Unix time. An investment is a whole
//! number of any unit, and a profit comes in billionths of that unit. Where a
//! division leaves a remainder the quotient is rounded down.
//!
//! The library puts no request itself. It writes the address of each request
//! (`settings::Finnhub`), takes in what came of it (`candle::Fetched`), and
//! decides from there: `portfolio::Portfolio::from` checks the weights before
//! any request is due, `portfolio::Draft` has the provider confirm one name
//! after the other, and `Portfolio::profit` and `Portfolio::annualized_profit`
//! work on the answers for all the stocks held.

pub mod quantity;
pub mod failure;
pub mod json;
pub mod candle;
pub mod request;
pub mod settings;
pub mod rate;
pub mod holding;
pub mod valuation;
pub mod portfolio;
pub mod stock;

pub use candle::{Candles, Fetched};
pub use failure::Failure;
pub use portfolio::{Assembly, Draft, Ends, Portfolio};
pub use settings::{Finnhub, Settings};
pub use stock::Stock;
