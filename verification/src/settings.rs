//! The settings under which the provider is asked: whose name the requests
//! are made in.

use crate::request::{candle_request, candle_url, LOOKBACK};
use vstd::prelude::*;

verus! {

/// The keys of an account with the provider.
#[derive(Debug, Clone)]
pub struct Finnhub {
    /// The key that requests are made with.
    pub api_key: String,
    test_key: String,
}

/// The settings of the library.
#[derive(Debug)]
pub struct Settings {
    /// The account with the provider.
    pub finnhub: Finnhub,
}

impl Finnhub {
    /// The key that requests are made with, as a sequence of characters.
    pub closed spec fn key(&self) -> Seq<char> {
        self.api_key@
    }

    /// The key that the settings are tried with, as a sequence of
    /// characters.
    pub closed spec fn trial_key(&self) -> Seq<char> {
        self.test_key@
    }

    /// An account of the two keys.
    pub fn new(api_key: String, test_key: String) -> (r: Finnhub)
        ensures
            r.key() == api_key@,
            r.trial_key() == test_key@,
    {
        Finnhub { api_key, test_key }
    }

    /// The key that the settings are tried with.
    pub fn test_key(&self) -> (r: &str)
        ensures
            r@ == self.trial_key(),
    {
        self.test_key.as_str()
    }

    /// Writes the address under which the latest closing price of `symbol`
    /// on or before `date`, a Unix time in seconds, is looked for: that of
    /// its daily candles over the `LOOKBACK` before `date`.
    pub fn price_request(&self, symbol: &str, date: i64) -> (r: String)
        requires
            date - LOOKBACK >= i64::MIN,
        ensures
            r@ == candle_url(symbol@, date - LOOKBACK, date as int, self.key()),
    {
        candle_request(symbol, date - LOOKBACK, date, self.api_key.as_str())
    }

    /// Writes the address under which the closing prices of `symbol` from
    /// `from` to `to`, both Unix times in seconds, are looked for.
    pub fn prices_request(&self, symbol: &str, from: i64, to: i64) -> (r: String)
        ensures
            r@ == candle_url(symbol@, from as int, to as int, self.key()),
    {
        candle_request(symbol, from, to, self.api_key.as_str())
    }
}

impl Settings {
    /// The settings for an account with the provider.
    pub fn new(finnhub: Finnhub) -> (r: Settings)
        ensures
            r.finnhub == finnhub,
    {
        Settings { finnhub }
    }
}

} // verus!
