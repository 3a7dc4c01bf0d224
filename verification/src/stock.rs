//! A stock: a name that the provider has confirmed, and the closing prices
//! that the provider reports for it.

use crate::candle::{
    closing_prices, latest_close, latest_of, series_of, Candles, Fetched, FetchedView, Latest,
};
use crate::failure::{Failure, FailureView};
use vstd::prelude::*;
use vstd::std_specs::cmp::{PartialEqSpec, PartialEqSpecImpl};

verus! {

/// A stock that the provider knows by `name`. Two stocks are the same stock
/// where their names are the same text.
#[derive(Debug, Clone, Hash)]
pub struct Stock {
    name: String,
}

impl View for Stock {
    type V = Seq<char>;

    closed spec fn view(&self) -> Seq<char> {
        self.name@
    }
}

impl PartialEq for Stock {
    fn eq(&self, other: &Stock) -> (r: bool) {
        self.name == other.name
    }
}

impl PartialEqSpecImpl for Stock {
    open spec fn obeys_eq_spec() -> bool {
        true
    }

    open spec fn eq_spec(&self, other: &Stock) -> bool {
        self@ == other@
    }
}

impl Eq for Stock {

}

/// The latest closing price of the stock `name` on or before `date`, as the
/// provider's answer to the request for it gives it. A request that failed
/// fails with its report; an answer that cannot be read fails with its text;
/// one that says that there is no data fails with the stock and the date.
pub open spec fn price_of(name: Seq<char>, date: i64, fetched: FetchedView) -> Result<
    u64,
    FailureView,
> {
    match fetched {
        FetchedView::Failed { detail } => Err(FailureView::Provider { detail }),
        FetchedView::Answer { text, candles: None } => Err(FailureView::Provider { detail: text }),
        FetchedView::Answer { text, candles: Some(candles) } => match latest_of(candles) {
            Latest::Price(price) => Ok(price),
            Latest::NoData => Err(FailureView::NoPriceData { name, date }),
            Latest::Unreadable => Err(FailureView::Provider { detail: text }),
        },
    }
}

/// The closing prices of a stock over a range of dates, oldest first, as the
/// provider's answer to the request for them gives them. A request that
/// failed fails with its report, an answer that cannot be read with its text.
pub open spec fn prices_of(fetched: FetchedView) -> Result<Seq<u64>, FailureView> {
    match fetched {
        FetchedView::Failed { detail } => Err(FailureView::Provider { detail }),
        FetchedView::Answer { text, candles: None } => Err(FailureView::Provider { detail: text }),
        FetchedView::Answer { text, candles: Some(candles) } => match series_of(candles) {
            Some(prices) => Ok(prices),
            None => Err(FailureView::Provider { detail: text }),
        },
    }
}

/// Whether the provider knows a stock by `name`, as its answer to the request
/// for the latest closing price of that name gives it: it does where the
/// answer holds a price, and does not where the answer says that there is no
/// data.
pub open spec fn confirmed(name: Seq<char>, fetched: FetchedView) -> Result<(), FailureView> {
    match fetched {
        FetchedView::Failed { detail } => Err(FailureView::Provider { detail }),
        FetchedView::Answer { text, candles: None } => Err(FailureView::Provider { detail: text }),
        FetchedView::Answer { text, candles: Some(candles) } => match latest_of(candles) {
            Latest::Price(_) => Ok(()),
            Latest::NoData => Err(FailureView::NotFound { name }),
            Latest::Unreadable => Err(FailureView::Provider { detail: text }),
        },
    }
}

/// A price that is read is one price unit at least.
pub proof fn lemma_price_positive(name: Seq<char>, date: i64, fetched: FetchedView)
    ensures
        price_of(name, date, fetched) matches Ok(price) ==> price >= 1,
{
}

/// A name is confirmed by the answers that hold its latest closing price,
/// and by no others.
pub proof fn law_confirmed_where_priced(name: Seq<char>, date: i64, fetched: FetchedView)
    ensures
        confirmed(name, fetched) is Ok <==> price_of(name, date, fetched) is Ok,
{
}

/// Stocks of one name are one stock, however often and of whatever answers
/// they were made.
pub proof fn law_one_name_one_stock(first: Stock, second: Stock, name: Seq<char>)
    requires
        first@ == name,
        second@ == name,
    ensures
        PartialEqSpec::eq_spec(&first, &second),
{
}

impl Stock {
    /// Makes the stock `name` of the provider's answer to the request for the
    /// latest closing price of that name.
    pub fn new(name: &str, fetched: &Fetched) -> (r: Result<Stock, Failure>)
        ensures
            match confirmed(name@, fetched@) {
                Ok(_) => r matches Ok(stock) && stock@ == name@,
                Err(failure) => r matches Err(e) && e@ == failure,
            },
    {
        match fetched {
            Fetched::Failed { detail } => Err(Failure::Provider { detail: detail.clone() }),
            Fetched::Answer { text, candles: None } => Err(
                Failure::Provider { detail: text.clone() },
            ),
            Fetched::Answer { text, candles: Some(candles) } => match latest_close(candles) {
                Latest::Price(_) => Ok(Stock { name: name.to_owned() }),
                Latest::NoData => Err(Failure::NotFound { name: name.to_owned() }),
                Latest::Unreadable => Err(Failure::Provider { detail: text.clone() }),
            },
        }
    }

    /// The name by which the provider knows the stock.
    pub fn name(&self) -> (r: &str)
        ensures
            r@ == self@,
    {
        self.name.as_str()
    }

    /// The latest closing price of the stock on or before `date`, in price
    /// units, read from the provider's answer to the request for it.
    pub fn price(&self, date: i64, fetched: &Fetched) -> (r: Result<u64, Failure>)
        ensures
            match price_of(self@, date, fetched@) {
                Ok(price) => r == Ok::<u64, Failure>(price),
                Err(failure) => r matches Err(e) && e@ == failure,
            },
    {
        match fetched {
            Fetched::Failed { detail } => Err(Failure::Provider { detail: detail.clone() }),
            Fetched::Answer { text, candles: None } => Err(
                Failure::Provider { detail: text.clone() },
            ),
            Fetched::Answer { text, candles: Some(candles) } => match latest_close(candles) {
                Latest::Price(price) => Ok(price),
                Latest::NoData => Err(Failure::NoPriceData { name: self.name.clone(), date }),
                Latest::Unreadable => Err(Failure::Provider { detail: text.clone() }),
            },
        }
    }

    /// The closing prices of the stock over a range of dates, oldest first and
    /// in price units, read from the provider's answer to the request for
    /// them.
    pub fn prices(&self, fetched: &Fetched) -> (r: Result<Vec<u64>, Failure>)
        ensures
            match prices_of(fetched@) {
                Ok(prices) => r matches Ok(listed) && listed@ == prices,
                Err(failure) => r matches Err(e) && e@ == failure,
            },
    {
        match fetched {
            Fetched::Failed { detail } => Err(Failure::Provider { detail: detail.clone() }),
            Fetched::Answer { text, candles: None } => Err(
                Failure::Provider { detail: text.clone() },
            ),
            Fetched::Answer { text, candles: Some(candles) } => match closing_prices(candles) {
                Some(prices) => Ok(prices),
                None => Err(Failure::Provider { detail: text.clone() }),
            },
        }
    }
}

} // verus!
