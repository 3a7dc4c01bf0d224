//! The provider's daily candles: what an answer holds, and the closing prices
//! read out of it.

use crate::json::{
    double_of, items_of, json_document, json_double, json_items, json_member, json_text,
    member_of, parse_document, text_of,
};
use crate::quantity::{price_from_double, price_of_double};
use vstd::prelude::*;

verus! {

/// What the library reads of a provider's answer.
#[derive(Debug, Clone, PartialEq, Eq)]
pub struct Candles {
    /// The member `s`, where the answer has one and it is a text.
    pub status: Option<String>,
    /// The member `c`, where the answer has one and it is an array: for each
    /// item that is a number, the bit pattern of that number as a double.
    pub closes: Option<Vec<Option<u64>>>,
}

/// A `Candles` with its status as a sequence of characters.
pub struct CandlesView {
    pub status: Option<Seq<char>>,
    pub closes: Option<Seq<Option<u64>>>,
}

impl View for Candles {
    type V = CandlesView;

    open spec fn view(&self) -> CandlesView {
        CandlesView {
            status: match self.status {
                Some(s) => Some(s@),
                None => None,
            },
            closes: match self.closes {
                Some(c) => Some(c@),
                None => None,
            },
        }
    }
}

/// The status of an answer that holds no data.
pub open spec fn no_data() -> Seq<char> {
    "no_data"@
}

/// The status of an answer that holds candles.
pub open spec fn ok() -> Seq<char> {
    "ok"@
}

/// The status member of a JSON document.
pub open spec fn status_member(document: serde_json::Value) -> Option<Seq<char>> {
    match json_member(document, "s"@) {
        Some(member) => json_text(member),
        None => None,
    }
}

/// The closing-price member of a JSON document, each item as a double.
pub open spec fn closes_member(document: serde_json::Value) -> Option<Seq<Option<u64>>> {
    match json_member(document, "c"@) {
        Some(member) => match json_items(member) {
            Some(items) => Some(Seq::new(items.len(), |i: int| json_double(items[i]))),
            None => None,
        },
        None => None,
    }
}

/// The candles that an answer spells, where it is a JSON document at all.
pub open spec fn candles_of(answer: Seq<char>) -> Option<CandlesView> {
    match json_document(answer) {
        Some(document) => Some(
            CandlesView { status: status_member(document), closes: closes_member(document) },
        ),
        None => None,
    }
}

/// Reads the candles out of a provider's answer; `None` where the answer is
/// no JSON document.
pub fn read_candles(answer: &str) -> (r: Option<Candles>)
    ensures
        r is Some <==> candles_of(answer@) is Some,
        r matches Some(candles) ==> candles_of(answer@) == Some(candles@),
{
    let document = match parse_document(answer) {
        Ok(document) => document,
        Err(_) => {
            return None;
        },
    };
    let status = match member_of(&document, "s") {
        Some(member) => match text_of(member) {
            Some(text) => Some(text.to_owned()),
            None => None,
        },
        None => None,
    };
    let closes = match member_of(&document, "c") {
        Some(member) => match items_of(member) {
            Some(items) => {
                let mut doubles: Vec<Option<u64>> = Vec::new();
                let mut i: usize = 0;
                while i < items.len()
                    invariant
                        i <= items.len(),
                        doubles@.len() == i,
                        forall|k: int| 0 <= k < i ==> doubles@[k] == json_double(items@[k]),
                    decreases items.len() - i,
                {
                    doubles.push(double_of(&items[i]));
                    i = i + 1;
                }
                assert(doubles@ =~= Seq::new(items@.len(), |i: int| json_double(items@[i])));
                Some(doubles)
            },
            None => None,
        },
        None => None,
    };
    let candles = Candles { status, closes };
    assert(candles@.status == status_member(document));
    assert(candles@.closes == closes_member(document));
    Some(candles)
}

/// What the latest closing price of an answer is.
#[derive(Debug, Clone, Copy, PartialEq, Eq)]
pub enum Latest {
    /// The last closing price listed, in price units.
    Price(u64),
    /// The provider says that it has no data.
    NoData,
    /// The answer lists no closing price, or its last one is no price.
    Unreadable,
}

/// The latest closing price of the candles: none where the status says that
/// there is no data; else the last close listed, which has to be a price.
pub open spec fn latest_of(candles: CandlesView) -> Latest {
    if candles.status == Some(no_data()) {
        Latest::NoData
    } else {
        match candles.closes {
            Some(closes) => if closes.len() > 0 {
                match closes.last() {
                    Some(bits) => match price_of_double(bits) {
                        Some(price) => Latest::Price(price),
                        None => Latest::Unreadable,
                    },
                    None => Latest::Unreadable,
                }
            } else {
                Latest::Unreadable
            },
            None => Latest::Unreadable,
        }
    }
}

/// Whether two texts hold the same characters.
fn same_text(a: &str, b: &str) -> (r: bool)
    ensures
        r == (a@ == b@),
{
    let x = a.to_owned();
    let y = b.to_owned();
    x == y
}

/// Finds the latest closing price of the candles.
pub fn latest_close(candles: &Candles) -> (r: Latest)
    ensures
        r == latest_of(candles@),
{
    let no_data = match &candles.status {
        Some(status) => same_text(status.as_str(), "no_data"),
        None => false,
    };
    if no_data {
        return Latest::NoData;
    }
    match &candles.closes {
        Some(closes) => {
            if closes.len() == 0 {
                return Latest::Unreadable;
            }
            match closes[closes.len() - 1] {
                Some(bits) => match price_from_double(bits) {
                    Some(price) => Latest::Price(price),
                    None => Latest::Unreadable,
                },
                None => Latest::Unreadable,
            }
        },
        None => Latest::Unreadable,
    }
}

/// The price that an item of the closes stands for, where it is one.
pub open spec fn close_of(item: Option<u64>) -> Option<u64> {
    match item {
        Some(bits) => price_of_double(bits),
        None => None,
    }
}

/// The closing prices of the candles, oldest first: those listed, each of
/// which has to be a price, where the status is `ok`; none at all under any
/// other status; and nothing to go by where the candles have no status or
/// list under `ok` something that is no price.
pub open spec fn series_of(candles: CandlesView) -> Option<Seq<u64>> {
    match candles.status {
        Some(status) => if status == ok() {
            match candles.closes {
                Some(closes) => if forall|i: int|
                    0 <= i < closes.len() ==> close_of(#[trigger] closes[i]) is Some {
                    Some(Seq::new(closes.len(), |i: int| close_of(closes[i]).unwrap()))
                } else {
                    None
                },
                None => None,
            }
        } else {
            Some(Seq::empty())
        },
        None => None,
    }
}

/// Lists the closing prices of the candles, oldest first.
pub fn closing_prices(candles: &Candles) -> (r: Option<Vec<u64>>)
    ensures
        r is Some <==> series_of(candles@) is Some,
        r matches Some(prices) ==> series_of(candles@) == Some(prices@),
{
    let status = match &candles.status {
        Some(status) => status,
        None => {
            return None;
        },
    };
    if !same_text(status.as_str(), "ok") {
        let none: Vec<u64> = Vec::new();
        assert(none@ =~= Seq::<u64>::empty());
        return Some(none);
    }
    let closes = match &candles.closes {
        Some(closes) => closes,
        None => {
            return None;
        },
    };
    let mut prices: Vec<u64> = Vec::new();
    let mut i: usize = 0;
    while i < closes.len()
        invariant
            i <= closes.len(),
            prices@.len() == i,
            candles@.status == Some(ok()),
            candles@.closes == Some(closes@),
            forall|k: int| 0 <= k < i ==> close_of(#[trigger] closes@[k]) == Some(prices@[k]),
        decreases closes.len() - i,
    {
        let price = match closes[i] {
            Some(bits) => price_from_double(bits),
            None => None,
        };
        match price {
            Some(price) => {
                prices.push(price);
            },
            None => {
                assert(close_of(closes@[i as int]) is None);
                return None;
            },
        }
        i = i + 1;
    }
    assert(prices@ =~= Seq::new(closes@.len(), |i: int| close_of(closes@[i]).unwrap()));
    Some(prices)
}

/// What came of a request to the provider.
#[derive(Debug, Clone, PartialEq, Eq)]
pub enum Fetched {
    /// The provider answered: the text of its answer, and the candles read
    /// from it, or `None` where the text is no JSON document.
    Answer { text: String, candles: Option<Candles> },
    /// The request failed; `detail` says how.
    Failed { detail: String },
}

/// A `Fetched` with its texts as sequences of characters.
pub enum FetchedView {
    Answer { text: Seq<char>, candles: Option<CandlesView> },
    Failed { detail: Seq<char> },
}

impl View for Fetched {
    type V = FetchedView;

    open spec fn view(&self) -> FetchedView {
        match *self {
            Fetched::Answer { text, candles } => FetchedView::Answer {
                text: text@,
                candles: match candles {
                    Some(c) => Some(c@),
                    None => None,
                },
            },
            Fetched::Failed { detail } => FetchedView::Failed { detail: detail@ },
        }
    }
}

impl Fetched {
    /// Takes in the text that the provider answered with, and reads its
    /// candles.
    pub fn answer(text: String) -> (r: Fetched)
        ensures
            r@ == (FetchedView::Answer { text: text@, candles: candles_of(text@) }),
    {
        let candles = read_candles(text.as_str());
        Fetched::Answer { text, candles }
    }

    /// Takes in the report of a request that failed.
    pub fn failed(detail: String) -> (r: Fetched)
        ensures
            r@ == (FetchedView::Failed { detail: detail@ }),
    {
        Fetched::Failed { detail }
    }
}

} // verus!
