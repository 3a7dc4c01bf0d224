//! The ways in which building a portfolio or computing its profit fails.

use vstd::prelude::*;

verus! {

/// Why an operation of the library failed.
#[derive(Debug, Clone, PartialEq, Eq)]
pub enum Failure {
    /// The weights do not add up to one whole; `sum` is what they add up to,
    /// in billionths.
    InvalidWeights { sum: u128 },
    /// The provider has no data at all for the stock of this name.
    NotFound { name: String },
    /// The provider has no closing price for the stock in the days up to
    /// `date`, a Unix time in seconds.
    NoPriceData { name: String, date: i64 },
    /// The provider has fewer than two closing prices for the stock in the
    /// range asked for, so that there is no daily return to average.
    InsufficientHistory { name: String },
    /// The provider could not be reached, or what it answered could not be
    /// read. `detail` is the caller's report of the failed request, or the
    /// answer that could not be read.
    Provider { detail: String },
    /// A growth factor beyond `MAX_GROWTH`.
    OutOfRange,
}

/// A `Failure` with its texts as sequences of characters.
pub enum FailureView {
    InvalidWeights { sum: u128 },
    NotFound { name: Seq<char> },
    NoPriceData { name: Seq<char>, date: i64 },
    InsufficientHistory { name: Seq<char> },
    Provider { detail: Seq<char> },
    OutOfRange,
}

impl View for Failure {
    type V = FailureView;

    open spec fn view(&self) -> FailureView {
        match *self {
            Failure::InvalidWeights { sum } => FailureView::InvalidWeights { sum },
            Failure::NotFound { name } => FailureView::NotFound { name: name@ },
            Failure::NoPriceData { name, date } => FailureView::NoPriceData { name: name@, date },
            Failure::InsufficientHistory { name } => FailureView::InsufficientHistory {
                name: name@,
            },
            Failure::Provider { detail } => FailureView::Provider { detail: detail@ },
            Failure::OutOfRange => FailureView::OutOfRange,
        }
    }
}

} // verus!
