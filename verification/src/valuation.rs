//! What a portfolio has earned, stated over its holdings and the provider's
//! answers: the profit between two dates, and the profit of a year at the
//! average daily return of a range of dates.

use crate::candle::FetchedView;
use crate::failure::FailureView;
use crate::quantity::{MAX_GROWTH, UNIT};
use crate::rate::{
    average_daily_return_of, compounded, growth_of, in_range, Fault, TRADING_DAYS,
};
use crate::stock::{lemma_price_positive, price_of, prices_of};
use vstd::arithmetic::div_mod::lemma_div_multiples_vanish;
use vstd::prelude::*;

verus! {

/// The provider's answers on one stock for the profit between two dates, as
/// specifications see them.
pub struct EndsView {
    /// The answer to the request for the price on the earlier date.
    pub from: FetchedView,
    /// The answer to the request for the price on the later date.
    pub to: FetchedView,
}

/// The first failure among the outcomes, where one of them is a failure.
pub open spec fn first_failure(outcomes: Seq<Result<int, FailureView>>) -> Option<FailureView>
    decreases outcomes.len(),
{
    if outcomes.len() == 0 {
        None
    } else {
        match first_failure(outcomes.drop_last()) {
            Some(failure) => Some(failure),
            None => match outcomes.last() {
                Err(failure) => Some(failure),
                Ok(_) => None,
            },
        }
    }
}

/// The rate that an outcome holds, where it holds one.
pub open spec fn rate_in(outcome: Result<int, FailureView>) -> int {
    match outcome {
        Ok(rate) => rate,
        Err(_) => 0,
    }
}

/// The rates that the outcomes hold.
pub open spec fn rates_in(outcomes: Seq<Result<int, FailureView>>) -> Seq<int> {
    Seq::new(outcomes.len(), |i: int| rate_in(outcomes[i]))
}

/// The sum of the rates, each times the weight of its holding.
pub open spec fn weighted(holdings: Seq<(Seq<char>, nat)>, rates: Seq<int>) -> int
    decreases holdings.len(),
{
    if holdings.len() == 0 {
        0
    } else {
        weighted(holdings.drop_last(), rates.drop_last()) + holdings.last().1 * rates.last()
    }
}

/// The rate of return of the stock `name` from the date `from` to the date
/// `to`: the price at `to` over that at `from`, less one. The price at `to`
/// is looked at first.
pub open spec fn stock_return(name: Seq<char>, from: i64, to: i64, answers: EndsView) -> Result<
    int,
    FailureView,
> {
    match price_of(name, to, answers.to) {
        Err(failure) => Err(failure),
        Ok(last) => match price_of(name, from, answers.from) {
            Err(failure) => Err(failure),
            Ok(first) => if in_range(first, last) {
                Ok(growth_of(first, last) - UNIT)
            } else {
                Err(FailureView::OutOfRange)
            },
        },
    }
}

/// The rates of return of the holdings between two dates, each of the
/// answers in its place. A holding for which there are no answers has no
/// price data.
pub open spec fn stock_returns(
    holdings: Seq<(Seq<char>, nat)>,
    from: i64,
    to: i64,
    answers: Seq<EndsView>,
) -> Seq<Result<int, FailureView>> {
    Seq::new(
        holdings.len(),
        |i: int|
            if i < answers.len() {
                stock_return(holdings[i].0, from, to, answers[i])
            } else {
                Err(FailureView::NoPriceData { name: holdings[i].0, date: to })
            },
    )
}

/// The profit of holding the portfolio from the date `from` to the date
/// `to`, in billionths of the unit in which the investment is counted: the
/// rates of return of the holdings, weighted, times the investment. Where
/// the return of a holding cannot be had, the first such failure, in the
/// order of the holdings.
pub open spec fn profit_of(
    holdings: Seq<(Seq<char>, nat)>,
    investment: u64,
    from: i64,
    to: i64,
    answers: Seq<EndsView>,
) -> Result<int, FailureView> {
    let outcomes = stock_returns(holdings, from, to, answers);
    match first_failure(outcomes) {
        Some(failure) => Err(failure),
        None => Ok(weighted(holdings, rates_in(outcomes)) / (UNIT as int) * investment),
    }
}

/// The average daily return of the stock `name` over the range of dates that
/// the answer is about.
pub open spec fn stock_daily_return(name: Seq<char>, answer: FetchedView) -> Result<
    int,
    FailureView,
> {
    match prices_of(answer) {
        Err(failure) => Err(failure),
        Ok(prices) => match average_daily_return_of(prices) {
            Ok(rate) => Ok(rate),
            Err(Fault::TooShort) => Err(FailureView::InsufficientHistory { name }),
            Err(Fault::OutOfRange) => Err(FailureView::OutOfRange),
        },
    }
}

/// The average daily returns of the holdings, each of the answer in its
/// place. A holding for which there is no answer has no history.
pub open spec fn stock_daily_returns(
    holdings: Seq<(Seq<char>, nat)>,
    answers: Seq<FetchedView>,
) -> Seq<Result<int, FailureView>> {
    Seq::new(
        holdings.len(),
        |i: int|
            if i < answers.len() {
                stock_daily_return(holdings[i].0, answers[i])
            } else {
                Err(FailureView::InsufficientHistory { name: holdings[i].0 })
            },
    )
}

/// The average daily return of the portfolio: those of its holdings,
/// weighted. Where that of a holding cannot be had, the first such failure,
/// in the order of the holdings.
pub open spec fn daily_return_of(
    holdings: Seq<(Seq<char>, nat)>,
    answers: Seq<FetchedView>,
) -> Result<int, FailureView> {
    let outcomes = stock_daily_returns(holdings, answers);
    match first_failure(outcomes) {
        Some(failure) => Err(failure),
        None => Ok(weighted(holdings, rates_in(outcomes)) / (UNIT as int)),
    }
}

/// The profit of holding the portfolio for a year at its average daily
/// return, in billionths of the unit in which the investment is counted:
/// one and the daily return, compounded over the trading days of a year,
/// less one, times the investment.
pub open spec fn annualized_profit_of(
    holdings: Seq<(Seq<char>, nat)>,
    investment: u64,
    answers: Seq<FetchedView>,
) -> Result<int, FailureView> {
    match daily_return_of(holdings, answers) {
        Err(failure) => Err(failure),
        Ok(rate) => if compounded(UNIT + rate, TRADING_DAYS as nat) <= MAX_GROWTH {
            Ok((compounded(UNIT + rate, TRADING_DAYS as nat) - UNIT) * investment)
        } else {
            Err(FailureView::OutOfRange)
        },
    }
}

/// The first failure of outcomes of which the first `i` are none and the
/// next is one.
pub proof fn lemma_first_failure_at(outcomes: Seq<Result<int, FailureView>>, i: int)
    requires
        0 <= i < outcomes.len(),
        first_failure(outcomes.take(i)) is None,
        outcomes[i] is Err,
    ensures
        first_failure(outcomes) == Some(outcomes[i]->Err_0),
    decreases outcomes.len(),
{
    if i == outcomes.len() - 1 {
        assert(outcomes.drop_last() =~= outcomes.take(i));
    } else {
        assert(outcomes.drop_last().take(i) =~= outcomes.take(i));
        lemma_first_failure_at(outcomes.drop_last(), i);
    }
}

/// Outcomes have a first failure where one of them is a failure, and only
/// there.
pub proof fn lemma_first_failure(outcomes: Seq<Result<int, FailureView>>)
    ensures
        first_failure(outcomes) is None <==> forall|i: int|
            0 <= i < outcomes.len() ==> (#[trigger] outcomes[i]) is Ok,
    decreases outcomes.len(),
{
    if outcomes.len() > 0 {
        lemma_first_failure(outcomes.drop_last());
        if first_failure(outcomes) is None {
            assert forall|i: int| 0 <= i < outcomes.len() implies (#[trigger] outcomes[i])
                is Ok by {
                if i < outcomes.len() - 1 {
                    assert(outcomes.drop_last()[i] is Ok);
                }
            }
        } else {
            if first_failure(outcomes.drop_last()) is Some {
                let i = choose|i: int|
                    0 <= i < outcomes.drop_last().len() && !((#[trigger] outcomes.drop_last()[i])
                        is Ok);
                assert(!(outcomes[i] is Ok));
            } else {
                assert(!(outcomes[outcomes.len() - 1] is Ok));
            }
        }
    }
}

/// The weighted sum with one more holding and its rate at the end.
pub proof fn lemma_weighted_push(
    holdings: Seq<(Seq<char>, nat)>,
    rates: Seq<int>,
    holding: (Seq<char>, nat),
    rate: int,
)
    ensures
        weighted(holdings.push(holding), rates.push(rate)) == weighted(holdings, rates) + holding.1
            * rate,
{
    assert(holdings.push(holding).drop_last() =~= holdings);
    assert(rates.push(rate).drop_last() =~= rates);
}

/// Rates of zero weigh nothing.
proof fn lemma_weighted_zero(holdings: Seq<(Seq<char>, nat)>, rates: Seq<int>)
    requires
        rates.len() == holdings.len(),
        forall|i: int| 0 <= i < rates.len() ==> rates[i] == 0,
    ensures
        weighted(holdings, rates) == 0,
    decreases holdings.len(),
{
    if holdings.len() > 0 {
        lemma_weighted_zero(holdings.drop_last(), rates.drop_last());
    }
}

/// The profit is in proportion to the investment: with `factor` times the
/// investment, and all else the same, it is `factor` times the profit, and
/// it fails where the profit fails, with the same failure.
pub proof fn law_profit_scales_with_investment(
    holdings: Seq<(Seq<char>, nat)>,
    investment: u64,
    factor: nat,
    scaled: u64,
    from: i64,
    to: i64,
    answers: Seq<EndsView>,
)
    requires
        scaled == factor * investment,
    ensures
        profit_of(holdings, scaled, from, to, answers) == match profit_of(
            holdings,
            investment,
            from,
            to,
            answers,
        ) {
            Ok(profit) => Ok::<int, FailureView>(factor * profit),
            Err(failure) => Err(failure),
        },
{
    let rate = weighted(holdings, rates_in(stock_returns(holdings, from, to, answers))) / (
    UNIT as int);
    assert(rate * (factor * investment) == factor * (rate * investment)) by (nonlinear_arith);
}

/// Between a date and itself nothing is earned: where each holding has one
/// and the same answer for both ends, the profit, where there is one, is
/// zero.
pub proof fn law_no_profit_within_a_day(
    holdings: Seq<(Seq<char>, nat)>,
    investment: u64,
    date: i64,
    answers: Seq<EndsView>,
)
    requires
        forall|i: int| 0 <= i < answers.len() ==> answers[i].from == answers[i].to,
    ensures
        profit_of(holdings, investment, date, date, answers) is Ok ==> profit_of(
            holdings,
            investment,
            date,
            date,
            answers,
        ) == Ok::<int, FailureView>(0),
{
    let outcomes = stock_returns(holdings, date, date, answers);
    if first_failure(outcomes) is None {
        lemma_first_failure(outcomes);
        assert forall|i: int| 0 <= i < outcomes.len() implies rates_in(outcomes)[i] == 0 by {
            assert(outcomes[i] is Ok);
            let price = price_of(holdings[i].0, date, answers[i].to)->Ok_0;
            lemma_price_positive(holdings[i].0, date, answers[i].to);
            lemma_div_multiples_vanish(UNIT as int, price as int);
            assert(price * UNIT == UNIT * price) by (nonlinear_arith);
        }
        lemma_weighted_zero(holdings, rates_in(outcomes));
    }
}

/// The list with what stands at `i` and at `j` changing places.
pub open spec fn swapped<A>(list: Seq<A>, i: int, j: int) -> Seq<A> {
    list.update(i, list[j]).update(j, list[i])
}

/// The weighted sum with another holding and rate in one place.
proof fn lemma_weighted_update(
    holdings: Seq<(Seq<char>, nat)>,
    rates: Seq<int>,
    i: int,
    holding: (Seq<char>, nat),
    rate: int,
)
    requires
        0 <= i < holdings.len(),
        rates.len() == holdings.len(),
    ensures
        weighted(holdings.update(i, holding), rates.update(i, rate)) == weighted(holdings, rates)
            - holdings[i].1 * rates[i] + holding.1 * rate,
    decreases holdings.len(),
{
    if i == holdings.len() - 1 {
        assert(holdings.update(i, holding).drop_last() =~= holdings.drop_last());
        assert(rates.update(i, rate).drop_last() =~= rates.drop_last());
    } else {
        assert(holdings.update(i, holding).drop_last() =~= holdings.drop_last().update(
            i,
            holding,
        ));
        assert(rates.update(i, rate).drop_last() =~= rates.drop_last().update(i, rate));
        lemma_weighted_update(holdings.drop_last(), rates.drop_last(), i, holding, rate);
    }
}

/// The weighted sum is the same in whatever order the holdings stand.
pub proof fn lemma_weighted_swapped(
    holdings: Seq<(Seq<char>, nat)>,
    rates: Seq<int>,
    i: int,
    j: int,
)
    requires
        0 <= i < holdings.len(),
        0 <= j < holdings.len(),
        rates.len() == holdings.len(),
    ensures
        weighted(swapped(holdings, i, j), swapped(rates, i, j)) == weighted(holdings, rates),
{
    lemma_weighted_update(holdings, rates, i, holdings[j], rates[j]);
    lemma_weighted_update(
        holdings.update(i, holdings[j]),
        rates.update(i, rates[j]),
        j,
        holdings[i],
        rates[i],
    );
}

/// Outcomes without a failure have none in another order either, and hold
/// the same rates in that order.
proof fn lemma_outcomes_swapped(outcomes: Seq<Result<int, FailureView>>, i: int, j: int)
    requires
        0 <= i < outcomes.len(),
        0 <= j < outcomes.len(),
        first_failure(outcomes) is None,
    ensures
        first_failure(swapped(outcomes, i, j)) is None,
        rates_in(swapped(outcomes, i, j)) == swapped(rates_in(outcomes), i, j),
{
    let other = swapped(outcomes, i, j);
    lemma_first_failure(outcomes);
    lemma_first_failure(other);
    assert forall|k: int| 0 <= k < other.len() implies (#[trigger] other[k]) is Ok by {
        if k == j {
            assert(outcomes[i] is Ok);
        } else if k == i {
            assert(outcomes[j] is Ok);
        } else {
            assert(outcomes[k] is Ok);
        }
    }
    assert(rates_in(other) =~= swapped(rates_in(outcomes), i, j));
}

/// The profit does not depend on the order of the holdings: with two of them
/// changing places, and their answers with them, it is the same profit.
pub proof fn law_profit_whatever_the_order(
    holdings: Seq<(Seq<char>, nat)>,
    investment: u64,
    from: i64,
    to: i64,
    answers: Seq<EndsView>,
    i: int,
    j: int,
)
    requires
        answers.len() == holdings.len(),
        0 <= i < holdings.len(),
        0 <= j < holdings.len(),
    ensures
        profit_of(holdings, investment, from, to, answers) is Ok ==> profit_of(
            swapped(holdings, i, j),
            investment,
            from,
            to,
            swapped(answers, i, j),
        ) == profit_of(holdings, investment, from, to, answers),
{
    let outcomes = stock_returns(holdings, from, to, answers);
    if first_failure(outcomes) is None {
        assert(stock_returns(swapped(holdings, i, j), from, to, swapped(answers, i, j))
            =~= swapped(outcomes, i, j));
        lemma_outcomes_swapped(outcomes, i, j);
        lemma_weighted_swapped(holdings, rates_in(outcomes), i, j);
    }
}

/// The profit of a year does not depend on the order of the holdings: with
/// two of them changing places, and their answers with them, it is the same
/// profit.
pub proof fn law_annualized_profit_whatever_the_order(
    holdings: Seq<(Seq<char>, nat)>,
    investment: u64,
    answers: Seq<FetchedView>,
    i: int,
    j: int,
)
    requires
        answers.len() == holdings.len(),
        0 <= i < holdings.len(),
        0 <= j < holdings.len(),
    ensures
        annualized_profit_of(holdings, investment, answers) is Ok ==> annualized_profit_of(
            swapped(holdings, i, j),
            investment,
            swapped(answers, i, j),
        ) == annualized_profit_of(holdings, investment, answers),
{
    let outcomes = stock_daily_returns(holdings, answers);
    if first_failure(outcomes) is None {
        assert(stock_daily_returns(swapped(holdings, i, j), swapped(answers, i, j)) =~= swapped(
            outcomes,
            i,
            j,
        ));
        lemma_outcomes_swapped(outcomes, i, j);
        lemma_weighted_swapped(holdings, rates_in(outcomes), i, j);
    }
}

/// A stock with fewer than two closing prices in the range has no daily
/// return: the profit of a year then fails, and where no holding before
/// that one fails, it fails for want of that stock's history.
pub proof fn law_short_history_fails(
    holdings: Seq<(Seq<char>, nat)>,
    investment: u64,
    answers: Seq<FetchedView>,
    i: int,
)
    requires
        0 <= i < holdings.len(),
        i < answers.len(),
        prices_of(answers[i]) matches Ok(prices) && prices.len() < 2,
    ensures
        annualized_profit_of(holdings, investment, answers) is Err,
        first_failure(stock_daily_returns(holdings, answers).take(i)) is None
            ==> annualized_profit_of(holdings, investment, answers) == Err::<int, FailureView>(
            FailureView::InsufficientHistory { name: holdings[i].0 },
        ),
{
    let outcomes = stock_daily_returns(holdings, answers);
    assert(outcomes[i] == Err::<int, FailureView>(
        FailureView::InsufficientHistory { name: holdings[i].0 },
    ));
    lemma_first_failure(outcomes);
    if first_failure(outcomes.take(i)) is None {
        lemma_first_failure_at(outcomes, i);
    }
}

} // verus!
