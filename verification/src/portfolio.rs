//! A portfolio: stocks, each with its share of an investment, and the profit
//! that the investment made between two dates.

use crate::candle::{Fetched, FetchedView};
use crate::failure::{Failure, FailureView};
use crate::holding::{
    assembled, distinct, holds, lemma_assembled, lemma_weight_sum_bounds,
    lemma_weight_sum_update, place, put, weight_sum,
};
use crate::quantity::{MAX_GROWTH, UNIT};
use crate::rate::{average_daily_return, compound, growth, Fault, TRADING_DAYS};
use crate::stock::{confirmed, Stock};
use crate::valuation::{
    annualized_profit_of, daily_return_of, first_failure, lemma_first_failure_at,
    lemma_weighted_push, profit_of, rates_in, stock_daily_returns, stock_returns, weighted,
    EndsView,
};
use vstd::arithmetic::div_mod::{
    lemma_div_is_ordered, lemma_div_multiples_vanish, lemma_div_pos_is_pos,
    lemma_hoist_over_denominator,
};
use vstd::prelude::*;

verus! {

/// The entries of a portfolio to be, each with its name as a sequence of
/// characters.
pub open spec fn entries_of(list: Seq<(&str, u64)>) -> Seq<(Seq<char>, nat)> {
    Seq::new(list.len(), |i: int| (list[i].0@, list[i].1 as nat))
}

/// The stocks of a portfolio and their weights, each stock by its name.
pub open spec fn holdings_of(list: Seq<(Stock, u64)>) -> Seq<(Seq<char>, nat)> {
    Seq::new(list.len(), |i: int| (list[i].0@, list[i].1 as nat))
}

/// The provider's answers on one stock for the profit between two dates.
#[derive(Debug, Clone, PartialEq, Eq)]
pub struct Ends {
    /// What came of the request for the price on the earlier date.
    pub from: Fetched,
    /// What came of the request for the price on the later date.
    pub to: Fetched,
}

impl View for Ends {
    type V = EndsView;

    open spec fn view(&self) -> EndsView {
        EndsView { from: self.from@, to: self.to@ }
    }
}

/// The answers on the holdings of a portfolio for the profit between two
/// dates, as specifications see them.
pub open spec fn ends_of(list: Seq<Ends>) -> Seq<EndsView> {
    Seq::new(list.len(), |i: int| list[i]@)
}

/// The answers on the holdings of a portfolio for their closing prices over
/// a range of dates, as specifications see them.
pub open spec fn answers_of(list: Seq<Fetched>) -> Seq<FetchedView> {
    Seq::new(list.len(), |i: int| list[i]@)
}

/// The rates as whole numbers without bounds.
pub open spec fn rates_of(list: Seq<i64>) -> Seq<int> {
    Seq::new(list.len(), |i: int| list[i] as int)
}

/// Stocks, each with the share of the investment that is held in it. No
/// stock is held twice, and the shares come to exactly one whole.
///
/// The stocks are held as a list, in the order in which they were first
/// entered: that order is the one in which the answers for them are handed
/// in, and the one in which a failure is looked for. A share of zero is
/// admitted, and so is an investment of zero: of the entries only the sum of
/// the weights is checked.
#[derive(Debug)]
pub struct Portfolio {
    stocks: Vec<(Stock, u64)>,
    investment: u64,
}

/// A portfolio in the making: entries whose weights come to one whole, of
/// which the provider has confirmed the first few.
#[derive(Debug)]
pub struct Draft<'a> {
    entries: Vec<(&'a str, u64)>,
    investment: u64,
    checked: usize,
    stocks: Vec<(Stock, u64)>,
}

/// How far the making of a portfolio has come.
#[derive(Debug)]
pub enum Assembly<'a> {
    /// An entry is still to be confirmed.
    Pending(Draft<'a>),
    /// Every entry is confirmed.
    Complete(Portfolio),
}

/// Holds `weight` more in the stock: on top of what is held in it already,
/// or as a holding of its own where none of it is held yet.
fn put_stock(stocks: &mut Vec<(Stock, u64)>, stock: Stock, weight: u64)
    requires
        distinct(holdings_of(old(stocks)@)),
        weight_sum(holdings_of(old(stocks)@)) + weight <= u64::MAX,
    ensures
        holdings_of(final(stocks)@) == put(holdings_of(old(stocks)@), stock@, weight as nat),
{
    let ghost before = holdings_of(stocks@);
    let mut i: usize = 0;
    while i < stocks.len()
        invariant
            i <= stocks.len(),
            holdings_of(stocks@) == before,
            holdings_of(old(stocks)@) == before,
            distinct(before),
            weight_sum(before) + weight <= u64::MAX,
            forall|k: int| 0 <= k < i ==> (#[trigger] before[k]).0 != stock@,
        decreases stocks.len() - i,
    {
        if stocks[i].0 == stock {
            let held: u64 = stocks[i].1;
            proof {
                assert(before[i as int] == (stock@, held as nat));
                assert(before[i as int].0 == stock@);
                assert(holds(before, stock@));
                let at = place(before, stock@);
                assert(0 <= at < before.len() && before[at].0 == stock@);
                if at < i {
                    assert(before[at].0 != before[i as int].0);
                } else if i < at {
                    assert(before[i as int].0 != before[at].0);
                }
                lemma_weight_sum_update(before, i as int, before[i as int]);
            }
            let ghost name = stock@;
            stocks.set(i, (stock, held + weight));
            assert(holdings_of(stocks@) =~= before.update(
                i as int,
                (name, (held + weight) as nat),
            ));
            return ;
        }
        assert(before[i as int].0 != stock@);
        i = i + 1;
    }
    proof {
        if holds(before, stock@) {
            let at = place(before, stock@);
            assert(before[at].0 != stock@);
        }
    }
    let ghost name = stock@;
    stocks.push((stock, weight));
    assert(holdings_of(stocks@) =~= before.push((name, weight as nat)));
}

impl Portfolio {
    #[verifier::type_invariant]
    spec fn sound(&self) -> bool {
        distinct(holdings_of(self.stocks@)) && weight_sum(holdings_of(self.stocks@)) == UNIT
    }

    /// The stocks held, each by its name and with its weight in billionths.
    pub closed spec fn holdings(&self) -> Seq<(Seq<char>, nat)> {
        holdings_of(self.stocks@)
    }

    /// The amount invested.
    pub closed spec fn invested(&self) -> u64 {
        self.investment
    }

    /// Takes in the entries of a portfolio, each a name and its weight in
    /// billionths, and the amount to invest. The weights have to come to one
    /// whole; where they do, the names are still to be confirmed, one after
    /// the other, by the provider. Nothing else is asked of the entries: a
    /// weight of zero and an investment of zero are admitted, and a name may
    /// be entered more than once, to be held with the sum of its weights.
    pub fn from<'a>(stocks: Vec<(&'a str, u64)>, investment: u64) -> (r: Result<
        Draft<'a>,
        Failure,
    >)
        ensures
            weight_sum(entries_of(stocks@)) == UNIT ==> (r matches Ok(draft) && draft.entries()
                == entries_of(stocks@) && draft.invested() == investment && draft.checked() == 0),
            weight_sum(entries_of(stocks@)) != UNIT ==> (r matches Err(e) && e@ == (
            FailureView::InvalidWeights { sum: weight_sum(entries_of(stocks@)) as u128 })),
    {
        let ghost entries = entries_of(stocks@);
        let mut sum: u128 = 0;
        let mut i: usize = 0;
        while i < stocks.len()
            invariant
                i <= stocks.len(),
                entries == entries_of(stocks@),
                sum == weight_sum(entries.take(i as int)),
                sum <= i * u64::MAX,
            decreases stocks.len() - i,
        {
            proof {
                lemma_weight_sum_bounds(entries, i as int);
                assert((i + 1) * u64::MAX == i * u64::MAX + u64::MAX) by (nonlinear_arith);
                assert((i + 1) * u64::MAX <= 0xffff_ffff_ffff_ffff * 0xffff_ffff_ffff_ffff)
                    by (nonlinear_arith)
                    requires
                        i + 1 <= 0xffff_ffff_ffff_ffff,
                ;
            }
            sum = sum + stocks[i].1 as u128;
            i = i + 1;
        }
        assert(entries.take(stocks.len() as int) =~= entries);
        if sum != UNIT as u128 {
            return Err(Failure::InvalidWeights { sum });
        }
        let none: Vec<(Stock, u64)> = Vec::new();
        proof {
            assert(entries.take(0) =~= Seq::empty());
            assert(holdings_of(none@) =~= assembled(entries.take(0)));
            if stocks.len() == 0 {
                assert(weight_sum(entries) == 0);
            }
        }
        Ok(Draft { entries: stocks, investment, checked: 0, stocks: none })
    }

    /// The stocks held, each with its weight in billionths. No stock is held
    /// twice, the weights come to one whole, and so none is more than that.
    pub fn stocks(&self) -> (r: &Vec<(Stock, u64)>)
        ensures
            holdings_of(r@) == self.holdings(),
            distinct(self.holdings()),
            weight_sum(self.holdings()) == UNIT,
            forall|i: int| 0 <= i < r@.len() ==> (#[trigger] r@[i]).1 <= UNIT,
    {
        proof {
            use_type_invariant(self);
            let holdings = holdings_of(self.stocks@);
            assert forall|i: int| 0 <= i < self.stocks@.len() implies (#[trigger] self.stocks@[i]).1
                <= UNIT by {
                lemma_weight_sum_update(holdings, i, holdings[i]);
            }
        }
        &self.stocks
    }

    /// The amount invested.
    pub fn investment(&self) -> (r: u64)
        ensures
            r == self.invested(),
    {
        self.investment
    }

    /// The rates of the holdings, weighted.
    fn weigh(&self, rates: &Vec<i64>) -> (r: i64)
        requires
            rates@.len() == self.holdings().len(),
            forall|i: int|
                0 <= i < rates@.len() ==> -UNIT <= #[trigger] rates@[i] <= MAX_GROWTH - UNIT,
        ensures
            r == weighted(self.holdings(), rates_of(rates@)) / (UNIT as int),
            -UNIT <= r <= MAX_GROWTH,
    {
        proof {
            use_type_invariant(self);
        }
        let ghost holdings = holdings_of(self.stocks@);
        let ghost all = rates_of(rates@);
        let mut grown: u128 = 0;
        let mut weights: u64 = 0;
        let mut i: usize = 0;
        while i < self.stocks.len()
            invariant
                i <= self.stocks.len(),
                holdings == holdings_of(self.stocks@),
                all == rates_of(rates@),
                rates@.len() == holdings.len(),
                forall|k: int|
                    0 <= k < rates@.len() ==> -UNIT <= #[trigger] rates@[k] <= MAX_GROWTH - UNIT,
                weight_sum(holdings) <= UNIT,
                weights == weight_sum(holdings.take(i as int)),
                grown == weighted(holdings.take(i as int), all.take(i as int)) + UNIT * weights,
                grown <= weights * MAX_GROWTH,
            decreases self.stocks.len() - i,
        {
            let weight: u64 = self.stocks[i].1;
            let rate: i64 = rates[i];
            proof {
                lemma_weight_sum_bounds(holdings, i as int);
                lemma_weight_sum_bounds(holdings, i as int + 1);
                assert(holdings.take(i as int + 1) =~= holdings.take(i as int).push(
                    holdings[i as int],
                ));
                assert(all.take(i as int + 1) =~= all.take(i as int).push(all[i as int]));
                lemma_weighted_push(
                    holdings.take(i as int),
                    all.take(i as int),
                    holdings[i as int],
                    all[i as int],
                );
                assert(weight * (rate + UNIT) == weight * rate + UNIT * weight)
                    by (nonlinear_arith);
                assert(UNIT * (weights + weight) == UNIT * weights + UNIT * weight)
                    by (nonlinear_arith);
                assert(0 <= weight * (rate + UNIT) <= weight * MAX_GROWTH) by (nonlinear_arith)
                    requires
                        0 <= weight,
                        0 <= rate + UNIT <= MAX_GROWTH,
                ;
                assert((weights + weight) * MAX_GROWTH == weights * MAX_GROWTH + weight
                    * MAX_GROWTH) by (nonlinear_arith);
                assert((weights + weight) * MAX_GROWTH <= UNIT * MAX_GROWTH) by (nonlinear_arith)
                    requires
                        weights + weight <= UNIT,
                ;
            }
            let factor: u64 = (rate as i128 + UNIT as i128) as u64;
            grown = grown + weight as u128 * factor as u128;
            weights = weights + weight;
            i = i + 1;
        }
        proof {
            assert(holdings.take(i as int) =~= holdings);
            assert(all.take(i as int) =~= all);
            let sum = weighted(holdings, all);
            lemma_hoist_over_denominator(sum, weights as int, UNIT as nat);
            assert(sum + weights * UNIT == grown) by (nonlinear_arith)
                requires
                    grown == sum + UNIT * weights,
            ;
            assert(weights * MAX_GROWTH <= UNIT * MAX_GROWTH) by (nonlinear_arith)
                requires
                    weights <= UNIT,
            ;
            lemma_div_is_ordered(grown as int, UNIT * MAX_GROWTH, UNIT as int);
            assert(UNIT * MAX_GROWTH == MAX_GROWTH as int * UNIT as int) by (nonlinear_arith);
            lemma_div_multiples_vanish(MAX_GROWTH as int, UNIT as int);
            lemma_div_pos_is_pos(grown as int, UNIT as int);
        }
        ((grown / UNIT as u128) as i128 - weights as i128) as i64
    }

    /// The profit of holding the portfolio from the date `from` to the date
    /// `to`, both Unix times in seconds, in billionths of the unit in which
    /// the investment is counted. `answers` holds, for each stock in the
    /// order of `stocks`, what came of the requests for its price on the two
    /// dates; a stock for which it holds nothing has no price data.
    pub fn profit(&self, from: i64, to: i64, answers: &Vec<Ends>) -> (r: Result<i128, Failure>)
        ensures
            match profit_of(self.holdings(), self.invested(), from, to, ends_of(answers@)) {
                Ok(profit) => r == Ok::<i128, Failure>(profit as i128) && i128::MIN <= profit
                    <= i128::MAX,
                Err(failure) => r matches Err(e) && e@ == failure,
            },
    {
        let ghost holdings = holdings_of(self.stocks@);
        let ghost outcomes = stock_returns(holdings, from, to, ends_of(answers@));
        let mut rates: Vec<i64> = Vec::new();
        let mut i: usize = 0;
        while i < self.stocks.len()
            invariant
                i <= self.stocks.len(),
                holdings == holdings_of(self.stocks@),
                outcomes == stock_returns(holdings, from, to, ends_of(answers@)),
                rates@.len() == i,
                first_failure(outcomes.take(i as int)) is None,
                forall|k: int|
                    0 <= k < i ==> outcomes[k] == Ok::<int, FailureView>(
                        #[trigger] rates@[k] as int,
                    ) && -UNIT <= rates@[k] <= MAX_GROWTH - UNIT,
            decreases self.stocks.len() - i,
        {
            let stock = &self.stocks[i].0;
            proof {
                assert(outcomes.take(i as int + 1).drop_last() =~= outcomes.take(i as int));
                assert(holdings[i as int].0 == stock@);
            }
            if i >= answers.len() {
                proof {
                    lemma_first_failure_at(outcomes, i as int);
                }
                return Err(Failure::NoPriceData { name: stock.name().to_owned(), date: to });
            }
            assert(ends_of(answers@)[i as int] == answers@[i as int]@);
            let last = match stock.price(to, &answers[i].to) {
                Ok(price) => price,
                Err(failure) => {
                    proof {
                        lemma_first_failure_at(outcomes, i as int);
                    }
                    return Err(failure);
                },
            };
            let first = match stock.price(from, &answers[i].from) {
                Ok(price) => price,
                Err(failure) => {
                    proof {
                        lemma_first_failure_at(outcomes, i as int);
                    }
                    return Err(failure);
                },
            };
            let factor = match growth(first, last) {
                Some(factor) => factor,
                None => {
                    proof {
                        lemma_first_failure_at(outcomes, i as int);
                    }
                    return Err(Failure::OutOfRange);
                },
            };
            rates.push((factor as i128 - UNIT as i128) as i64);
            i = i + 1;
        }
        proof {
            assert(outcomes.take(i as int) =~= outcomes);
            assert(rates_in(outcomes) =~= rates_of(rates@));
        }
        let rate: i64 = self.weigh(&rates);
        assert(-0x8000_0000_0000_0000_0000_0000_0000_0000 < rate * self.investment
            < 0x8000_0000_0000_0000_0000_0000_0000_0000) by (nonlinear_arith)
            requires
                -1_000_000_000 <= rate <= 0x7fff_ffff_ffff_ffff,
                0 <= self.investment <= 0xffff_ffff_ffff_ffff,
        ;
        Ok(rate as i128 * self.investment as i128)
    }

    /// The average daily return of the portfolio over a range of dates, in
    /// billionths. `answers` holds, for each stock in the order of `stocks`,
    /// what came of the request for its closing prices over that range; a
    /// stock for which it holds nothing has no history.
    pub fn avg_daily_return(&self, answers: &Vec<Fetched>) -> (r: Result<i64, Failure>)
        ensures
            match daily_return_of(self.holdings(), answers_of(answers@)) {
                Ok(rate) => r == Ok::<i64, Failure>(rate as i64) && -UNIT <= rate <= MAX_GROWTH,
                Err(failure) => r matches Err(e) && e@ == failure,
            },
    {
        let ghost holdings = holdings_of(self.stocks@);
        let ghost outcomes = stock_daily_returns(holdings, answers_of(answers@));
        let mut rates: Vec<i64> = Vec::new();
        let mut i: usize = 0;
        while i < self.stocks.len()
            invariant
                i <= self.stocks.len(),
                holdings == holdings_of(self.stocks@),
                outcomes == stock_daily_returns(holdings, answers_of(answers@)),
                rates@.len() == i,
                first_failure(outcomes.take(i as int)) is None,
                forall|k: int|
                    0 <= k < i ==> outcomes[k] == Ok::<int, FailureView>(
                        #[trigger] rates@[k] as int,
                    ) && -UNIT <= rates@[k] <= MAX_GROWTH - UNIT,
            decreases self.stocks.len() - i,
        {
            let stock = &self.stocks[i].0;
            proof {
                assert(outcomes.take(i as int + 1).drop_last() =~= outcomes.take(i as int));
                assert(holdings[i as int].0 == stock@);
            }
            if i >= answers.len() {
                proof {
                    lemma_first_failure_at(outcomes, i as int);
                }
                return Err(Failure::InsufficientHistory { name: stock.name().to_owned() });
            }
            assert(answers_of(answers@)[i as int] == answers@[i as int]@);
            let prices = match stock.prices(&answers[i]) {
                Ok(prices) => prices,
                Err(failure) => {
                    proof {
                        lemma_first_failure_at(outcomes, i as int);
                    }
                    return Err(failure);
                },
            };
            let rate = match average_daily_return(&prices) {
                Ok(rate) => rate,
                Err(Fault::TooShort) => {
                    proof {
                        lemma_first_failure_at(outcomes, i as int);
                    }
                    return Err(Failure::InsufficientHistory { name: stock.name().to_owned() });
                },
                Err(Fault::OutOfRange) => {
                    proof {
                        lemma_first_failure_at(outcomes, i as int);
                    }
                    return Err(Failure::OutOfRange);
                },
            };
            rates.push(rate);
            i = i + 1;
        }
        proof {
            assert(outcomes.take(i as int) =~= outcomes);
            assert(rates_in(outcomes) =~= rates_of(rates@));
        }
        Ok(self.weigh(&rates))
    }

    /// The profit of holding the portfolio for a year at the average daily
    /// return that it had over a range of dates, in billionths of the unit in
    /// which the investment is counted. `answers` holds, for each stock in
    /// the order of `stocks`, what came of the request for its closing prices
    /// over that range; a stock for which it holds nothing has no history.
    pub fn annualized_profit(&self, answers: &Vec<Fetched>) -> (r: Result<i128, Failure>)
        ensures
            match annualized_profit_of(self.holdings(), self.invested(), answers_of(answers@)) {
                Ok(profit) => r == Ok::<i128, Failure>(profit as i128) && i128::MIN <= profit
                    <= i128::MAX,
                Err(failure) => r matches Err(e) && e@ == failure,
            },
    {
        let rate: i64 = match self.avg_daily_return(answers) {
            Ok(rate) => rate,
            Err(failure) => {
                return Err(failure);
            },
        };
        let base: u64 = (UNIT as i128 + rate as i128) as u64;
        let grown: u64 = match compound(base, TRADING_DAYS) {
            Some(grown) => grown,
            None => {
                return Err(Failure::OutOfRange);
            },
        };
        let gained: i128 = grown as i128 - UNIT as i128;
        assert(-0x8000_0000_0000_0000_0000_0000_0000_0000 < gained * self.investment
            < 0x8000_0000_0000_0000_0000_0000_0000_0000) by (nonlinear_arith)
            requires
                -1_000_000_000 <= gained <= 0x7fff_ffff_ffff_ffff,
                0 <= self.investment <= 0xffff_ffff_ffff_ffff,
        ;
        Ok(gained * self.investment as i128)
    }
}

impl<'a> Draft<'a> {
    #[verifier::type_invariant]
    spec fn sound(&self) -> bool {
        &&& self.checked < self.entries@.len()
        &&& weight_sum(entries_of(self.entries@)) == UNIT
        &&& holdings_of(self.stocks@) == assembled(
            entries_of(self.entries@).take(self.checked as int),
        )
    }

    /// The entries that the portfolio is made of.
    pub closed spec fn entries(&self) -> Seq<(Seq<char>, nat)> {
        entries_of(self.entries@)
    }

    /// The amount to invest.
    pub closed spec fn invested(&self) -> u64 {
        self.investment
    }

    /// The number of entries that are confirmed. It stays below the number
    /// of entries: a draft has an entry to confirm.
    pub closed spec fn checked(&self) -> nat {
        self.checked as nat
    }

    /// The stocks held so far, each by its name and with its weight in
    /// billionths.
    pub closed spec fn held(&self) -> Seq<(Seq<char>, nat)> {
        holdings_of(self.stocks@)
    }

    /// The name that is to be confirmed next.
    pub open spec fn awaited(&self) -> Seq<char> {
        self.entries()[self.checked() as int].0
    }

    /// The name that is to be confirmed next: that of the first entry not
    /// confirmed yet.
    pub fn pending(&self) -> (r: &'a str)
        ensures
            self.checked() < self.entries().len(),
            weight_sum(self.entries()) == UNIT,
            self.held() == assembled(self.entries().take(self.checked() as int)),
            r@ == self.awaited(),
    {
        proof {
            use_type_invariant(self);
        }
        self.entries[self.checked].0
    }

    /// Takes in the provider's answer to the request for the latest closing
    /// price of the pending name. Where the answer confirms the name, the
    /// entry's weight is held in its stock, on top of what earlier entries
    /// of that name have put there, and the next entry is pending, or the
    /// portfolio is complete; where it does not, the portfolio is not made.
    pub fn confirm(self, fetched: &Fetched) -> (r: Result<Assembly<'a>, Failure>)
        ensures
            match confirmed(self.awaited(), fetched@) {
                Err(failure) => r matches Err(e) && e@ == failure,
                Ok(_) => match r {
                    Ok(Assembly::Pending(draft)) => {
                        &&& self.checked() + 1 < self.entries().len()
                        &&& draft.entries() == self.entries()
                        &&& draft.invested() == self.invested()
                        &&& draft.checked() == self.checked() + 1
                    },
                    Ok(Assembly::Complete(portfolio)) => {
                        &&& self.checked() + 1 == self.entries().len()
                        &&& portfolio.holdings() == assembled(self.entries())
                        &&& distinct(portfolio.holdings())
                        &&& weight_sum(portfolio.holdings()) == UNIT
                        &&& portfolio.invested() == self.invested()
                    },
                    Err(_) => false,
                },
            },
    {
        proof {
            use_type_invariant(&self);
        }
        let ghost all = entries_of(self.entries@);
        let Draft { entries, investment, checked, mut stocks } = self;
        assert(checked < entries.len());
        let weight = entries[checked].1;
        let stock = match Stock::new(entries[checked].0, fetched) {
            Ok(stock) => stock,
            Err(failure) => {
                return Err(failure);
            },
        };
        proof {
            lemma_assembled(all.take(checked as int));
            lemma_weight_sum_bounds(all, checked as int);
            lemma_weight_sum_bounds(all, checked as int + 1);
            assert(all.take(checked as int + 1).drop_last() =~= all.take(checked as int));
        }
        put_stock(&mut stocks, stock, weight);
        if checked + 1 == entries.len() {
            proof {
                assert(all.take(checked as int + 1) =~= all);
                lemma_assembled(all);
            }
            Ok(Assembly::Complete(Portfolio { stocks, investment }))
        } else {
            Ok(Assembly::Pending(Draft { entries, investment, checked: checked + 1, stocks }))
        }
    }
}

} // verus!
