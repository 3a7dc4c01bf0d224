//! Growth factors and rates of return, counted in billionths and rounded
//! down to the billionth wherever a division leaves a remainder.

use crate::quantity::{MAX_GROWTH, UNIT};
use vstd::arithmetic::div_mod::{
    lemma_div_is_ordered, lemma_div_multiples_vanish, lemma_div_pos_is_pos,
    lemma_fundamental_div_mod, lemma_hoist_over_denominator,
};
use vstd::prelude::*;

verus! {

/// The trading days of a year, over which a daily return is compounded.
pub const TRADING_DAYS: u64 = 252;

/// The growth factor from the price `from` to the price `to`: `to / from`,
/// in billionths.
pub open spec fn growth_of(from: u64, to: u64) -> int {
    (to * UNIT) / (from as int)
}

/// Whether there is a growth factor from the price `from` to the price `to`
/// that the library computes with: there is none from a price of zero, and
/// none beyond `MAX_GROWTH`.
pub open spec fn in_range(from: u64, to: u64) -> bool {
    from >= 1 && growth_of(from, to) <= MAX_GROWTH
}

/// The growth factor is the quotient of the prices rounded down to the
/// billionth: `to / from` lies from it to less than a billionth above it.
pub proof fn law_growth_rounds_down(from: u64, to: u64)
    requires
        from >= 1,
    ensures
        growth_of(from, to) * from <= to * UNIT < (growth_of(from, to) + 1) * from,
{
    let factor = growth_of(from, to);
    lemma_fundamental_div_mod(to * UNIT, from as int);
    assert((factor + 1) * from == from * factor + from) by (nonlinear_arith);
    assert(factor * from == from * factor) by (nonlinear_arith);
}

/// The growth factor from one price to another, or `None` where there is
/// none in range.
pub fn growth(from: u64, to: u64) -> (r: Option<u64>)
    ensures
        r == if in_range(from, to) {
            Some(growth_of(from, to) as u64)
        } else {
            None
        },
{
    if from == 0 {
        return None;
    }
    assert(to * UNIT <= 0xffff_ffff_ffff_ffff * 1_000_000_000) by (nonlinear_arith)
        requires
            to <= 0xffff_ffff_ffff_ffff,
            UNIT == 1_000_000_000,
    ;
    let factor: u128 = (to as u128 * UNIT as u128) / from as u128;
    if factor > MAX_GROWTH as u128 {
        None
    } else {
        Some(factor as u64)
    }
}

/// The sum of the values.
pub open spec fn total(values: Seq<int>) -> int
    decreases values.len(),
{
    if values.len() == 0 {
        0
    } else {
        total(values.drop_last()) + values.last()
    }
}

/// The rates of return from each price of a series to the next:
/// `p[k + 1] / p[k] - 1`, in billionths.
pub open spec fn daily_returns(prices: Seq<u64>) -> Seq<int> {
    Seq::new(
        if prices.len() == 0 {
            0
        } else {
            (prices.len() - 1) as nat
        },
        |k: int| growth_of(prices[k], prices[k + 1]) - UNIT,
    )
}

/// Whether there is no growth factor in range from some price of the series
/// to the next.
pub open spec fn outgrown(prices: Seq<u64>) -> bool {
    exists|k: int| 0 <= k < prices.len() - 1 && !#[trigger] in_range(prices[k], prices[k + 1])
}

/// The average of the daily returns of a series of at least two prices, in
/// billionths.
pub open spec fn average_of(prices: Seq<u64>) -> int {
    total(daily_returns(prices)) / (prices.len() - 1)
}

/// Why a series of prices has no average daily return.
#[derive(Debug, Clone, Copy, PartialEq, Eq)]
pub enum Fault {
    /// The series has fewer than two prices.
    TooShort,
    /// There is no growth factor in range from a price to the next.
    OutOfRange,
}

/// The average daily return of a series of prices, where it has one.
pub open spec fn average_daily_return_of(prices: Seq<u64>) -> Result<int, Fault> {
    if prices.len() < 2 {
        Err(Fault::TooShort)
    } else if outgrown(prices) {
        Err(Fault::OutOfRange)
    } else {
        Ok(average_of(prices))
    }
}

/// The sum of values with one more value at the end.
proof fn lemma_total_push(values: Seq<int>, value: int)
    ensures
        total(values.push(value)) == total(values) + value,
{
    assert(values.push(value).drop_last() =~= values);
}

/// The average of the daily returns of a series of prices, oldest first.
pub fn average_daily_return(prices: &Vec<u64>) -> (r: Result<i64, Fault>)
    ensures
        match average_daily_return_of(prices@) {
            Ok(rate) => r == Ok::<i64, Fault>(rate as i64) && -UNIT <= rate <= MAX_GROWTH - UNIT,
            Err(fault) => r == Err::<i64, Fault>(fault),
        },
{
    if prices.len() < 2 {
        return Err(Fault::TooShort);
    }
    let days: usize = prices.len() - 1;
    let mut sum: u128 = 0;
    let mut k: usize = 0;
    while k < days
        invariant
            k <= days,
            days == prices@.len() - 1,
            forall|j: int| 0 <= j < k ==> #[trigger] in_range(prices@[j], prices@[j + 1]),
            sum == total(daily_returns(prices@).take(k as int)) + k * UNIT,
            sum <= k * MAX_GROWTH,
        decreases days - k,
    {
        let factor = match growth(prices[k], prices[k + 1]) {
            Some(factor) => factor,
            None => {
                assert(!in_range(prices@[k as int], prices@[k as int + 1]));
                return Err(Fault::OutOfRange);
            },
        };
        proof {
            let rates = daily_returns(prices@);
            assert(rates.take(k as int + 1) =~= rates.take(k as int).push(rates[k as int]));
            lemma_total_push(rates.take(k as int), rates[k as int]);
            assert((k + 1) * UNIT == k * UNIT + UNIT) by (nonlinear_arith);
            assert((k + 1) * MAX_GROWTH == k * MAX_GROWTH + MAX_GROWTH) by (nonlinear_arith);
            assert(k * MAX_GROWTH <= (days - 1) * MAX_GROWTH) by (nonlinear_arith)
                requires
                    k <= days - 1,
            ;
            assert((days - 1) * MAX_GROWTH + MAX_GROWTH <= 0xffff_ffff_ffff_ffff
                * 0x7fff_ffff_ffff_ffff) by (nonlinear_arith)
                requires
                    days <= 0xffff_ffff_ffff_ffff,
                    MAX_GROWTH == 0x7fff_ffff_ffff_ffff,
            ;
        }
        sum = sum + factor as u128;
        k = k + 1;
    }
    proof {
        let rates = daily_returns(prices@);
        assert(rates.take(days as int) =~= rates);
        assert(!outgrown(prices@));
        lemma_hoist_over_denominator(total(rates), UNIT as int, days as nat);
        assert(total(rates) + UNIT * days == sum) by (nonlinear_arith)
            requires
                sum == total(rates) + days * UNIT,
        ;
        lemma_div_is_ordered(sum as int, days * MAX_GROWTH, days as int);
        lemma_div_multiples_vanish(MAX_GROWTH as int, days as int);
        assert(days * MAX_GROWTH == days as int * MAX_GROWTH as int);
        assert(days as int * MAX_GROWTH as int == MAX_GROWTH as int * days as int)
            by (nonlinear_arith);
        lemma_div_pos_is_pos(sum as int, days as int);
    }
    let average: u128 = sum / days as u128;
    Ok((average as i128 - UNIT as i128) as i64)
}

/// What the growth factor `base` comes to when it is applied `periods`
/// times over, each product rounded down to the billionth.
pub open spec fn compounded(base: int, periods: nat) -> int
    decreases periods,
{
    if periods == 0 {
        UNIT as int
    } else {
        compounded(base, (periods - 1) as nat) * base / (UNIT as int)
    }
}

/// Compounding a growth factor that is not negative leaves nothing
/// negative, and stays on the side of one whole on which the factor is.
proof fn lemma_compounded_bounds(base: int, periods: nat)
    requires
        0 <= base,
    ensures
        0 <= compounded(base, periods),
        base <= UNIT ==> compounded(base, periods) <= UNIT,
        base >= UNIT ==> compounded(base, periods) >= UNIT,
    decreases periods,
{
    if periods > 0 {
        let before = compounded(base, (periods - 1) as nat);
        lemma_compounded_bounds(base, (periods - 1) as nat);
        assert(0 <= before * base) by (nonlinear_arith)
            requires
                0 <= before,
                0 <= base,
        ;
        lemma_div_pos_is_pos(before * base, UNIT as int);
        if base <= UNIT {
            assert(before * base <= UNIT * UNIT) by (nonlinear_arith)
                requires
                    0 <= before <= UNIT,
                    0 <= base <= UNIT,
            ;
            lemma_div_is_ordered(before * base, UNIT * UNIT, UNIT as int);
            lemma_div_multiples_vanish(UNIT as int, UNIT as int);
        }
        if base >= UNIT {
            assert(before * base >= UNIT * UNIT) by (nonlinear_arith)
                requires
                    before >= UNIT,
                    base >= UNIT,
            ;
            lemma_div_is_ordered(UNIT * UNIT, before * base, UNIT as int);
            lemma_div_multiples_vanish(UNIT as int, UNIT as int);
        }
    }
}

/// A growth factor of one whole or more comes to no less when it is
/// compounded further.
proof fn lemma_compounded_grows(base: int, sooner: nat, later: nat)
    requires
        base >= UNIT,
        sooner <= later,
    ensures
        compounded(base, sooner) <= compounded(base, later),
    decreases later,
{
    if sooner < later {
        let before = compounded(base, (later - 1) as nat);
        lemma_compounded_grows(base, sooner, (later - 1) as nat);
        lemma_compounded_bounds(base, (later - 1) as nat);
        assert(before * UNIT <= before * base) by (nonlinear_arith)
            requires
                0 <= before,
                UNIT <= base,
        ;
        lemma_div_is_ordered(before * UNIT, before * base, UNIT as int);
        lemma_div_multiples_vanish(before, UNIT as int);
    }
}

/// Applies a growth factor `periods` times over; `None` where what it comes
/// to is beyond `MAX_GROWTH`.
pub fn compound(base: u64, periods: u64) -> (r: Option<u64>)
    ensures
        0 <= compounded(base as int, periods as nat),
        r == if compounded(base as int, periods as nat) <= MAX_GROWTH {
            Some(compounded(base as int, periods as nat) as u64)
        } else {
            None
        },
{
    proof {
        lemma_compounded_bounds(base as int, periods as nat);
    }
    let mut reached: u64 = UNIT;
    let mut k: u64 = 0;
    while k < periods
        invariant
            k <= periods,
            reached == compounded(base as int, k as nat),
            reached <= MAX_GROWTH,
        decreases periods - k,
    {
        assert(reached * base <= 0x7fff_ffff_ffff_ffff * 0xffff_ffff_ffff_ffff)
            by (nonlinear_arith)
            requires
                reached <= 0x7fff_ffff_ffff_ffff,
                base <= 0xffff_ffff_ffff_ffff,
        ;
        let next: u128 = reached as u128 * base as u128 / UNIT as u128;
        if next > MAX_GROWTH as u128 {
            proof {
                lemma_compounded_bounds(base as int, (k + 1) as nat);
                lemma_compounded_grows(base as int, (k + 1) as nat, periods as nat);
            }
            return None;
        }
        reached = next as u64;
        k = k + 1;
    }
    Some(reached)
}

} // verus!
