//! The requests put to the provider: the address under which it lists the
//! daily candles of a stock between two moments.

use vstd::prelude::*;

verus! {

/// The days before a date in which its latest closing price is looked for,
/// in seconds: four days, so that a weekend or a holiday is stepped over.
pub const LOOKBACK: i64 = 345_600;

/// The character that writes a digit.
pub open spec fn digit_char(digit: int) -> char {
    if digit == 0 {
        '0'
    } else if digit == 1 {
        '1'
    } else if digit == 2 {
        '2'
    } else if digit == 3 {
        '3'
    } else if digit == 4 {
        '4'
    } else if digit == 5 {
        '5'
    } else if digit == 6 {
        '6'
    } else if digit == 7 {
        '7'
    } else if digit == 8 {
        '8'
    } else {
        '9'
    }
}

/// A natural number written in decimal digits, without leading zeros.
pub open spec fn decimal_of_nat(n: nat) -> Seq<char>
    decreases n,
{
    if n < 10 {
        seq![digit_char(n as int)]
    } else {
        decimal_of_nat(n / 10).push(digit_char((n % 10) as int))
    }
}

/// A whole number written in decimal digits, with a minus sign in front
/// where it is negative.
pub open spec fn decimal(n: int) -> Seq<char> {
    if n < 0 {
        seq!['-'] + decimal_of_nat((-n) as nat)
    } else {
        decimal_of_nat(n as nat)
    }
}

/// The address of the daily candles of `symbol` from `from` to `to`, both
/// Unix times in seconds, for the holder of `token`.
pub open spec fn candle_url(symbol: Seq<char>, from: int, to: int, token: Seq<char>) -> Seq<
    char,
> {
    "https://finnhub.io/api/v1/stock/candle?symbol="@ + symbol + "&resolution="@ + "D"@
        + "&from="@ + decimal(from) + "&to="@ + decimal(to) + "&token="@ + token
}

/// The text of one digit.
fn digit_text(digit: u64) -> (r: &'static str)
    requires
        digit < 10,
    ensures
        r@ == seq![digit_char(digit as int)],
{
    proof {
        reveal_strlit("0");
        reveal_strlit("1");
        reveal_strlit("2");
        reveal_strlit("3");
        reveal_strlit("4");
        reveal_strlit("5");
        reveal_strlit("6");
        reveal_strlit("7");
        reveal_strlit("8");
        reveal_strlit("9");
    }
    let text = if digit == 0 {
        "0"
    } else if digit == 1 {
        "1"
    } else if digit == 2 {
        "2"
    } else if digit == 3 {
        "3"
    } else if digit == 4 {
        "4"
    } else if digit == 5 {
        "5"
    } else if digit == 6 {
        "6"
    } else if digit == 7 {
        "7"
    } else if digit == 8 {
        "8"
    } else {
        "9"
    };
    assert(text@ =~= seq![digit_char(digit as int)]);
    text
}

/// Writes a natural number in decimal digits.
fn natural_text(n: u64) -> (r: String)
    ensures
        r@ == decimal_of_nat(n as nat),
    decreases n,
{
    if n < 10 {
        digit_text(n).to_owned()
    } else {
        let last = digit_text(n % 10);
        let text = natural_text(n / 10).concat(last);
        assert(text@ =~= decimal_of_nat(n as nat));
        text
    }
}

/// Writes a whole number in decimal digits.
pub fn decimal_text(n: i64) -> (r: String)
    ensures
        r@ == decimal(n as int),
{
    if n < 0 {
        let magnitude: u64 = (-(n as i128)) as u64;
        proof {
            reveal_strlit("-");
        }
        let text = "-".to_owned().concat(natural_text(magnitude).as_str());
        assert(text@ =~= decimal(n as int));
        text
    } else {
        natural_text(n as u64)
    }
}

/// Writes the address of the daily candles of `symbol` from `from` to `to`.
pub fn candle_request(symbol: &str, from: i64, to: i64, token: &str) -> (r: String)
    ensures
        r@ == candle_url(symbol@, from as int, to as int, token@),
{
    let mut url = "https://finnhub.io/api/v1/stock/candle?symbol=".to_owned();
    url.append(symbol);
    url.append("&resolution=");
    url.append("D");
    url.append("&from=");
    url.append(decimal_text(from).as_str());
    url.append("&to=");
    url.append(decimal_text(to).as_str());
    url.append("&token=");
    url.append(token);
    url
}

} // verus!
