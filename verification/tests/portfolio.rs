use stock_portfolio::candle::Fetched;
use stock_portfolio::failure::Failure;
use stock_portfolio::portfolio::{Assembly, Ends, Portfolio};
use stock_portfolio::quantity::UNIT;

const FROM: i64 = 1_699_568_000;
const TO: i64 = 1_700_000_000;

fn billionths(weight: f64) -> u64 {
    (weight * UNIT as f64).round() as u64
}

fn quoted(closes: &str) -> Fetched {
    Fetched::answer(format!(r#"{{"c":[{}],"s":"ok"}}"#, closes))
}

fn no_data() -> Fetched {
    Fetched::answer(String::from(r#"{"s":"no_data"}"#))
}

fn ends(from: &str, to: &str) -> Ends {
    Ends { from: quoted(from), to: quoted(to) }
}

/// Makes a portfolio with a provider that knows every name but those listed
/// as unknown, and counts the requests put to it.
fn assemble(
    entries: Vec<(&str, u64)>,
    investment: u64,
    unknown: &[&str],
    requests: &mut usize,
) -> Result<Portfolio, Failure> {
    let mut draft = Portfolio::from(entries, investment)?;
    loop {
        *requests += 1;
        let answer = if unknown.contains(&draft.pending()) { no_data() } else { quoted("10.5") };
        match draft.confirm(&answer)? {
            Assembly::Pending(next) => draft = next,
            Assembly::Complete(portfolio) => return Ok(portfolio),
        }
    }
}

fn portfolio_of(entries: Vec<(&str, f64)>, investment: u64) -> Result<Portfolio, Failure> {
    let mut requests = 0;
    let entries = entries.into_iter().map(|(name, weight)| (name, billionths(weight))).collect();
    assemble(entries, investment, &[], &mut requests)
}

fn three_stocks() -> Portfolio {
    portfolio_of(vec![("GOOG", 0.30), ("AAPL", 0.20), ("MSFT", 0.50)], 1000).unwrap()
}

fn names(portfolio: &Portfolio) -> Vec<(String, u64)> {
    portfolio.stocks().iter().map(|(stock, weight)| (stock.name().to_string(), *weight)).collect()
}

#[test]
fn from_checks_total_percentage() {
    let portfolio = portfolio_of(vec![("GOOG", 0.30), ("AAPL", 0.20), ("MSFT", 0.50)], 1000);

    assert!(portfolio.is_ok());
    assert_eq!(portfolio.unwrap().stocks().len(), 3);

    let portfolio = portfolio_of(vec![("GOOG", 0.30), ("AAPL", 0.20), ("MSFT", 0.10)], 1000);
    assert!(portfolio.is_err());
}

#[test]
fn stocks_has_items() {
    let portfolio = three_stocks();

    assert_eq!(portfolio.stocks().len(), 3);
}

#[test]
fn profit_is_not_zero() {
    let portfolio = three_stocks();

    let answers = vec![ends("130.0", "135.2"), ends("180.0", "178.2"), ends("370.0", "377.4")];
    let profit = portfolio.profit(FROM, TO, &answers).unwrap();
    assert!(profit != 0);
}

#[test]
fn annualized_profit_is_not_zero() {
    let portfolio = three_stocks();

    let answers = vec![
        quoted("130.0,131.0,129.5,133.0"),
        quoted("180.0,181.5,179.0"),
        quoted("370.0,372.0,371.0,375.5,377.4"),
    ];
    let annualized_profit = portfolio.annualized_profit(&answers).unwrap();
    assert!(annualized_profit != 0);
}

#[test]
fn holdings_keep_the_order_and_the_weights_of_the_entries() {
    let portfolio = three_stocks();
    assert_eq!(
        names(&portfolio),
        vec![
            (String::from("GOOG"), 300_000_000),
            (String::from("AAPL"), 200_000_000),
            (String::from("MSFT"), 500_000_000),
        ]
    );
    assert_eq!(portfolio.investment(), 1000);
}

#[test]
fn a_single_stock_of_full_weight_makes_a_portfolio() {
    let portfolio = portfolio_of(vec![("GOOG", 1.0)], 5).unwrap();
    assert_eq!(names(&portfolio), vec![(String::from("GOOG"), UNIT)]);
}

#[test]
fn a_name_entered_twice_is_held_once_with_the_sum_of_its_weights() {
    let portfolio =
        portfolio_of(vec![("GOOG", 0.25), ("AAPL", 0.25), ("GOOG", 0.40), ("AAPL", 0.10)], 1000)
            .unwrap();
    assert_eq!(
        names(&portfolio),
        vec![(String::from("GOOG"), 650_000_000), (String::from("AAPL"), 350_000_000)]
    );
}

#[test]
fn a_name_entered_twice_with_half_a_whole_each_is_held_whole() {
    let mut requests = 0;
    let entries = vec![("GOOG", billionths(0.5)), ("GOOG", billionths(0.5))];
    let portfolio = assemble(entries, 1000, &[], &mut requests).unwrap();
    assert_eq!(names(&portfolio), vec![(String::from("GOOG"), UNIT)]);
    assert_eq!(requests, 2);
}

#[test]
fn the_weights_held_come_to_one_whole() {
    let lists = vec![
        vec![("GOOG", 0.30), ("AAPL", 0.20), ("MSFT", 0.50)],
        vec![("GOOG", 0.30), ("GOOG", 0.20), ("MSFT", 0.50)],
        vec![("GOOG", 0.10), ("AAPL", 0.20), ("GOOG", 0.30), ("AAPL", 0.15), ("GOOG", 0.25)],
        vec![("GOOG", 1.0)],
    ];
    for entries in lists {
        let portfolio = portfolio_of(entries, 1000).unwrap();
        let sum: u64 = portfolio.stocks().iter().map(|(_, weight)| *weight).sum();
        assert_eq!(sum, UNIT);
    }
}

#[test]
fn a_name_entered_twice_earns_with_all_its_weight() {
    let twice = portfolio_of(vec![("GOOG", 0.25), ("AAPL", 0.5), ("GOOG", 0.25)], 1000).unwrap();
    let once = portfolio_of(vec![("GOOG", 0.5), ("AAPL", 0.5)], 1000).unwrap();
    let answers = vec![ends("100.0", "110.0"), ends("200.0", "190.0")];
    assert_eq!(twice.profit(FROM, TO, &answers), Ok(25_000_000_000));
    assert_eq!(twice.profit(FROM, TO, &answers), once.profit(FROM, TO, &answers));
}

#[test]
fn a_weight_of_zero_is_admitted() {
    let portfolio = portfolio_of(vec![("AAPL", 1.0), ("GOOG", 0.0)], 1000).unwrap();
    assert_eq!(names(&portfolio), vec![(String::from("AAPL"), UNIT), (String::from("GOOG"), 0)]);
    let answers = vec![ends("100", "110"), ends("100", "300")];
    assert_eq!(portfolio.profit(FROM, TO, &answers), Ok(100_000_000_000));
}

#[test]
fn an_investment_of_zero_is_admitted_and_earns_nothing() {
    let portfolio = portfolio_of(vec![("AAPL", 1.0)], 0).unwrap();
    assert_eq!(portfolio.investment(), 0);
    assert_eq!(portfolio.profit(FROM, TO, &vec![ends("100", "110")]), Ok(0));
    assert_eq!(portfolio.annualized_profit(&vec![quoted("100,101,102")]), Ok(0));
}

#[test]
fn weights_that_do_not_come_to_one_whole_are_refused_before_any_request() {
    let mut requests = 0;
    let entries = vec![
        ("GOOG", billionths(0.3)),
        ("AAPL", billionths(0.2)),
        ("MSFT", billionths(0.3)),
    ];
    let refused = assemble(entries, 1000, &[], &mut requests);
    assert_eq!(refused.unwrap_err(), Failure::InvalidWeights { sum: 800_000_000 });
    assert_eq!(requests, 0);
}

#[test]
fn weights_beyond_one_whole_are_refused() {
    let refused = Portfolio::from(vec![("GOOG", UNIT), ("AAPL", 1)], 1000);
    assert_eq!(refused.unwrap_err(), Failure::InvalidWeights { sum: 1_000_000_001 });
    let refused = Portfolio::from(vec![("GOOG", u64::MAX), ("AAPL", u64::MAX)], 1000);
    assert_eq!(refused.unwrap_err(), Failure::InvalidWeights { sum: 36_893_488_147_419_103_230 });
}

#[test]
fn no_entries_are_refused() {
    let refused = Portfolio::from(vec![], 1000);
    assert_eq!(refused.unwrap_err(), Failure::InvalidWeights { sum: 0 });
}

#[test]
fn each_entry_is_confirmed_by_one_request() {
    let mut requests = 0;
    let entries = vec![("GOOG", 300_000_000), ("AAPL", 200_000_000), ("MSFT", 500_000_000)];
    assert!(assemble(entries, 1000, &[], &mut requests).is_ok());
    assert_eq!(requests, 3);
}

#[test]
fn the_first_unknown_name_ends_the_making() {
    let mut requests = 0;
    let entries = vec![
        ("GOOG", 300_000_000),
        ("GOOH", 200_000_000),
        ("MSFX", 400_000_000),
        ("MSFT", 100_000_000),
    ];
    let refused = assemble(entries, 1000, &["MSFX", "GOOH"], &mut requests);
    assert_eq!(refused.unwrap_err(), Failure::NotFound { name: String::from("GOOH") });
    assert_eq!(requests, 2);
}

#[test]
fn the_pending_name_is_that_of_the_next_entry() {
    let draft = Portfolio::from(vec![("GOOG", 600_000_000), ("AAPL", 400_000_000)], 1000).unwrap();
    assert_eq!(draft.pending(), "GOOG");
    let draft = match draft.confirm(&quoted("1")).unwrap() {
        Assembly::Pending(draft) => draft,
        Assembly::Complete(_) => panic!("an entry is still to be confirmed"),
    };
    assert_eq!(draft.pending(), "AAPL");
    assert!(matches!(draft.confirm(&quoted("1")), Ok(Assembly::Complete(_))));
}

#[test]
fn a_failed_request_ends_the_making() {
    let draft = Portfolio::from(vec![("GOOG", UNIT)], 1000).unwrap();
    let refused = draft.confirm(&Fetched::failed(String::from("no route to host")));
    assert_eq!(
        refused.unwrap_err(),
        Failure::Provider { detail: String::from("no route to host") }
    );
}

#[test]
fn profit_of_two_stocks() {
    let portfolio = portfolio_of(vec![("GOOG", 0.5), ("AAPL", 0.5)], 1000).unwrap();
    let answers = vec![ends("100.0", "110.0"), ends("200.0", "190.0")];
    let profit = portfolio.profit(FROM, TO, &answers).unwrap();
    assert_eq!(profit, 25_000_000_000);
    assert_eq!(profit as f64 / UNIT as f64, 25.0);
}

#[test]
fn profit_of_three_stocks() {
    let portfolio = three_stocks();
    let answers = vec![ends("100", "104"), ends("50", "49"), ends("3", "4")];
    // 0.3 * 0.04 - 0.2 * 0.02 + 0.5 * 0.333333333 = 0.1746666665, rounded down to the billionth
    assert_eq!(portfolio.profit(FROM, TO, &answers), Ok(174_666_666_000));
}

#[test]
fn a_loss_is_a_negative_profit() {
    let portfolio = portfolio_of(vec![("GOOG", 1.0)], 1000).unwrap();
    let answers = vec![ends("3", "2")];
    // 2/3 is 666666666 billionths, a return of -333333334 billionths
    assert_eq!(portfolio.profit(FROM, TO, &answers), Ok(-333_333_334_000));
}

#[test]
fn profit_is_in_proportion_to_the_investment() {
    let entries = vec![("GOOG", 0.30), ("AAPL", 0.20), ("MSFT", 0.50)];
    let answers = vec![ends("130.0", "135.2"), ends("180.0", "178.2"), ends("370.0", "377.4")];
    let single = portfolio_of(entries.clone(), 1234).unwrap().profit(FROM, TO, &answers).unwrap();
    let double = portfolio_of(entries.clone(), 2468).unwrap().profit(FROM, TO, &answers).unwrap();
    let none = portfolio_of(entries, 0).unwrap().profit(FROM, TO, &answers).unwrap();
    assert_eq!(double, 2 * single);
    assert_eq!(single, 1234 * 20_000_000);
    assert_eq!(none, 0);
}

#[test]
fn profit_is_the_same_in_whatever_order_the_stocks_are_held() {
    let one = portfolio_of(vec![("GOOG", 0.30), ("AAPL", 0.20), ("MSFT", 0.50)], 1000).unwrap();
    let other = portfolio_of(vec![("MSFT", 0.50), ("AAPL", 0.20), ("GOOG", 0.30)], 1000).unwrap();
    let goog = ends("130.0", "135.2");
    let aapl = ends("180.0", "178.9");
    let msft = ends("370.0", "377.7");
    assert_eq!(
        one.profit(FROM, TO, &vec![goog.clone(), aapl.clone(), msft.clone()]),
        other.profit(FROM, TO, &vec![msft, aapl, goog])
    );
    let goog = quoted("130.0,131.0,129.5,133.0");
    let aapl = quoted("180.0,181.5,179.0");
    let msft = quoted("370.0,372.0,371.0,375.5,377.4");
    assert_eq!(
        one.annualized_profit(&vec![goog.clone(), aapl.clone(), msft.clone()]),
        other.annualized_profit(&vec![msft, aapl, goog])
    );
}

#[test]
fn profit_within_a_day_is_zero() {
    let portfolio = three_stocks();
    let answers = vec![ends("135.2", "135.2"), ends("178.2", "178.2"), ends("0.37", "0.37")];
    assert_eq!(portfolio.profit(TO, TO, &answers), Ok(0));
}

#[test]
fn profit_of_the_largest_investment() {
    let portfolio = portfolio_of(vec![("GOOG", 1.0)], u64::MAX).unwrap();
    let answers = vec![ends("1", "2")];
    assert_eq!(portfolio.profit(FROM, TO, &answers), Ok(u64::MAX as i128 * UNIT as i128));
}

#[test]
fn profit_without_a_price_names_the_stock_and_the_date() {
    let portfolio = three_stocks();
    let answers = vec![
        ends("130.0", "135.2"),
        Ends { from: no_data(), to: quoted("178.2") },
        Ends { from: quoted("370.0"), to: no_data() },
    ];
    assert_eq!(
        portfolio.profit(FROM, TO, &answers),
        Err(Failure::NoPriceData { name: String::from("AAPL"), date: FROM })
    );
}

#[test]
fn a_stock_without_answers_has_no_data() {
    let portfolio = three_stocks();
    let answers = vec![ends("130.0", "135.2"), ends("180.0", "178.2")];
    assert_eq!(
        portfolio.profit(FROM, TO, &answers),
        Err(Failure::NoPriceData { name: String::from("MSFT"), date: TO })
    );
    assert_eq!(
        portfolio.annualized_profit(&vec![]),
        Err(Failure::InsufficientHistory { name: String::from("GOOG") })
    );
}

#[test]
fn answers_beyond_the_stocks_held_are_not_looked_at() {
    let portfolio = portfolio_of(vec![("GOOG", 1.0)], 1000).unwrap();
    let answers = vec![ends("100", "110"), Ends { from: no_data(), to: no_data() }];
    assert_eq!(portfolio.profit(FROM, TO, &answers), Ok(100_000_000_000));
    let answers = vec![quoted("100,110"), no_data()];
    assert_eq!(portfolio.avg_daily_return(&answers), Ok(100_000_000));
}

#[test]
fn profit_looks_at_the_later_price_first() {
    let portfolio = portfolio_of(vec![("GOOG", 1.0)], 1000).unwrap();
    let answers = vec![Ends { from: Fetched::failed(String::from("first")), to: no_data() }];
    assert_eq!(
        portfolio.profit(FROM, TO, &answers),
        Err(Failure::NoPriceData { name: String::from("GOOG"), date: TO })
    );
}

#[test]
fn profit_of_a_failed_request_is_its_report() {
    let portfolio = portfolio_of(vec![("GOOG", 0.5), ("AAPL", 0.5)], 1000).unwrap();
    let answers = vec![
        ends("100.0", "110.0"),
        Ends { from: quoted("200"), to: Fetched::failed(String::from("timed out")) },
    ];
    assert_eq!(
        portfolio.profit(FROM, TO, &answers),
        Err(Failure::Provider { detail: String::from("timed out") })
    );
}

#[test]
fn profit_of_a_growth_out_of_range() {
    let portfolio = portfolio_of(vec![("GOOG", 1.0)], 1000).unwrap();
    let answers = vec![ends("0.000001", "9223.372037")];
    assert_eq!(portfolio.profit(FROM, TO, &answers), Err(Failure::OutOfRange));
    let answers = vec![ends("0.000001", "9223.372036")];
    assert_eq!(
        portfolio.profit(FROM, TO, &answers),
        Ok((9_223_372_036_000_000_000 - UNIT as i128) * 1000)
    );
}

#[test]
fn average_daily_return_is_weighted() {
    let portfolio = portfolio_of(vec![("GOOG", 0.6), ("AAPL", 0.4)], 1000).unwrap();
    let answers = vec![quoted("100,110,121"), quoted("50,49,50,51")];
    assert_eq!(portfolio.avg_daily_return(&answers), Ok(62_721_088));
}

#[test]
fn annualized_profit_of_one_stock() {
    let portfolio = portfolio_of(vec![("GOOG", 1.0)], 1000).unwrap();
    let answers = vec![quoted("100,101,102")];
    assert_eq!(portfolio.avg_daily_return(&answers), Ok(9_950_495));
    let profit = portfolio.annualized_profit(&answers).unwrap();
    assert_eq!(profit, 11_123_325_010_000);
    let daily = (101.0f64 / 100.0 - 1.0 + 102.0 / 101.0 - 1.0) / 2.0;
    let expected = ((1.0 + daily).powf(252.0) - 1.0) * 1000.0;
    assert!((profit as f64 / UNIT as f64 - expected).abs() < 0.001);
}

#[test]
fn annualized_profit_of_a_flat_series_is_zero() {
    let portfolio = three_stocks();
    let answers = vec![quoted("5,5,5"), quoted("7.5,7.5"), quoted("1,1,1,1")];
    assert_eq!(portfolio.annualized_profit(&answers), Ok(0));
}

#[test]
fn annualized_profit_of_a_falling_series_is_a_loss() {
    let portfolio = portfolio_of(vec![("GOOG", 1.0)], 1000).unwrap();
    let answers = vec![quoted("200,190,171")];
    assert_eq!(portfolio.annualized_profit(&answers), Ok(-1000 * UNIT as i128));
}

#[test]
fn annualized_profit_needs_two_prices_of_each_stock() {
    let portfolio = three_stocks();
    let answers = vec![quoted("130.0,131.0"), quoted("180.0"), quoted("")];
    assert_eq!(
        portfolio.annualized_profit(&answers),
        Err(Failure::InsufficientHistory { name: String::from("AAPL") })
    );
    let answers = vec![quoted("130.0,131.0"), quoted("180.0,181.0"), no_data()];
    assert_eq!(
        portfolio.annualized_profit(&answers),
        Err(Failure::InsufficientHistory { name: String::from("MSFT") })
    );
    assert_eq!(
        portfolio.avg_daily_return(&answers),
        Err(Failure::InsufficientHistory { name: String::from("MSFT") })
    );
}

#[test]
fn annualized_profit_of_a_failed_request_is_its_report() {
    let portfolio = portfolio_of(vec![("GOOG", 0.5), ("AAPL", 0.5)], 1000).unwrap();
    let answers = vec![Fetched::failed(String::from("timed out")), quoted("1")];
    assert_eq!(
        portfolio.annualized_profit(&answers),
        Err(Failure::Provider { detail: String::from("timed out") })
    );
}

#[test]
fn annualized_profit_out_of_range() {
    let portfolio = portfolio_of(vec![("GOOG", 1.0)], 1000).unwrap();
    assert_eq!(portfolio.annualized_profit(&vec![quoted("1,2,4")]), Err(Failure::OutOfRange));
    assert_eq!(
        portfolio.annualized_profit(&vec![quoted("0.000001,9223.372037")]),
        Err(Failure::OutOfRange)
    );
}
