use stock_portfolio::quantity::{MAX_GROWTH, UNIT};
use stock_portfolio::rate::{average_daily_return, compound, growth, Fault, TRADING_DAYS};

#[test]
fn growth_is_the_later_price_over_the_earlier() {
    assert_eq!(growth(100, 110), Some(1_100_000_000));
    assert_eq!(growth(200, 190), Some(950_000_000));
    assert_eq!(growth(7, 7), Some(UNIT));
    assert_eq!(growth(3, 1), Some(333_333_333));
    assert_eq!(growth(3, 2), Some(666_666_666));
    assert_eq!(growth(5, 0), Some(0));
}

#[test]
fn there_is_no_growth_from_a_price_of_zero() {
    assert_eq!(growth(0, 5), None);
    assert_eq!(growth(0, 0), None);
    assert_eq!(average_daily_return(&vec![0, 1]), Err(Fault::OutOfRange));
    assert_eq!(average_daily_return(&vec![1, 0, 1]), Err(Fault::OutOfRange));
    assert_eq!(average_daily_return(&vec![1, 0]), Ok(-1_000_000_000));
}

#[test]
fn growth_beyond_the_largest_is_none() {
    assert_eq!(growth(1, 9_223_372_036), Some(9_223_372_036_000_000_000));
    assert_eq!(growth(1, 9_223_372_037), None);
    assert_eq!(growth(1, u64::MAX), None);
    assert_eq!(growth(u64::MAX, u64::MAX), Some(UNIT));
    assert!(MAX_GROWTH == 9_223_372_036_854_775_807);
}

#[test]
fn average_daily_return_of_a_rising_series() {
    let prices = vec![100_000_000, 101_000_000, 102_000_000];
    assert_eq!(average_daily_return(&prices), Ok(9_950_495));
}

#[test]
fn average_daily_return_of_a_falling_series_rounds_down() {
    let prices = vec![200_000_000, 190_000_000, 171_000_000];
    assert_eq!(average_daily_return(&prices), Ok(-75_000_000));
    // returns of -1/3 and -1/2: -333333334 and -500000000 billionths, rounded down.
    let prices = vec![3, 2, 1];
    assert_eq!(average_daily_return(&prices), Ok(-416_666_667));
}

#[test]
fn average_daily_return_of_two_prices_is_their_return() {
    assert_eq!(average_daily_return(&vec![100, 110]), Ok(100_000_000));
    assert_eq!(average_daily_return(&vec![110, 110]), Ok(0));
}

#[test]
fn a_series_of_fewer_than_two_prices_has_no_average() {
    assert_eq!(average_daily_return(&vec![]), Err(Fault::TooShort));
    assert_eq!(average_daily_return(&vec![100_000_000]), Err(Fault::TooShort));
}

#[test]
fn a_series_that_outgrows_the_largest_growth_has_no_average() {
    assert_eq!(average_daily_return(&vec![1, 9_223_372_037]), Err(Fault::OutOfRange));
    assert_eq!(average_daily_return(&vec![5, 5, 1, u64::MAX]), Err(Fault::OutOfRange));
}

#[test]
fn compounding_a_year_of_daily_growth() {
    assert_eq!(TRADING_DAYS, 252);
    assert_eq!(compound(1_009_950_495, TRADING_DAYS), Some(12_123_325_010));
    assert_eq!(compound(1_010_000_000, TRADING_DAYS), Some(12_274_001_588));
    assert_eq!(compound(UNIT, TRADING_DAYS), Some(UNIT));
}

#[test]
fn compounding_edge_cases() {
    assert_eq!(compound(123, 0), Some(UNIT));
    assert_eq!(compound(0, 1), Some(0));
    assert_eq!(compound(1_500_000_000, 1), Some(1_500_000_000));
    assert_eq!(compound(1_500_000_000, 2), Some(2_250_000_000));
    assert_eq!(compound(925_000_000, TRADING_DAYS), Some(0));
}

#[test]
fn compounding_beyond_the_largest_growth_is_none() {
    assert_eq!(compound(2 * UNIT, TRADING_DAYS), None);
    assert_eq!(compound(2 * UNIT, 33), Some(8_589_934_592_000_000_000));
    assert_eq!(compound(2 * UNIT, 34), None);
    assert_eq!(compound(u64::MAX, 1), None);
}

#[test]
fn compounding_agrees_with_floating_point() {
    let grown = compound(1_000_400_000, TRADING_DAYS).unwrap() as f64 / UNIT as f64;
    let expected = 1.0004f64.powf(252.0);
    assert!((grown - expected).abs() < 1.0e-6);
}
