use std::collections::hash_map::DefaultHasher;
use std::collections::HashSet;
use std::hash::{Hash, Hasher};
use stock_portfolio::candle::Fetched;
use stock_portfolio::failure::Failure;
use stock_portfolio::stock::Stock;

const NOW: i64 = 1_700_000_000;

fn quoted(closes: &str) -> Fetched {
    Fetched::answer(format!(r#"{{"c":[{}],"s":"ok"}}"#, closes))
}

fn no_data() -> Fetched {
    Fetched::answer(String::from(r#"{"s":"no_data"}"#))
}

fn hash_of(stock: &Stock) -> u64 {
    let mut hasher = DefaultHasher::new();
    stock.hash(&mut hasher);
    hasher.finish()
}

#[test]
fn new_valid() {
    let stock = Stock::new("GOOG", &quoted("131.5,132.25"));

    assert!(stock.is_ok());
    assert_eq!(stock.unwrap().name(), "GOOG");
}

#[test]
fn new_invalid() {
    let stock = Stock::new("GOOH", &no_data());

    assert!(stock.is_err());
}

#[test]
fn price_is_positive() {
    let stock = Stock::new("GOOG", &quoted("131.5,132.25")).unwrap();
    let price = stock.price(NOW, &quoted("131.5,132.25")).unwrap();
    assert!(price > 0);
}

#[test]
fn prices_has_multiple_values() {
    let stock = Stock::new("GOOG", &quoted("131.5")).unwrap();
    let closes: Vec<String> = (0..22).map(|day| format!("{}.5", 120 + day)).collect();
    let prices = stock.prices(&quoted(&closes.join(","))).unwrap();
    assert!(prices.len() > 20);
}

#[test]
fn a_name_without_data_is_not_found() {
    assert_eq!(
        Stock::new("GOOH", &no_data()),
        Err(Failure::NotFound { name: String::from("GOOH") })
    );
}

#[test]
fn a_name_is_not_confirmed_by_a_failed_request() {
    assert_eq!(
        Stock::new("GOOG", &Fetched::failed(String::from("connection refused"))),
        Err(Failure::Provider { detail: String::from("connection refused") })
    );
}

#[test]
fn a_name_is_not_confirmed_by_an_unreadable_answer() {
    assert_eq!(
        Stock::new("GOOG", &Fetched::answer(String::from("Too Many Requests"))),
        Err(Failure::Provider { detail: String::from("Too Many Requests") })
    );
    assert_eq!(
        Stock::new("GOOG", &Fetched::answer(String::from(r#"{"s":"ok","c":[]}"#))),
        Err(Failure::Provider { detail: String::from(r#"{"s":"ok","c":[]}"#) })
    );
    assert_eq!(
        Stock::new("GOOG", &Fetched::answer(String::from(r#"{"error":"bad token"}"#))),
        Err(Failure::Provider { detail: String::from(r#"{"error":"bad token"}"#) })
    );
}

#[test]
fn stocks_of_one_name_are_equal_and_hash_alike() {
    let first = Stock::new("GOOG", &quoted("131.5")).unwrap();
    let second = Stock::new("GOOG", &quoted("99,98,97")).unwrap();
    let third = first.clone();
    assert_eq!(first, second);
    assert_eq!(first, third);
    assert_eq!(hash_of(&first), hash_of(&second));
    assert_eq!(hash_of(&first), hash_of(&third));
    let mut set = HashSet::new();
    set.insert(first);
    set.insert(second);
    set.insert(third);
    assert_eq!(set.len(), 1);
}

#[test]
fn stocks_of_other_names_differ() {
    let goog = Stock::new("GOOG", &quoted("131.5")).unwrap();
    let lower = Stock::new("goog", &quoted("131.5")).unwrap();
    let aapl = Stock::new("AAPL", &quoted("131.5")).unwrap();
    assert_ne!(goog, lower);
    assert_ne!(goog, aapl);
}

#[test]
fn price_is_the_latest_close_in_price_units() {
    let stock = Stock::new("GOOG", &quoted("131.5")).unwrap();
    assert_eq!(stock.price(NOW, &quoted("131.5,132.25")), Ok(132_250_000));
    assert_eq!(stock.price(NOW, &quoted("7")), Ok(7_000_000));
}

#[test]
fn price_without_data_names_the_stock_and_the_date() {
    let stock = Stock::new("GOOG", &quoted("131.5")).unwrap();
    assert_eq!(
        stock.price(NOW, &no_data()),
        Err(Failure::NoPriceData { name: String::from("GOOG"), date: NOW })
    );
}

#[test]
fn price_of_a_failed_request_or_an_unreadable_answer() {
    let stock = Stock::new("GOOG", &quoted("131.5")).unwrap();
    assert_eq!(
        stock.price(NOW, &Fetched::failed(String::from("timed out"))),
        Err(Failure::Provider { detail: String::from("timed out") })
    );
    assert_eq!(
        stock.price(NOW, &Fetched::answer(String::from("{"))),
        Err(Failure::Provider { detail: String::from("{") })
    );
    assert_eq!(
        stock.price(NOW, &quoted("131.5,-1")),
        Err(Failure::Provider { detail: String::from(r#"{"c":[131.5,-1],"s":"ok"}"#) })
    );
}

#[test]
fn prices_are_the_closes_in_order() {
    let stock = Stock::new("GOOG", &quoted("131.5")).unwrap();
    assert_eq!(
        stock.prices(&quoted("100,101.5,99.25")),
        Ok(vec![100_000_000, 101_500_000, 99_250_000])
    );
}

#[test]
fn prices_without_data_are_none_at_all() {
    let stock = Stock::new("GOOG", &quoted("131.5")).unwrap();
    assert_eq!(stock.prices(&no_data()), Ok(vec![]));
}

#[test]
fn prices_of_a_failed_request_or_an_unreadable_answer() {
    let stock = Stock::new("GOOG", &quoted("131.5")).unwrap();
    assert_eq!(
        stock.prices(&Fetched::failed(String::from("timed out"))),
        Err(Failure::Provider { detail: String::from("timed out") })
    );
    assert_eq!(
        stock.prices(&Fetched::answer(String::from(r#"{"c":[1,2]}"#))),
        Err(Failure::Provider { detail: String::from(r#"{"c":[1,2]}"#) })
    );
    assert_eq!(
        stock.prices(&quoted("1,0,2")),
        Err(Failure::Provider { detail: String::from(r#"{"c":[1,0,2],"s":"ok"}"#) })
    );
}
