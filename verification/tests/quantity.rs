use stock_portfolio::quantity::{price_from_double, MAX_GROWTH, PRICE_SCALE, UNIT};

fn nearest(price: f64) -> u64 {
    (price * PRICE_SCALE as f64).round() as u64
}

#[test]
fn constants_are_what_they_are_counted_in() {
    assert_eq!(UNIT, 1_000_000_000);
    assert_eq!(PRICE_SCALE, 1_000_000);
    assert_eq!(MAX_GROWTH, i64::MAX as u64);
}

#[test]
fn whole_prices_are_read_exactly() {
    assert_eq!(price_from_double(100.0f64.to_bits()), Some(100_000_000));
    assert_eq!(price_from_double(1.0f64.to_bits()), Some(1_000_000));
    assert_eq!(price_from_double(0x4059000000000000), Some(100_000_000));
}

#[test]
fn decimal_prices_are_rounded_to_the_nearest_unit() {
    assert_eq!(price_from_double(0.3f64.to_bits()), Some(300_000));
    assert_eq!(price_from_double(123.45f64.to_bits()), Some(123_450_000));
    assert_eq!(price_from_double((0.1f64 + 0.2f64).to_bits()), Some(300_000));
    assert_eq!(price_from_double(2.5f64.to_bits()), Some(2_500_000));
    assert_eq!(price_from_double(0.0000015f64.to_bits()), Some(2));
}

#[test]
fn a_half_unit_goes_upward() {
    // 1/128 is 7812.5 price units, 3/128 is 23437.5, and both are doubles.
    assert_eq!(price_from_double((1.0f64 / 128.0).to_bits()), Some(7813));
    assert_eq!(price_from_double((3.0f64 / 128.0).to_bits()), Some(23438));
    // 2^-21 is a little under half a unit, 1.5 * 2^-20 a little under one and a half.
    assert_eq!(price_from_double(0.5f64.powi(21).to_bits()), None);
    assert_eq!(price_from_double((1.5f64 * 0.5f64.powi(20)).to_bits()), Some(1));
}

#[test]
fn prices_agree_with_rounding_in_floating_point() {
    for price in [0.01, 0.99, 1.01, 17.5, 99.999999, 250.75, 4321.125, 650000.0, 1.0e12] {
        assert_eq!(price_from_double(f64::to_bits(price)), Some(nearest(price)));
    }
}

#[test]
fn what_is_no_price_is_not_read() {
    assert_eq!(price_from_double(0.0f64.to_bits()), None);
    assert_eq!(price_from_double((-0.0f64).to_bits()), None);
    assert_eq!(price_from_double((-1.0f64).to_bits()), None);
    assert_eq!(price_from_double(f64::NAN.to_bits()), None);
    assert_eq!(price_from_double(f64::INFINITY.to_bits()), None);
    assert_eq!(price_from_double(f64::NEG_INFINITY.to_bits()), None);
    assert_eq!(price_from_double(1.0e-7f64.to_bits()), None);
    assert_eq!(price_from_double(4.9e-7f64.to_bits()), None);
    assert_eq!(price_from_double(f64::MIN_POSITIVE.to_bits()), None);
    assert_eq!(price_from_double(1u64), None);
}

#[test]
fn prices_beyond_sixty_four_bits_are_not_read() {
    assert_eq!(price_from_double(1.8e13f64.to_bits()), Some(18_000_000_000_000_000_000));
    assert_eq!(price_from_double(18446744073709.0f64.to_bits()), Some(18_446_744_073_709_000_000));
    assert_eq!(price_from_double(18446744073710.0f64.to_bits()), None);
    assert_eq!(price_from_double(4503599627370496.0f64.to_bits()), None);
    assert_eq!(price_from_double(1.0e300f64.to_bits()), None);
    assert_eq!(price_from_double(f64::MAX.to_bits()), None);
}
