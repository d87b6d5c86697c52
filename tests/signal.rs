use double_trouble::decimal::Dec;
use double_trouble::signal::{log_spread, Position, TradeBands, TradePair};
use rust_decimal::Decimal;

fn value(d: Dec) -> Decimal {
    Decimal::from_i128_with_scale(d.mantissa, d.scale)
}

fn pair(epsilon: Dec) -> TradePair {
    TradePair {
        asset_1: "AAA".to_string(),
        asset_2: "BBB".to_string(),
        original_lt_spread: Dec::new(0, 0),
        original_st_spread: Dec::new(0, 0),
        epsilon,
    }
}

fn example_bands() -> TradeBands {
    TradeBands::try_new(pair(Dec::new(2, 2)), Dec::new(0, 0)).unwrap()
}

#[test]
fn bands_are_equilibrium_plus_minus_epsilon() {
    let bands = example_bands();
    assert_eq!(value(bands.upper_band), Decimal::new(2, 2));
    assert_eq!(value(bands.lower_band), Decimal::new(-2, 2));
    assert_eq!(value(bands.equilibrium), Decimal::ZERO);
    assert_eq!(bands.asset_1, "AAA");
    assert_eq!(bands.asset_2, "BBB");
}

#[test]
fn bands_around_nonzero_equilibrium() {
    let bands = TradeBands::try_new(pair(Dec::new(5, 1)), Dec::new(15, 1)).unwrap();
    assert_eq!(value(bands.upper_band), Decimal::new(2, 0));
    assert_eq!(value(bands.lower_band), Decimal::new(1, 0));
}

#[test]
fn bands_out_of_range_are_refused() {
    let huge = Dec { mantissa: 79228162514264337593543950335, scale: 0 };
    assert!(TradeBands::try_new(pair(huge), huge).is_none());
}

#[test]
fn short_when_spread_above_upper_band() {
    let bands = example_bands();
    let p = bands.trade_signal(&Dec::new(110, 0), &Dec::new(100, 0));
    assert_eq!(p, Position::Short);
}

#[test]
fn retain_long_at_zero_spread() {
    let bands = example_bands();
    let p = bands.trade_signal(&Dec::new(100, 0), &Dec::new(100, 0));
    assert_eq!(p, Position::RetainLong);
}

#[test]
fn long_when_spread_below_lower_band() {
    let bands = example_bands();
    let p = bands.trade_signal(&Dec::new(90, 0), &Dec::new(100, 0));
    assert_eq!(p, Position::Long);
}

#[test]
fn retain_short_inside_upper_half() {
    let bands = example_bands();
    // ln(101) - ln(100) is about 0.00995, between 0 and 0.02.
    let p = bands.trade_signal(&Dec::new(101, 0), &Dec::new(100, 0));
    assert_eq!(p, Position::RetainShort);
}

#[test]
fn retain_long_inside_lower_half() {
    let bands = example_bands();
    let p = bands.trade_signal(&Dec::new(99, 0), &Dec::new(100, 0));
    assert_eq!(p, Position::RetainLong);
}

#[test]
fn short_term_baseline_is_subtracted() {
    let mut p = pair(Dec::new(2, 2));
    p.original_st_spread = Dec::new(1, 1);
    let bands = TradeBands::try_new(p, Dec::new(0, 0)).unwrap();
    // ln(1.1) - 0.1 is about -0.0047: inside the lower half.
    assert_eq!(bands.trade_signal(&Dec::new(110, 0), &Dec::new(100, 0)), Position::RetainLong);
}

#[test]
fn boundaries_need_strict_crossing() {
    let bands = example_bands();
    assert_eq!(bands.position_for_spread(Dec::new(2, 2)), Position::RetainShort);
    assert_eq!(bands.position_for_spread(Dec::new(20, 3)), Position::RetainShort);
    assert_eq!(bands.position_for_spread(Dec::new(-2, 2)), Position::RetainLong);
    assert_eq!(bands.position_for_spread(Dec::new(0, 5)), Position::RetainLong);
    assert_eq!(bands.position_for_spread(Dec::new(21, 3)), Position::Short);
    assert_eq!(bands.position_for_spread(Dec::new(-21, 3)), Position::Long);
}

#[test]
fn signal_is_repeatable() {
    let bands = example_bands();
    let a = bands.trade_signal(&Dec::new(110, 0), &Dec::new(100, 0));
    let b = bands.trade_signal(&Dec::new(110, 0), &Dec::new(100, 0));
    assert_eq!(a, b);
}

#[test]
fn nonpositive_price_gives_no_signal() {
    let bands = example_bands();
    assert_eq!(bands.try_trade_signal(&Dec::new(0, 0), &Dec::new(100, 0)), None);
    assert_eq!(bands.try_trade_signal(&Dec::new(100, 0), &Dec::new(-5, 0)), None);
    assert_eq!(
        bands.try_trade_signal(&Dec::new(90, 0), &Dec::new(100, 0)),
        Some(Position::Long)
    );
}

#[test]
fn log_spread_of_ten_percent() {
    let s = log_spread(Dec::new(110, 0), Dec::new(100, 0), Dec::new(0, 0)).unwrap();
    let diff = (value(s) - Decimal::new(953102, 7)).abs();
    assert!(diff < Decimal::new(1, 6));
}
