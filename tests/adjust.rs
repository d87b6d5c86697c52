use chrono::{Datelike, NaiveDate, TimeZone, Utc};
use double_trouble::adjust::{
    adjust_prices, adjust_series, adjustments, cumulative_adjustments, dividend_adjustments, Date,
    Timestamp,
};
use double_trouble::decimal::Dec;
use double_trouble::window::{history_window, price_windows};
use rust_decimal::Decimal;

fn day(y: i32, m: u32, d: u32) -> Date {
    Date { days: NaiveDate::from_ymd_opt(y, m, d).unwrap().num_days_from_ce() }
}

fn at(y: i32, m: u32, d: u32) -> Timestamp {
    let t = Utc.with_ymd_and_hms(y, m, d, 0, 0, 0).unwrap();
    Timestamp { seconds: t.timestamp(), nanos: 0 }
}

fn value(d: Dec) -> Decimal {
    Decimal::from_i128_with_scale(d.mantissa, d.scale)
}

fn values<T: Copy>(v: &[(T, Dec)]) -> Vec<(T, Decimal)> {
    v.iter().map(|(t, d)| (*t, value(*d))).collect()
}

#[test]
fn test_dividend_adjustments() {
    let prices = vec![(at(2021, 1, 1), Dec::new(10000, 2)), (at(2021, 1, 2), Dec::new(9000, 2))];
    let dividends = vec![(day(2021, 1, 2), Dec::new(1000, 2))];

    let adjustments = dividend_adjustments(&prices, &dividends).unwrap();
    assert_eq!(values(&adjustments), vec![(day(2021, 1, 2), Decimal::new(9, 1))]);
}

#[test]
fn test_adjustments() {
    let prices = vec![
        (at(2021, 1, 1), Dec::new(10000, 2)),
        (at(2021, 1, 2), Dec::new(9000, 2)),
        (at(2021, 1, 3), Dec::new(4500, 2)),
    ];
    let dividends = vec![(day(2021, 1, 2), Dec::new(1000, 2))];
    let splits = vec![(day(2021, 1, 3), Dec::new(5, 1))];

    let adjustments = adjustments(&prices, &dividends, &splits).unwrap();
    assert_eq!(
        values(&adjustments),
        vec![(day(2021, 1, 2), Decimal::new(9, 1)), (day(2021, 1, 3), Decimal::new(5, 1))]
    );
}

#[test]
fn test_cumulative_adjustments() {
    let adjustments = vec![(day(2021, 1, 2), Dec::new(9, 1)), (day(2021, 1, 3), Dec::new(5, 1))];
    let cumulative = cumulative_adjustments(&adjustments).unwrap();
    assert_eq!(
        values(&cumulative),
        vec![(day(2021, 1, 2), Decimal::new(45, 2)), (day(2021, 1, 3), Decimal::new(5, 1))]
    );
}

#[test]
fn test_adjust_prices() {
    let prices = vec![(
        "AAPL".to_string(),
        vec![
            (at(2021, 1, 1), Dec::new(10000, 2)),
            (at(2021, 1, 2), Dec::new(9000, 2)),
            (at(2021, 1, 3), Dec::new(4500, 2)),
        ],
    )];
    let dividends = vec![("AAPL".to_string(), vec![(day(2021, 1, 2), Dec::new(1000, 2))])];
    let splits = vec![("AAPL".to_string(), vec![(day(2021, 1, 3), Dec::new(5, 1))])];
    let adjusted_prices = adjust_prices(prices, &dividends, &splits).unwrap();
    let aapl = adjusted_prices.iter().find(|(t, _)| t == "AAPL").map(|(_, v)| values(v));
    assert_eq!(
        aapl,
        Some(vec![
            (at(2021, 1, 1), Decimal::new(4500, 2)),
            (at(2021, 1, 2), Decimal::new(4500, 2)),
            (at(2021, 1, 3), Decimal::new(4500, 2)),
        ]),
    )
}

#[test]
fn dividend_on_first_day_has_no_adjustment() {
    let prices = vec![(at(2021, 1, 1), Dec::new(100, 0)), (at(2021, 1, 2), Dec::new(90, 0))];
    let dividends = vec![(day(2021, 1, 1), Dec::new(10, 0)), (day(2021, 2, 1), Dec::new(1, 0))];
    assert!(dividend_adjustments(&prices, &dividends).unwrap().is_empty());
}

#[test]
fn zero_close_gives_no_adjustment() {
    let prices = vec![(at(2021, 1, 1), Dec::new(0, 0)), (at(2021, 1, 2), Dec::new(90, 0))];
    let dividends = vec![(day(2021, 1, 2), Dec::new(10, 0))];
    assert!(dividend_adjustments(&prices, &dividends).is_none());
}

#[test]
fn adjustments_are_sorted_by_day() {
    let prices = vec![(at(2021, 1, 4), Dec::new(100, 0)), (at(2021, 1, 5), Dec::new(90, 0))];
    let dividends = vec![(day(2021, 1, 5), Dec::new(10, 0))];
    let splits = vec![(day(2021, 1, 9), Dec::new(2, 0)), (day(2021, 1, 1), Dec::new(3, 0))];
    let a = adjustments(&prices, &dividends, &splits).unwrap();
    let days: Vec<Date> = a.iter().map(|x| x.0).collect();
    assert_eq!(days, vec![day(2021, 1, 1), day(2021, 1, 5), day(2021, 1, 9)]);
}

#[test]
fn cumulative_of_nothing_is_nothing() {
    assert!(cumulative_adjustments(&vec![]).unwrap().is_empty());
}

#[test]
fn prices_are_matched_by_utc_day() {
    let prices = vec![
        (Timestamp { seconds: -86401, nanos: 0 }, Dec::new(100, 0)),
        (Timestamp { seconds: -1, nanos: 0 }, Dec::new(50, 0)),
        (Timestamp { seconds: 86399, nanos: 5 }, Dec::new(40, 0)),
    ];
    let dividends = vec![(day(1970, 1, 1), Dec::new(5, 0)), (day(1969, 12, 31), Dec::new(10, 0))];
    let a = dividend_adjustments(&prices, &dividends).unwrap();
    assert_eq!(
        values(&a),
        vec![(day(1970, 1, 1), Decimal::new(9, 1)), (day(1969, 12, 31), Decimal::new(9, 1))]
    );
}

#[test]
fn series_scan_moves_one_factor_per_price() {
    let prices = vec![
        (at(2021, 1, 1), Dec::new(100, 0)),
        (at(2021, 1, 3), Dec::new(100, 0)),
        (at(2021, 1, 5), Dec::new(100, 0)),
        (at(2021, 1, 6), Dec::new(100, 0)),
    ];
    let cumulative = vec![(day(2021, 1, 2), Dec::new(5, 1)), (day(2021, 1, 4), Dec::new(2, 0))];
    let out = adjust_series(&prices, &cumulative).unwrap();
    assert_eq!(
        values(&out),
        vec![
            (at(2021, 1, 1), Decimal::new(50, 0)),
            (at(2021, 1, 3), Decimal::new(200, 0)),
            (at(2021, 1, 5), Decimal::new(100, 0)),
            (at(2021, 1, 6), Decimal::new(100, 0)),
        ]
    );
}

#[test]
fn history_ends_on_previous_business_day() {
    // 2021-01-05 is a Tuesday; the business day before is Monday 2021-01-04.
    let (start, end) = history_window(day(2021, 1, 5)).unwrap();
    assert_eq!(end, day(2021, 1, 4));
    assert!(start.days < end.days - 100);
}

#[test]
fn three_query_windows() {
    let w = price_windows(day(2020, 8, 1), day(2021, 1, 4));
    assert_eq!(w.len(), 3);
    assert_eq!(w[0].0, day(2020, 8, 1));
    assert_eq!(w[2].1, day(2021, 1, 4));
    assert!(w[0].1.days < w[1].0.days);
    assert!(w[1].1.days < w[2].0.days);
}
