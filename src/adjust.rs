//! Adjustment of historical prices for dividends and splits.
use crate::decimal::{checked_div, checked_mul, checked_sub, difference_of, product_of, quotient_of, Dec};
use crate::signal::dec_of;
use chrono::{DateTime, Datelike};
use vstd::prelude::*;

verus! {

/// A calendar day, numbered as `chrono` numbers them: 0001-01-01 is day 1.
#[derive(Clone, Copy, Debug, PartialEq, Eq, Structural)]
pub struct Date {
    pub days: i32,
}

/// An instant: seconds and nanoseconds since 1970-01-01 00:00:00 UTC.
#[derive(Clone, Copy, Debug, PartialEq, Eq, Structural)]
pub struct Timestamp {
    pub seconds: i64,
    pub nanos: u32,
}

/// The day number of 1970-01-01.
pub const UNIX_EPOCH_DAY: i32 = 719163;

/// Instants within this many seconds of 1970 have a calendar day.
pub const MAX_TIMESTAMP_SECONDS: i64 = 8000000000000;

impl Timestamp {
    pub open spec fn wf(self) -> bool {
        &&& -MAX_TIMESTAMP_SECONDS <= self.seconds <= MAX_TIMESTAMP_SECONDS
        &&& self.nanos < 1000000000
    }

    /// The UTC calendar day of the instant.
    pub open spec fn day(self) -> int {
        self.seconds as int / 86400 + UNIX_EPOCH_DAY
    }
}

/// Relies on `chrono::DateTime::<Utc>::from_timestamp`, `date_naive` and
/// `num_days_from_ce`: the UTC calendar day of an instant.
#[verifier::external_body]
pub(crate) fn utc_date(t: Timestamp) -> (r: Date)
    requires
        t.wf(),
    ensures
        r.days == t.day(),
{
    Date { days: DateTime::from_timestamp(t.seconds, t.nanos).unwrap().date_naive().num_days_from_ce() }
}

pub open spec fn series_wf(prices: Seq<(Timestamp, Dec)>) -> bool {
    forall|i: int| 0 <= i < prices.len() ==> (#[trigger] prices[i]).0.wf() && prices[i].1.wf()
}

pub open spec fn events_wf(events: Seq<(Date, Dec)>) -> bool {
    forall|i: int| 0 <= i < events.len() ==> (#[trigger] events[i]).1.wf()
}

proof fn lemma_dividend_failure_persists(
    prices: Seq<(Timestamp, Dec)>,
    dividends: Seq<(Date, Dec)>,
    m: int,
    k: int,
)
    requires
        0 <= m <= k <= dividends.len(),
        dividend_adjustments_of(prices, dividends.subrange(0, m)) is None,
    ensures
        dividend_adjustments_of(prices, dividends.subrange(0, k)) is None,
    decreases k - m,
{
    if m < k {
        let pre = dividends.subrange(0, m + 1);
        assert(pre.drop_last() =~= dividends.subrange(0, m));
        lemma_dividend_failure_persists(prices, dividends, m + 1, k);
    }
}

/// The first `i` from `from` on such that price `i + 1` falls on `day`.
pub open spec fn pair_index_from(prices: Seq<(Timestamp, Dec)>, day: int, from: int) -> Option<int>
    decreases prices.len() - from,
{
    if from < 0 || from + 1 >= prices.len() {
        None
    } else if prices[from + 1].0.day() == day {
        Some(from)
    } else {
        pair_index_from(prices, day, from + 1)
    }
}

/// The factor of a dividend `amount` paid after a close of `close`: `1 - amount / close`.
pub open spec fn dividend_factor_of(close: Dec, amount: Dec) -> Option<(int, int)> {
    match quotient_of(amount.parts(), close.parts()) {
        Some(q) => difference_of((1, 0), q),
        None => None,
    }
}

/// One adjustment per dividend whose ex-date is the day of a price after the first,
/// in the order of the dividends: the dividend factor against the close before that
/// day. `None` where a factor cannot be computed.
pub open spec fn dividend_adjustments_of(
    prices: Seq<(Timestamp, Dec)>,
    dividends: Seq<(Date, Dec)>,
) -> Option<Seq<(Date, Dec)>>
    decreases dividends.len(),
{
    if dividends.len() == 0 {
        Some(seq![])
    } else {
        match dividend_adjustments_of(prices, dividends.drop_last()) {
            None => None,
            Some(init) => {
                let d = dividends.last();
                match pair_index_from(prices, d.0.days as int, 0) {
                    None => Some(init),
                    Some(i) => match dividend_factor_of(prices[i].1, d.1) {
                        Some(f) => Some(init.push((d.0, dec_of(f)))),
                        None => None,
                    },
                }
            },
        }
    }
}

/// Sorted by day.
pub open spec fn sorted_by_day(v: Seq<(Date, Dec)>) -> bool {
    forall|i: int, j: int| 0 <= i < j < v.len() ==> v[i].0.days <= v[j].0.days
}

/// The entries of `v` on `day`, in order.
pub open spec fn on_day(v: Seq<(Date, Dec)>, day: Date) -> Seq<(Date, Dec)> {
    v.filter(|x: (Date, Dec)| x.0 == day)
}

/// `r` is `v` sorted by day, entries of one day kept in their order.
pub open spec fn stable_sorted(r: Seq<(Date, Dec)>, v: Seq<(Date, Dec)>) -> bool {
    &&& sorted_by_day(r)
    &&& forall|day: Date| #[trigger] on_day(r, day) == on_day(v, day)
}

/// Relies on `slice::sort_by_key`, a stable sort, here keyed by day.
#[verifier::external_body]
fn sort_by_day(v: Vec<(Date, Dec)>) -> (r: Vec<(Date, Dec)>)
    ensures
        stable_sorted(r@, v@),
        r@.to_multiset() == v@.to_multiset(),
{
    let mut v = v;
    v.sort_by_key(|x| x.0.days);
    v
}

/// Running products from the back: entry `i` keeps its day and takes the product
/// of the factors from `i` to the end, multiplied from the end.
pub open spec fn cumulative_of(adjustments: Seq<(Date, Dec)>) -> Option<Seq<(Date, Dec)>>
    decreases adjustments.len(),
{
    if adjustments.len() == 0 {
        Some(seq![])
    } else {
        match cumulative_of(adjustments.drop_first()) {
            None => None,
            Some(rest) => {
                let acc = if rest.len() == 0 {
                    (1int, 0int)
                } else {
                    rest[0].1.parts()
                };
                match product_of(acc, adjustments[0].1.parts()) {
                    Some(p) => Some(seq![(adjustments[0].0, dec_of(p))] + rest),
                    None => None,
                }
            },
        }
    }
}

/// One step of the adjustment scan: the factor index after a price of day `day`
/// when the scan stood at `k`, and the factor that price takes, if any.
pub open spec fn scan_step(cumulative: Seq<(Date, Dec)>, k: int, day: int) -> (int, Option<Dec>) {
    if k < cumulative.len() {
        if day < cumulative[k].0.days {
            (k, Some(cumulative[k].1))
        } else if k + 1 < cumulative.len() {
            (k + 1, Some(cumulative[k + 1].1))
        } else {
            (k + 1, None)
        }
    } else {
        (k, None)
    }
}

/// A price times its factor, or the price itself where it takes none.
pub open spec fn scaled_of(price: Dec, factor: Option<Dec>) -> Option<Dec> {
    match factor {
        Some(f) => match product_of(price.parts(), f.parts()) {
            Some(p) => Some(dec_of(p)),
            None => None,
        },
        None => Some(price),
    }
}

/// The adjusted prices from the scan standing at `k`; `None` where a product
/// cannot be computed.
pub open spec fn scan_of(prices: Seq<(Timestamp, Dec)>, cumulative: Seq<(Date, Dec)>, k: int) -> Option<
    Seq<(Timestamp, Dec)>,
>
    decreases prices.len(),
{
    if prices.len() == 0 {
        Some(seq![])
    } else {
        let (t, p) = prices[0];
        let (k2, factor) = scan_step(cumulative, k, t.day());
        match (scaled_of(p, factor), scan_of(prices.drop_first(), cumulative, k2)) {
            (Some(x), Some(rest)) => Some(seq![(t, x)] + rest),
            _ => None,
        }
    }
}

proof fn lemma_pair_index_from(prices: Seq<(Timestamp, Dec)>, day: int, from: int)
    ensures
        pair_index_from(prices, day, from) matches Some(i) ==> from <= i && i + 1 < prices.len(),
    decreases prices.len() - from,
{
    if from >= 0 && from + 1 < prices.len() && prices[from + 1].0.day() != day {
        lemma_pair_index_from(prices, day, from + 1);
    }
}

fn pair_index(prices: &Vec<(Timestamp, Dec)>, day: i32) -> (r: Option<usize>)
    requires
        series_wf(prices@),
    ensures
        r matches Some(i) ==> pair_index_from(prices@, day as int, 0) == Some(i as int),
        r is None ==> pair_index_from(prices@, day as int, 0) is None,
        r matches Some(i) ==> i + 1 < prices.len(),
{
    proof {
        lemma_pair_index_from(prices@, day as int, 0);
    }
    let n = prices.len();
    let mut i: usize = 0;
    while i < n && i + 1 < n
        invariant
            n == prices.len(),
            i <= n,
            series_wf(prices@),
            pair_index_from(prices@, day as int, 0) == pair_index_from(prices@, day as int, i as int),
        decreases n - i,
    {
        let d = utc_date(prices[i + 1].0);
        if d.days == day {
            return Some(i);
        }
        i = i + 1;
    }
    None
}

/// The adjustment factor of each dividend paid on the day of a price after the
/// first; `None` where a factor cannot be computed (a zero close, or overflow).
pub fn dividend_adjustments(prices: &Vec<(Timestamp, Dec)>, dividends: &Vec<(Date, Dec)>) -> (r:
    Option<Vec<(Date, Dec)>>)
    requires
        series_wf(prices@),
        events_wf(dividends@),
    ensures
        match dividend_adjustments_of(prices@, dividends@) {
            Some(s) => r matches Some(v) && v@ == s,
            None => r is None,
        },
        r matches Some(v) ==> events_wf(v@),
{
    let mut out: Vec<(Date, Dec)> = Vec::new();
    let n = dividends.len();
    let mut j: usize = 0;
    proof {
        assert(dividends@.subrange(0, 0) =~= Seq::<(Date, Dec)>::empty());
    }
    while j < n
        invariant
            n == dividends.len(),
            j <= n,
            series_wf(prices@),
            events_wf(dividends@),
            events_wf(out@),
            dividend_adjustments_of(prices@, dividends@.subrange(0, j as int)) == Some(out@),
        decreases n - j,
    {
        let d = dividends[j];
        proof {
            let pre = dividends@.subrange(0, j as int + 1);
            assert(pre.drop_last() =~= dividends@.subrange(0, j as int));
            assert(pre.last() == d);
        }
        match pair_index(prices, d.0.days) {
            Some(i) => {
                let close = prices[i].1;
                let q = match checked_div(d.1, close) {
                    Some(q) => q,
                    None => {
                        proof {
                            lemma_dividend_failure_persists(prices@, dividends@, j as int + 1, n as int);
                            assert(dividends@.subrange(0, n as int) =~= dividends@);
                        }
                        return None;
                    },
                };
                match checked_sub(Dec::new(1, 0), q) {
                    Some(f) => out.push((d.0, f)),
                    None => {
                        proof {
                            lemma_dividend_failure_persists(prices@, dividends@, j as int + 1, n as int);
                            assert(dividends@.subrange(0, n as int) =~= dividends@);
                        }
                        return None;
                    },
                }
            },
            None => {},
        }
        j = j + 1;
    }
    proof {
        assert(dividends@.subrange(0, n as int) =~= dividends@);
    }
    Some(out)
}

/// The dividend adjustments followed by the splits, sorted by day (entries of one
/// day keep that order); `None` where a dividend factor cannot be computed.
pub fn adjustments(
    prices: &Vec<(Timestamp, Dec)>,
    dividends: &Vec<(Date, Dec)>,
    splits: &Vec<(Date, Dec)>,
) -> (r: Option<Vec<(Date, Dec)>>)
    requires
        series_wf(prices@),
        events_wf(dividends@),
        events_wf(splits@),
    ensures
        match dividend_adjustments_of(prices@, dividends@) {
            Some(s) => r matches Some(v) && stable_sorted(v@, s + splits@),
            None => r is None,
        },
        r matches Some(v) ==> events_wf(v@),
{
    let mut all = match dividend_adjustments(prices, dividends) {
        Some(v) => v,
        None => return None,
    };
    let ghost divs = all@;
    let n = splits.len();
    let mut j: usize = 0;
    while j < n
        invariant
            n == splits.len(),
            j <= n,
            events_wf(divs),
            events_wf(splits@),
            all@ == divs + splits@.subrange(0, j as int),
        decreases n - j,
    {
        all.push(splits[j]);
        proof {
            assert(divs + splits@.subrange(0, j as int + 1) =~= (divs + splits@.subrange(
                0,
                j as int,
            )).push(splits@[j as int]));
        }
        j = j + 1;
    }
    proof {
        assert(splits@.subrange(0, n as int) =~= splits@);
    }
    let sorted = sort_by_day(all);
    proof {
        assert forall|i: int| 0 <= i < sorted@.len() implies (#[trigger] sorted@[i]).1.wf() by {
            sorted@.to_multiset_ensures();
            all@.to_multiset_ensures();
            assert(sorted@.contains(sorted@[i]));
            assert(sorted@.to_multiset().count(sorted@[i]) > 0);
            assert(all@.to_multiset().count(sorted@[i]) > 0);
            assert(all@.contains(sorted@[i]));
            let k = choose|k: int| 0 <= k < all@.len() && all@[k] == sorted@[i];
            if k < divs.len() {
                assert(all@[k] == divs[k]);
            } else {
                assert(all@[k] == splits@[k - divs.len()]);
            }
        }
    }
    Some(sorted)
}

/// Running products of the factors from the back: entry `i` keeps its day and
/// takes the product of factors `i` to the end; `None` on overflow.
pub fn cumulative_adjustments(adjustments: &Vec<(Date, Dec)>) -> (r: Option<Vec<(Date, Dec)>>)
    requires
        events_wf(adjustments@),
    ensures
        match cumulative_of(adjustments@) {
            Some(s) => r matches Some(v) && v@ == s,
            None => r is None,
        },
        r matches Some(v) ==> events_wf(v@),
{
    let n = adjustments.len();
    let mut out: Vec<(Date, Dec)> = Vec::new();
    let mut j: usize = 0;
    while j < n
        invariant
            n == adjustments.len(),
            j <= n,
            out.len() == j,
        decreases n - j,
    {
        out.push((Date { days: 0 }, Dec::new(0, 0)));
        j = j + 1;
    }
    let mut i: usize = n;
    proof {
        assert(adjustments@.subrange(n as int, n as int) =~= Seq::<(Date, Dec)>::empty());
        assert(out@.subrange(n as int, n as int) =~= Seq::<(Date, Dec)>::empty());
    }
    while i > 0
        invariant
            n == adjustments.len(),
            out.len() == n,
            i <= n,
            events_wf(adjustments@),
            events_wf(out@.subrange(i as int, n as int)),
            cumulative_of(adjustments@.subrange(i as int, n as int)) == Some(
                out@.subrange(i as int, n as int),
            ),
        decreases i,
    {
        let acc = if i == n {
            Dec::new(1, 0)
        } else {
            proof {
                assert(out@.subrange(i as int, n as int)[0] == out@[i as int]);
            }
            out[i].1
        };
        let a = adjustments[i - 1];
        let ghost suffix = adjustments@.subrange(i - 1, n as int);
        proof {
            assert(suffix.drop_first() =~= adjustments@.subrange(i as int, n as int));
            assert(suffix[0] == a);
        }
        match checked_mul(acc, a.1) {
            Some(p) => {
                let ghost old_out = out@;
                out.set(i - 1, (a.0, p));
                proof {
                    assert(out@.subrange(i - 1, n as int) =~= seq![(a.0, p)] + old_out.subrange(
                        i as int,
                        n as int,
                    ));
                }
            },
            None => {
                proof {
                    lemma_cumulative_failure_persists(adjustments@, i as int - 1);
                    assert(adjustments@.subrange(0, n as int) =~= adjustments@);
                }
                return None;
            },
        }
        i = i - 1;
    }
    proof {
        assert(adjustments@.subrange(0, n as int) =~= adjustments@);
        assert(out@.subrange(0, n as int) =~= out@);
    }
    Some(out)
}

proof fn lemma_cumulative_failure_persists(adjustments: Seq<(Date, Dec)>, m: int)
    requires
        0 <= m <= adjustments.len(),
        cumulative_of(adjustments.subrange(m, adjustments.len() as int)) is None,
    ensures
        cumulative_of(adjustments.subrange(0, adjustments.len() as int)) is None,
    decreases m,
{
    if m > 0 {
        let s = adjustments.subrange(m - 1, adjustments.len() as int);
        assert(s.drop_first() =~= adjustments.subrange(m, adjustments.len() as int));
        lemma_cumulative_failure_persists(adjustments, m - 1);
    }
}

/// Scales each price by the factor in force on its day: the scan over `cumulative`
/// starts at the first factor, takes a price before that factor's day at that
/// factor, and otherwise moves one factor on (to none after the last).
pub fn adjust_series(prices: &Vec<(Timestamp, Dec)>, cumulative: &Vec<(Date, Dec)>) -> (r: Option<
    Vec<(Timestamp, Dec)>,
>)
    requires
        series_wf(prices@),
        events_wf(cumulative@),
    ensures
        match scan_of(prices@, cumulative@, 0) {
            Some(s) => r matches Some(v) && v@ == s,
            None => r is None,
        },
{
    let n = prices.len();
    let m = cumulative.len();
    let mut out: Vec<(Timestamp, Dec)> = Vec::new();
    let mut i: usize = 0;
    let mut k: usize = 0;
    proof {
        assert(prices@.subrange(0, n as int) =~= prices@);
    }
    while i < n
        invariant
            n == prices.len(),
            m == cumulative.len(),
            i <= n,
            k <= m,
            series_wf(prices@),
            events_wf(cumulative@),
            scan_of(prices@, cumulative@, 0) == match scan_of(
                prices@.subrange(i as int, n as int),
                cumulative@,
                k as int,
            ) {
                Some(rest) => Some(out@ + rest),
                None => None,
            },
        decreases n - i,
    {
        let (t, p) = prices[i];
        let ghost suffix = prices@.subrange(i as int, n as int);
        proof {
            assert(suffix.drop_first() =~= prices@.subrange(i + 1, n as int));
            assert(suffix[0] == (t, p));
        }
        let day = utc_date(t);
        let factor: Option<Dec>;
        if k < m {
            if day.days < cumulative[k].0.days {
                factor = Some(cumulative[k].1);
            } else {
                k = k + 1;
                if k < m {
                    factor = Some(cumulative[k].1);
                } else {
                    factor = None;
                }
            }
        } else {
            factor = None;
        }
        let x = match factor {
            Some(f) => match checked_mul(p, f) {
                Some(x) => x,
                None => return None,
            },
            None => p,
        };
        let ghost before = out@;
        out.push((t, x));
        proof {
            assert forall|rest: Seq<(Timestamp, Dec)>|
                #![auto]
                before + (seq![(t, x)] + rest) =~= out@ + rest by {}
        }
        i = i + 1;
    }
    proof {
        assert(out@ + Seq::<(Timestamp, Dec)>::empty() =~= out@);
    }
    Some(out)
}

/// The events of the first entry for `ticker`.
pub open spec fn events_for(data: Seq<(String, Vec<(Date, Dec)>)>, ticker: Seq<char>) -> Option<
    Seq<(Date, Dec)>,
>
    decreases data.len(),
{
    if data.len() == 0 {
        None
    } else if data[0].0@ == ticker {
        Some(data[0].1@)
    } else {
        events_for(data.drop_first(), ticker)
    }
}

/// `prices` scaled by the running products of the adjustments in `order`.
pub open spec fn adjusted_by(prices: Seq<(Timestamp, Dec)>, order: Seq<(Date, Dec)>) -> Option<
    Seq<(Timestamp, Dec)>,
> {
    match cumulative_of(order) {
        Some(c) => scan_of(prices, c, 0),
        None => None,
    }
}

/// `result` is `prices` adjusted for `dividends` and `splits`: scaled by the running
/// products of the dividend adjustments and the splits sorted by day, or `None`
/// where a step cannot be computed.
pub open spec fn adjusts(
    prices: Seq<(Timestamp, Dec)>,
    dividends: Seq<(Date, Dec)>,
    splits: Seq<(Date, Dec)>,
    result: Option<Seq<(Timestamp, Dec)>>,
) -> bool {
    match dividend_adjustments_of(prices, dividends) {
        None => result is None,
        Some(d) => exists|order: Seq<(Date, Dec)>|
            stable_sorted(order, d + splits) && adjusted_by(prices, order) == result,
    }
}

pub open spec fn seq_of<T>(v: Option<Vec<T>>) -> Option<Seq<T>> {
    match v {
        Some(x) => Some(x@),
        None => None,
    }
}

/// One ticker's prices adjusted for its dividends and splits.
pub fn adjust_ticker_prices(
    prices: &Vec<(Timestamp, Dec)>,
    dividends: &Vec<(Date, Dec)>,
    splits: &Vec<(Date, Dec)>,
) -> (r: Option<Vec<(Timestamp, Dec)>>)
    requires
        series_wf(prices@),
        events_wf(dividends@),
        events_wf(splits@),
    ensures
        adjusts(prices@, dividends@, splits@, seq_of(r)),
{
    let order = match adjustments(prices, dividends, splits) {
        Some(v) => v,
        None => return None,
    };
    let cumulative = cumulative_adjustments(&order);
    let r = match cumulative {
        Some(c) => adjust_series(prices, &c),
        None => None,
    };
    proof {
        let d = dividend_adjustments_of(prices@, dividends@).unwrap();
        assert(stable_sorted(order@, d + splits@) && adjusted_by(prices@, order@) == seq_of(r));
    }
    r
}

fn find_events(data: &Vec<(String, Vec<(Date, Dec)>)>, ticker: &String) -> (r: Option<usize>)
    ensures
        r matches Some(i) ==> i < data.len() && events_for(data@, ticker@) == Some(
            data@[i as int].1@,
        ),
        r is None ==> events_for(data@, ticker@) is None,
{
    let n = data.len();
    let mut i: usize = 0;
    proof {
        assert(data@.subrange(0, n as int) =~= data@);
    }
    while i < n
        invariant
            n == data.len(),
            i <= n,
            events_for(data@, ticker@) == events_for(data@.subrange(i as int, n as int), ticker@),
        decreases n - i,
    {
        let ghost rest = data@.subrange(i as int, n as int);
        proof {
            assert(rest.drop_first() =~= data@.subrange(i + 1, n as int));
            assert(rest[0] == data@[i as int]);
        }
        if data[i].0 == *ticker {
            return Some(i);
        }
        i = i + 1;
    }
    None
}

pub open spec fn data_wf(data: Seq<(String, Vec<(Date, Dec)>)>) -> bool {
    forall|i: int| 0 <= i < data.len() ==> events_wf(#[trigger] data[i].1@)
}

/// Every ticker's prices adjusted for that ticker's dividends and splits, in the
/// order of `price_data`; `None` where a ticker's adjustment cannot be computed.
pub fn adjust_prices(
    price_data: Vec<(String, Vec<(Timestamp, Dec)>)>,
    dividend_data: &Vec<(String, Vec<(Date, Dec)>)>,
    split_data: &Vec<(String, Vec<(Date, Dec)>)>,
) -> (r: Option<Vec<(String, Vec<(Timestamp, Dec)>)>>)
    requires
        forall|i: int| 0 <= i < price_data.len() ==> series_wf(#[trigger] price_data@[i].1@),
        data_wf(dividend_data@),
        data_wf(split_data@),
        forall|i: int|
            0 <= i < price_data.len() ==> events_for(dividend_data@, #[trigger] price_data@[i].0@)
                is Some && events_for(split_data@, price_data@[i].0@) is Some,
    ensures
        r matches Some(out) ==> out.len() == price_data.len() && forall|i: int|
            0 <= i < out.len() ==> (#[trigger] out@[i]).0 == price_data@[i].0 && adjusts(
                price_data@[i].1@,
                events_for(dividend_data@, price_data@[i].0@).unwrap(),
                events_for(split_data@, price_data@[i].0@).unwrap(),
                Some(out@[i].1@),
            ),
        r is None ==> exists|i: int|
            0 <= i < price_data.len() && adjusts(
                #[trigger] price_data@[i].1@,
                events_for(dividend_data@, price_data@[i].0@).unwrap(),
                events_for(split_data@, price_data@[i].0@).unwrap(),
                None,
            ),
{
    let ghost orig = price_data@;
    let n = price_data.len();
    let mut rest = price_data;
    let mut out: Vec<(String, Vec<(Timestamp, Dec)>)> = Vec::new();
    proof {
        assert(orig.subrange(0, n as int) =~= orig);
    }
    while rest.len() > 0
        invariant
            n == orig.len(),
            orig == price_data@,
            out.len() + rest.len() == n,
            rest@ == orig.subrange(out.len() as int, n as int),
            forall|i: int| 0 <= i < n ==> series_wf(#[trigger] orig[i].1@),
            data_wf(dividend_data@),
            data_wf(split_data@),
            forall|i: int|
                0 <= i < n ==> events_for(dividend_data@, #[trigger] orig[i].0@) is Some
                    && events_for(split_data@, orig[i].0@) is Some,
            forall|i: int|
                0 <= i < out.len() ==> (#[trigger] out@[i]).0 == orig[i].0 && adjusts(
                    orig[i].1@,
                    events_for(dividend_data@, orig[i].0@).unwrap(),
                    events_for(split_data@, orig[i].0@).unwrap(),
                    Some(out@[i].1@),
                ),
        decreases rest.len(),
    {
        let ghost k = out.len() as int;
        let (ticker, prices) = rest.remove(0);
        proof {
            assert(orig[k] == (ticker, prices));
            assert(rest@ =~= orig.subrange(k + 1, n as int));
        }
        let di = match find_events(dividend_data, &ticker) {
            Some(i) => i,
            None => return None,
        };
        let si = match find_events(split_data, &ticker) {
            Some(i) => i,
            None => return None,
        };
        proof {
            assert(events_wf(dividend_data@[di as int].1@));
            assert(events_wf(split_data@[si as int].1@));
        }
        match adjust_ticker_prices(&prices, &dividend_data[di].1, &split_data[si].1) {
            Some(adjusted) => {
                out.push((ticker, adjusted));
            },
            None => {
                proof {
                    assert(price_data@[k] == orig[k]);
                    assert(adjusts(
                        price_data@[k].1@,
                        events_for(dividend_data@, orig[k].0@).unwrap(),
                        events_for(split_data@, orig[k].0@).unwrap(),
                        None,
                    ));
                }
                return None;
            },
        }
    }
    Some(out)
}

} // verus!
