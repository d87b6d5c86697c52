//! The business-day windows that historical prices are downloaded for.
use crate::adjust::Date;
use bdays::calendars::us::USSettlement;
use bdays::HolidayCalendar;
use chrono::{Datelike, NaiveDate};
use vstd::prelude::*;

verus! {

/// First day that business-day arithmetic accepts: 0001-01-01.
pub const MIN_CALENDAR_DAY: i32 = 1;

/// Last day that business-day arithmetic accepts: 9999-12-31.
pub const MAX_CALENDAR_DAY: i32 = 3652059;

/// Business days of history before the last full day.
pub const HISTORY_BUSINESS_DAYS: i32 = 100;

/// Minutes per downloaded price bar.
pub const BAR_MINUTES: u32 = 5;

/// Largest number of bars one query asks for.
pub const QUERY_LIMIT: u32 = 50000;

/// The day `count` business days from `day` in the US settlement calendar, as the
/// `bdays` crate computes it.
pub uninterp spec fn business_days_from(day: int, count: int) -> int;

pub open spec fn in_calendar(day: int) -> bool {
    MIN_CALENDAR_DAY <= day <= MAX_CALENDAR_DAY
}

/// Relies on `bdays::HolidayCalendar::advance_bdays` for `USSettlement`: the day
/// `count` business days from `day`.
#[verifier::external_body]
fn advance_bdays(day: Date, count: i32) -> (r: Date)
    requires
        in_calendar(day.days as int),
        -1000 <= count <= 1000,
    ensures
        r.days == business_days_from(day.days as int, count as int),
{
    let d = NaiveDate::from_num_days_from_ce_opt(day.days).unwrap();
    Date { days: USSettlement.advance_bdays(d, count).num_days_from_ce() }
}

/// The three query windows covering `start` to `end`: the history is split in three
/// so that each query stays under the provider's limit.
pub open spec fn price_windows_of(start: int, end: int) -> Seq<(int, int)> {
    seq![
        (start, business_days_from(end, -67)),
        (business_days_from(end, -66), business_days_from(end, -34)),
        (business_days_from(end, -33), end),
    ]
}

pub open spec fn window_days(w: Seq<(Date, Date)>) -> Seq<(int, int)> {
    w.map_values(|x: (Date, Date)| (x.0.days as int, x.1.days as int))
}

/// The query windows for the prices from `start` to `end`.
pub fn price_windows(start: Date, end: Date) -> (r: Vec<(Date, Date)>)
    requires
        in_calendar(end.days as int),
    ensures
        window_days(r@) == price_windows_of(start.days as int, end.days as int),
{
    let end_1 = advance_bdays(end, -67);
    let start_2 = advance_bdays(end, -66);
    let end_2 = advance_bdays(end, -34);
    let start_3 = advance_bdays(end, -33);
    let r = vec![(start, end_1), (start_2, end_2), (start_3, end)];
    proof {
        assert(window_days(r@) =~= price_windows_of(start.days as int, end.days as int));
    }
    r
}

/// The first and last day of the history downloaded on `today`: the business day
/// before today, and `HISTORY_BUSINESS_DAYS` business days before that. `None` where
/// the last day falls outside the calendar.
pub fn history_window(today: Date) -> (r: Option<(Date, Date)>)
    requires
        in_calendar(today.days as int),
    ensures
        ({
            let end = business_days_from(today.days as int, -1);
            match r {
                Some((s, e)) => in_calendar(end) && e.days == end && s.days == business_days_from(
                    end,
                    -100,
                ),
                None => !in_calendar(end),
            }
        }),
{
    let end = advance_bdays(today, -1);
    if end.days < MIN_CALENDAR_DAY || end.days > MAX_CALENDAR_DAY {
        return None;
    }
    let start = advance_bdays(end, -HISTORY_BUSINESS_DAYS);
    Some((start, end))
}

} // verus!
