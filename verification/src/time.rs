//! Instants in UTC, as chrono's `DateTime<Utc>` holds them: whole seconds
//! since the Unix epoch and the nanoseconds within that second.

use vstd::prelude::*;
use vstd::arithmetic::div_mod::{lemma_fundamental_div_mod, lemma_fundamental_div_mod_converse};

verus! {

/// Nanoseconds in one second.
pub const NANOS_PER_SECOND: i128 = 1_000_000_000i128;

/// Nanoseconds in one day of 24 hours.
pub const NANOS_PER_DAY: i128 = 86_400_000_000_000i128;

/// An instant in UTC: `secs` is the Unix timestamp (the whole seconds since
/// 1970-01-01 00:00:00 UTC, rounded down) and `nanos` the nanoseconds past it.
#[derive(Clone, Copy, Debug, PartialEq, Eq, Structural)]
pub struct Timestamp {
    pub secs: i64,
    pub nanos: u32,
}

/// Whether `a` is the same instant as `b` or an earlier one: instants are
/// ordered by their seconds, then by their nanoseconds.
pub open spec fn at_or_before(a: Timestamp, b: Timestamp) -> bool {
    a.secs < b.secs || (a.secs == b.secs && a.nanos <= b.nanos)
}

/// The nanoseconds that pass from `earlier` to `later` (negative when
/// `later` comes first).
pub open spec fn nanos_between(earlier: Timestamp, later: Timestamp) -> int {
    (later.secs - earlier.secs) * NANOS_PER_SECOND + (later.nanos - earlier.nanos)
}

/// The seconds and nanoseconds of an optional instant.
pub open spec fn opt_parts(t: Option<Timestamp>) -> Option<(i64, u32)> {
    match t {
        Some(x) => Some((x.secs, x.nanos)),
        None => None,
    }
}

/// What chrono's `DateTime::<Utc>::checked_add_months` gives for the instant
/// with Unix timestamp `secs` and `nanos` nanoseconds, moved by `months`
/// calendar months (seconds and nanoseconds of the result), or `None` where
/// the instant or the result lies outside chrono's range of dates.
pub uninterp spec fn calendar_months_after(secs: i64, nanos: u32, months: u32) -> Option<(i64, u32)>;

/// Whether `year` is a leap year of the (proleptic) Gregorian calendar.
pub open spec fn is_leap_year(year: int) -> bool {
    (year % 4 == 0 && year % 100 != 0) || year % 400 == 0
}

/// The number of days of `month` (1 to 12) in `year`.
pub open spec fn days_in_month(year: int, month: int) -> int {
    if month == 2 {
        if is_leap_year(year) { 29 } else { 28 }
    } else if month == 4 || month == 6 || month == 9 || month == 11 {
        30
    } else {
        31
    }
}

/// The number of days of `year` before the first of `month` (1 to 12).
pub open spec fn days_before_month(year: int, month: int) -> int {
    let common: int = if month == 1 { 0 }
        else if month == 2 { 31 }
        else if month == 3 { 59 }
        else if month == 4 { 90 }
        else if month == 5 { 120 }
        else if month == 6 { 151 }
        else if month == 7 { 181 }
        else if month == 8 { 212 }
        else if month == 9 { 243 }
        else if month == 10 { 273 }
        else if month == 11 { 304 }
        else { 334 };
    if month > 2 && is_leap_year(year) { common + 1 } else { common }
}

/// How many leap years the years before `year` count, up to a constant.
pub open spec fn leap_years_before(year: int) -> int {
    (year - 1) / 4 - (year - 1) / 100 + (year - 1) / 400
}

/// The number of days from 1970-01-01 to the first of January of `year`
/// (negative for earlier years).
pub open spec fn days_before_year(year: int) -> int {
    365 * (year - 1970) + leap_years_before(year) - leap_years_before(1970)
}

/// The number of days from 1970-01-01 to the date `year`-`month`-`day`.
pub open spec fn day_number(year: int, month: int, day: int) -> int {
    days_before_year(year) + days_before_month(year, month) + day - 1
}

/// Whether `year`-`month`-`day` is a date of the calendar.
pub open spec fn is_valid_date(year: int, month: int, day: int) -> bool {
    1 <= month <= 12 && 1 <= day <= days_in_month(year, month)
}

/// The Unix timestamp of the second `time_of_day` (0 to 86399) of the date
/// `year`-`month`-`day` in UTC.
pub open spec fn unix_seconds(year: int, month: int, day: int, time_of_day: int) -> int {
    day_number(year, month, day) * 86400 + time_of_day
}

/// The date `months` calendar months after `year`-`month`-`day`: the month
/// that many months on, on the same day, or on its last day when the month
/// is shorter.
pub open spec fn months_after(year: int, month: int, day: int, months: int) -> (int, int, int) {
    let total = year * 12 + (month - 1) + months;
    let new_year = total / 12;
    let new_month = total % 12 + 1;
    let last = days_in_month(new_year, new_month);
    (new_year, new_month, if day <= last { day } else { last })
}

/// Whether `later` is the instant `months` calendar months after `t`: the
/// same time of day and nanoseconds, on the date `months_after` gives.
pub open spec fn lands_months_later(t: Timestamp, months: u32, later: Timestamp) -> bool {
    &&& later.nanos == t.nanos
    &&& forall|year: int, month: int, day: int, time_of_day: int|
        #[trigger] unix_seconds(year, month, day, time_of_day) == t.secs && is_valid_date(year, month, day)
            && 0 <= time_of_day < 86400 ==> {
            let (y, m, d) = months_after(year, month, day, months as int);
            later.secs == unix_seconds(y, m, d, time_of_day)
        }
}

impl Timestamp {
    /// Whether `self` is the instant `other` or an earlier one, as chrono
    /// compares two `DateTime<Utc>`.
    pub fn is_at_or_before(&self, other: &Timestamp) -> (r: bool)
        ensures
            r == at_or_before(*self, *other),
    {
        self.secs < other.secs || (self.secs == other.secs && self.nanos <= other.nanos)
    }

    /// Whether at most one day (24 hours) passes from `self` to `now`, that is
    /// whether `now - self <= 1 day`; an instant after `now` also counts.
    pub fn is_within_a_day_of(&self, now: &Timestamp) -> (r: bool)
        ensures
            r == (nanos_between(*self, *now) <= NANOS_PER_DAY),
    {
        let seconds: i128 = now.secs as i128 - self.secs as i128;
        let nanos: i128 = now.nanos as i128 - self.nanos as i128;
        seconds * NANOS_PER_SECOND + nanos <= NANOS_PER_DAY
    }
}

/// The current instant, read from the system clock through chrono's
/// `Utc::now`. Nothing is claimed of the value: it depends on the time.
#[verifier::external_body]
pub(crate) fn clock_now() -> (now: Timestamp) {
    let now = chrono::Utc::now();
    Timestamp { secs: now.timestamp(), nanos: now.timestamp_subsec_nanos() }
}

/// chrono's `DateTime::<Utc>::checked_add_months` applied to `t` (made a
/// `DateTime` by `DateTime::from_timestamp`). The claim: the result is
/// `calendar_months_after` of the arguments, a function of them alone, and
/// when there is one it keeps the time of day and the nanoseconds and lies
/// on the date `months` calendar months later in the proleptic Gregorian
/// calendar, on the same day or the month's last day (chrono's
/// `NaiveDate::diff_months`). When chrono answers `None` (a date out of its
/// range, a month count above `i32::MAX`) is not stated.
#[verifier::external_body]
pub(crate) fn checked_add_months(t: Timestamp, months: u32) -> (r: Option<Timestamp>)
    ensures
        opt_parts(r) == calendar_months_after(t.secs, t.nanos, months),
        r matches Some(later) ==> lands_months_later(t, months, later),
{
    let later = chrono::DateTime::from_timestamp(t.secs, t.nanos)?
        .checked_add_months(chrono::Months::new(months))?;
    Some(Timestamp { secs: later.timestamp(), nanos: later.timestamp_subsec_nanos() })
}

proof fn lemma_floor_step(y: int, k: int)
    requires
        k > 0,
    ensures
        y / k - (y - 1) / k == (if y % k == 0 { 1int } else { 0int }),
{
    lemma_fundamental_div_mod(y, k);
    let q = y / k;
    let r = y % k;
    if r > 0 {
        assert(y - 1 == q * k + (r - 1)) by (nonlinear_arith)
            requires y == k * q + r;
        lemma_fundamental_div_mod_converse(y - 1, k, q, r - 1);
    } else {
        assert(y - 1 == (q - 1) * k + (k - 1)) by (nonlinear_arith)
            requires y == k * q + r, r == 0;
        lemma_fundamental_div_mod_converse(y - 1, k, q - 1, k - 1);
    }
}

proof fn lemma_divisibility(y: int)
    ensures
        y % 400 == 0 ==> y % 100 == 0,
        y % 100 == 0 ==> y % 4 == 0,
{
    lemma_fundamental_div_mod(y, 400);
    lemma_fundamental_div_mod(y, 100);
    if y % 400 == 0 {
        lemma_fundamental_div_mod_converse(y, 100, 4 * (y / 400), 0);
    }
    if y % 100 == 0 {
        lemma_fundamental_div_mod_converse(y, 4, 25 * (y / 100), 0);
    }
}

/// A year has 365 days, 366 when it is a leap year.
pub proof fn lemma_year_length(year: int)
    ensures
        days_before_year(year + 1) == days_before_year(year) + 365 + (if is_leap_year(year) { 1int } else { 0int }),
{
    lemma_floor_step(year, 4);
    lemma_floor_step(year, 100);
    lemma_floor_step(year, 400);
    lemma_divisibility(year);
}

proof fn lemma_years_increase(y1: int, y2: int)
    requires
        y1 < y2,
    ensures
        days_before_year(y1) + 365 + (if is_leap_year(y1) { 1int } else { 0int }) <= days_before_year(y2),
    decreases y2 - y1,
{
    lemma_year_length(y1);
    if y1 + 1 < y2 {
        lemma_years_increase(y1 + 1, y2);
        lemma_year_length(y1 + 1);
    }
}

proof fn lemma_months_increase(year: int, m1: int, m2: int)
    requires
        1 <= m1 < m2 <= 12,
    ensures
        days_before_month(year, m1) + days_in_month(year, m1) <= days_before_month(year, m2),
    decreases m2 - m1,
{
    if m1 + 1 < m2 {
        lemma_months_increase(year, m1 + 1, m2);
    }
}

/// Later dates have larger day numbers: of two dates, the one with the later
/// (year, month) comes later, whatever the days.
pub proof fn lemma_day_number_increases(y1: int, m1: int, d1: int, y2: int, m2: int, d2: int)
    requires
        is_valid_date(y1, m1, d1),
        is_valid_date(y2, m2, d2),
        y1 < y2 || (y1 == y2 && m1 < m2),
    ensures
        day_number(y1, m1, d1) < day_number(y2, m2, d2),
{
    if y1 == y2 {
        lemma_months_increase(y1, m1, m2);
    } else {
        lemma_years_increase(y1, y2);
        assert(days_before_month(y1, m1) + days_in_month(y1, m1) <= 365 + (if is_leap_year(y1) { 1int } else { 0int }));
    }
}

/// Moving a date by calendar months gives a date of the calendar; by a
/// positive number of months, a later month.
pub proof fn lemma_months_after_is_a_date(year: int, month: int, day: int, months: int)
    requires
        is_valid_date(year, month, day),
        months >= 0,
    ensures
        ({
            let (y, m, d) = months_after(year, month, day, months);
            &&& is_valid_date(y, m, d)
            &&& y * 12 + (m - 1) == year * 12 + (month - 1) + months
            &&& months > 0 ==> (y > year || (y == year && m > month))
        }),
{
    let total = year * 12 + (month - 1) + months;
    lemma_fundamental_div_mod(total, 12);
}

/// Moving a date and time of day by a positive number of calendar months
/// gives a strictly later instant.
pub proof fn lemma_months_later_is_later(year: int, month: int, day: int, time_of_day: int, months: int)
    requires
        is_valid_date(year, month, day),
        0 <= time_of_day < 86400,
        months > 0,
    ensures
        ({
            let (y, m, d) = months_after(year, month, day, months);
            unix_seconds(y, m, d, time_of_day) > unix_seconds(year, month, day, time_of_day)
        }),
{
    lemma_months_after_is_a_date(year, month, day, months);
    let (y, m, d) = months_after(year, month, day, months);
    lemma_day_number_increases(year, month, day, y, m, d);
}

/// Twelve calendar months later is the same month of the next year, on the
/// same day (the last of the month when that day does not exist).
pub proof fn lemma_twelve_months_is_one_year(year: int, month: int, day: int)
    requires
        is_valid_date(year, month, day),
    ensures
        months_after(year, month, day, 12) == (year + 1, month, if day <= days_in_month(year + 1, month) {
            day
        } else {
            days_in_month(year + 1, month)
        }),
{
    lemma_fundamental_div_mod_converse(year * 12 + (month - 1) + 12, 12, year + 1, month - 1);
}

/// Zero calendar months later is the same date.
pub proof fn lemma_zero_months_is_the_same_date(year: int, month: int, day: int)
    requires
        is_valid_date(year, month, day),
    ensures
        months_after(year, month, day, 0) == (year, month, day),
{
    lemma_fundamental_div_mod_converse(year * 12 + (month - 1), 12, year, month - 1);
}

proof fn lemma_year_up(z: int, year: int) -> (found: int)
    requires
        days_before_year(year) <= z,
    ensures
        days_before_year(found) <= z < days_before_year(found + 1),
    decreases z - days_before_year(year),
{
    lemma_year_length(year);
    if z < days_before_year(year + 1) {
        year
    } else {
        lemma_year_up(z, year + 1)
    }
}

proof fn lemma_year_down(z: int, year: int) -> (found: int)
    requires
        z < days_before_year(year + 1),
    ensures
        days_before_year(found) <= z < days_before_year(found + 1),
    decreases days_before_year(year + 1) - z,
{
    lemma_year_length(year);
    if days_before_year(year) <= z {
        year
    } else {
        lemma_year_down(z, year - 1)
    }
}

/// Every Unix timestamp is a second of some date: it has a date of the
/// calendar and a time of day.
pub proof fn lemma_every_second_has_a_date(secs: int) -> (date: (int, int, int, int))
    ensures
        is_valid_date(date.0, date.1, date.2),
        0 <= date.3 < 86400,
        unix_seconds(date.0, date.1, date.2, date.3) == secs,
{
    lemma_fundamental_div_mod(secs, 86400);
    let z = secs / 86400;
    let time_of_day = secs % 86400;
    assert(days_before_year(1970) == 0);
    let year = if z >= 0 { lemma_year_up(z, 1970) } else { lemma_year_down(z, 1969) };
    lemma_year_length(year);
    let offset = z - days_before_year(year);
    let month = if offset < days_before_month(year, 2) { 1int }
        else if offset < days_before_month(year, 3) { 2int }
        else if offset < days_before_month(year, 4) { 3int }
        else if offset < days_before_month(year, 5) { 4int }
        else if offset < days_before_month(year, 6) { 5int }
        else if offset < days_before_month(year, 7) { 6int }
        else if offset < days_before_month(year, 8) { 7int }
        else if offset < days_before_month(year, 9) { 8int }
        else if offset < days_before_month(year, 10) { 9int }
        else if offset < days_before_month(year, 11) { 10int }
        else if offset < days_before_month(year, 12) { 11int }
        else { 12int };
    let day = offset - days_before_month(year, month) + 1;
    (year, month, day, time_of_day)
}

/// An instant a positive number of calendar months after `t` is strictly
/// later than `t`, with the same nanoseconds.
pub proof fn lemma_calendar_months_later_is_later(t: Timestamp, months: u32, later: Timestamp)
    requires
        lands_months_later(t, months, later),
        months > 0,
    ensures
        later.secs > t.secs,
        later.nanos == t.nanos,
{
    let (year, month, day, time_of_day) = lemma_every_second_has_a_date(t.secs as int);
    assert(unix_seconds(year, month, day, time_of_day) == t.secs);
    lemma_months_later_is_later(year, month, day, time_of_day, months as int);
}

/// The instant twelve calendar months after `t` is the same time of day on
/// the same month and day of the next year (the month's last day when that
/// day does not exist).
pub proof fn lemma_calendar_twelve_months_is_one_year(
    t: Timestamp,
    later: Timestamp,
    year: int,
    month: int,
    day: int,
    time_of_day: int,
)
    requires
        lands_months_later(t, 12, later),
        is_valid_date(year, month, day),
        0 <= time_of_day < 86400,
        unix_seconds(year, month, day, time_of_day) == t.secs,
    ensures
        later.secs == unix_seconds(
            year + 1,
            month,
            if day <= days_in_month(year + 1, month) { day } else { days_in_month(year + 1, month) },
            time_of_day,
        ),
        later.secs > t.secs,
{
    lemma_twelve_months_is_one_year(year, month, day);
    lemma_months_later_is_later(year, month, day, time_of_day, 12);
}

/// Zero calendar months after `t` is `t` itself.
pub proof fn lemma_calendar_zero_months_is_the_same_instant(t: Timestamp, later: Timestamp)
    requires
        lands_months_later(t, 0, later),
    ensures
        later == t,
{
    let (year, month, day, time_of_day) = lemma_every_second_has_a_date(t.secs as int);
    assert(unix_seconds(year, month, day, time_of_day) == t.secs);
    lemma_zero_months_is_the_same_date(year, month, day);
}

/// A Unix timestamp is a second of exactly one date and time of day, so
/// `lands_months_later` names one instant.
pub proof fn lemma_date_of_second_is_unique(
    y1: int, m1: int, d1: int, t1: int,
    y2: int, m2: int, d2: int, t2: int,
)
    requires
        is_valid_date(y1, m1, d1),
        is_valid_date(y2, m2, d2),
        0 <= t1 < 86400,
        0 <= t2 < 86400,
        unix_seconds(y1, m1, d1, t1) == unix_seconds(y2, m2, d2, t2),
    ensures
        y1 == y2,
        m1 == m2,
        d1 == d2,
        t1 == t2,
{
    let secs = unix_seconds(y1, m1, d1, t1);
    lemma_fundamental_div_mod_converse(secs, 86400, day_number(y1, m1, d1), t1);
    lemma_fundamental_div_mod_converse(secs, 86400, day_number(y2, m2, d2), t2);
    if y1 < y2 || (y1 == y2 && m1 < m2) {
        lemma_day_number_increases(y1, m1, d1, y2, m2, d2);
    } else if y2 < y1 || (y1 == y2 && m2 < m1) {
        lemma_day_number_increases(y2, m2, d2, y1, m1, d1);
    }
}

} // verus!
