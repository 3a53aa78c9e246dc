//! Calendar dates, instants and UTC offsets, with the conversions that the
//! `time` crate performs for them.
use vstd::prelude::*;

verus! {

/// Nanoseconds in one second.
pub const NANOS_PER_SECOND: i128 = 1_000_000_000;

/// Seconds in one day.
pub const SECONDS_PER_DAY: i64 = 86_400;

/// The Julian day number of 1970-01-01.
pub const UNIX_EPOCH_JULIAN_DAY: i32 = 2_440_588;

/// Largest offset from UTC, in seconds, that the `time` crate represents (25:59:59).
pub const MAX_OFFSET_SECONDS: i32 = 93_599;

/// Earliest instant the `time` crate represents: -9999-01-01T00:00 at the largest
/// positive offset, +25:59:59.
pub const MIN_INSTANT_NANOS: i128 = -377_705_210_399_000_000_000;

/// Latest instant the `time` crate represents: the last nanosecond of 9999-12-31 at
/// the largest negative offset, -25:59:59.
pub const MAX_INSTANT_NANOS: i128 = 253_402_394_398_999_999_999;

/// Days from 1970-01-01 to -9999-01-01, the earliest date the `time` crate represents.
pub const MIN_LOCAL_DAY: i64 = -4_371_587;

/// Days from 1970-01-01 to 9999-12-31, the latest date the `time` crate represents.
pub const MAX_LOCAL_DAY: i64 = 2_932_896;

/// Number of days from 1970-01-01 to the given proleptic Gregorian date.
pub open spec fn days_from_civil(y: int, m: int, d: int) -> int {
    let y2 = if m <= 2 { y - 1 } else { y };
    let era = y2 / 400;
    let yoe = y2 - era * 400;
    let mp = if m > 2 { m - 3 } else { m + 9 };
    let doy = (153 * mp + 2) / 5 + d - 1;
    let doe = yoe * 365 + yoe / 4 - yoe / 100 + doy;
    era * 146097 + doe - 719468
}

pub open spec fn is_leap_year(y: int) -> bool {
    y % 4 == 0 && (y % 100 != 0 || y % 400 == 0)
}

pub open spec fn days_in_month(y: int, m: int) -> int {
    if m == 2 {
        if is_leap_year(y) {
            29
        } else {
            28
        }
    } else if m == 4 || m == 6 || m == 9 || m == 11 {
        30
    } else {
        31
    }
}

/// A valid date of the proleptic Gregorian calendar in the years -9999 to 9999.
pub open spec fn is_valid_date(y: int, m: int, d: int) -> bool {
    &&& -9999 <= y <= 9999
    &&& 1 <= m <= 12
    &&& 1 <= d <= days_in_month(y, m)
}

/// Days from 1970-01-01 to March 1 of year `y2` (the calendar year that starts in
/// March, as `days_from_civil` counts).
pub open spec fn march_first(y2: int) -> int {
    let era = y2 / 400;
    let yoe = y2 - era * 400;
    era * 146097 + yoe * 365 + yoe / 4 - yoe / 100 - 719468
}

/// The year from March of `y2` to February of `y2 + 1` has 366 days exactly when
/// `y2 + 1` is a leap year.
proof fn lemma_march_year(y2: int)
    ensures
        march_first(y2 + 1) - march_first(y2) == if is_leap_year(y2 + 1) {
            366int
        } else {
            365int
        },
{
    let era = y2 / 400;
    let yoe = y2 - era * 400;
    assert(0 <= yoe < 400) by (nonlinear_arith)
        requires
            era == y2 / 400,
            yoe == y2 - era * 400,
    ;
    if yoe < 399 {
        assert((y2 + 1) / 400 == era) by (nonlinear_arith)
            requires
                era == y2 / 400,
                yoe == y2 - era * 400,
                0 <= yoe < 399,
        ;
        assert((y2 + 1) % 4 == (yoe + 1) % 4) by (nonlinear_arith)
            requires
                yoe == y2 - era * 400,
        ;
        assert((y2 + 1) % 100 == (yoe + 1) % 100) by (nonlinear_arith)
            requires
                yoe == y2 - era * 400,
        ;
        assert((y2 + 1) % 400 == yoe + 1) by (nonlinear_arith)
            requires
                yoe == y2 - era * 400,
                0 <= yoe < 399,
        ;
    } else {
        assert((y2 + 1) / 400 == era + 1) by (nonlinear_arith)
            requires
                era == y2 / 400,
                yoe == y2 - era * 400,
                yoe == 399,
        ;
        assert((y2 + 1) % 400 == 0) by (nonlinear_arith)
            requires
                yoe == y2 - era * 400,
                yoe == 399,
        ;
        assert((y2 + 1) % 4 == 0) by (nonlinear_arith)
            requires
                (y2 + 1) % 400 == 0,
        ;
    }
}

/// The last day of a month is followed by the first day of the next month.
proof fn lemma_month_step(y: int, m: int)
    requires
        1 <= m <= 12,
    ensures
        days_from_civil(y, m, days_in_month(y, m)) + 1 == if m == 12 {
            days_from_civil(y + 1, 1, 1)
        } else {
            days_from_civil(y, m + 1, 1)
        },
{
    if m == 2 {
        lemma_march_year(y - 1);
    }
}

/// Within one month, a later day has a larger day count.
proof fn lemma_days_in_month_order(y: int, m: int, d1: int, d2: int)
    ensures
        days_from_civil(y, m, d2) - days_from_civil(y, m, d1) == d2 - d1,
{
}

/// The month after `(y, m)` as a single count.
spec fn month_count(y: int, m: int) -> int {
    y * 12 + m
}

/// A valid date whose month comes strictly later has a larger day count.
proof fn lemma_later_month(y1: int, m1: int, d1: int, y2: int, m2: int, d2: int)
    requires
        1 <= m1 <= 12,
        1 <= d1 <= days_in_month(y1, m1),
        1 <= m2 <= 12,
        1 <= d2,
        month_count(y1, m1) < month_count(y2, m2),
    ensures
        days_from_civil(y1, m1, d1) < days_from_civil(y2, m2, d2),
    decreases month_count(y2, m2) - month_count(y1, m1),
{
    lemma_days_in_month_order(y1, m1, d1, days_in_month(y1, m1));
    lemma_month_step(y1, m1);
    let (ny, nm) = if m1 == 12 {
        (y1 + 1, 1int)
    } else {
        (y1, m1 + 1)
    };
    assert(month_count(ny, nm) == month_count(y1, m1) + 1);
    if month_count(ny, nm) == month_count(y2, m2) {
        assert(ny == y2 && nm == m2) by (nonlinear_arith)
            requires
                ny * 12 + nm == y2 * 12 + m2,
                1 <= nm <= 12,
                1 <= m2 <= 12,
        ;
        lemma_days_in_month_order(y2, m2, 1, d2);
    } else {
        lemma_later_month(ny, nm, 1, y2, m2, d2);
    }
}

/// Two valid dates with the same day count are the same date.
pub proof fn lemma_days_injective(a: CivilDate, b: CivilDate)
    requires
        a.wf(),
        b.wf(),
        a.days() == b.days(),
    ensures
        a == b,
{
    let (y1, m1, d1) = (a.year as int, a.month as int, a.day as int);
    let (y2, m2, d2) = (b.year as int, b.month as int, b.day as int);
    if month_count(y1, m1) < month_count(y2, m2) {
        lemma_later_month(y1, m1, d1, y2, m2, d2);
    } else if month_count(y2, m2) < month_count(y1, m1) {
        lemma_later_month(y2, m2, d2, y1, m1, d1);
    } else {
        assert(y1 == y2 && m1 == m2) by (nonlinear_arith)
            requires
                y1 * 12 + m1 == y2 * 12 + m2,
                1 <= m1 <= 12,
                1 <= m2 <= 12,
        ;
        lemma_days_in_month_order(y1, m1, d1, d2);
    }
}

/// The valid date that falls `n` days after 1970-01-01.
#[verifier::opaque]
pub open spec fn date_of_day(n: int) -> CivilDate {
    choose|d: CivilDate| d.wf() && d.days() == n
}

/// Every valid date is the date of its own day count.
pub proof fn lemma_date_of_day(d: CivilDate)
    requires
        d.wf(),
    ensures
        date_of_day(d.days()) == d,
{
    reveal(date_of_day);
    let e = date_of_day(d.days());
    assert(e.wf() && e.days() == d.days());
    lemma_days_injective(d, e);
}

/// A calendar date (year, month 1..=12, day of month).
#[derive(Clone, Copy, Debug, PartialEq, Eq, Structural)]
pub struct CivilDate {
    pub year: i32,
    pub month: u8,
    pub day: u8,
}

impl CivilDate {
    pub open spec fn wf(self) -> bool {
        is_valid_date(self.year as int, self.month as int, self.day as int)
    }

    /// Days since 1970-01-01.
    pub open spec fn days(self) -> int {
        days_from_civil(self.year as int, self.month as int, self.day as int)
    }

    /// The date, when the year, month and day form a valid date.
    pub fn new(year: i32, month: u8, day: u8) -> (r: Option<CivilDate>)
        ensures
            r is Some <==> is_valid_date(year as int, month as int, day as int),
            r matches Some(d) ==> d.year == year && d.month == month && d.day == day,
    {
        if year < -9999 || year > 9999 || month < 1 || month > 12 || day < 1 {
            return None;
        }
        if day > month_length(year, month) {
            return None;
        }
        Some(CivilDate { year, month, day })
    }

    /// The Julian day number of the date; dates compare as their day numbers do.
    pub fn day_number(&self) -> (r: i32)
        requires
            self.wf(),
        ensures
            r == self.days() + UNIX_EPOCH_JULIAN_DAY,
    {
        julian_day(self)
    }

    /// Whether `self` falls strictly before `other`.
    pub fn is_before(&self, other: &CivilDate) -> (r: bool)
        requires
            self.wf(),
            other.wf(),
        ensures
            r == (self.days() < other.days()),
    {
        self.day_number() < other.day_number()
    }
}

/// An instant, as nanoseconds since 1970-01-01T00:00Z.
#[derive(Clone, Copy, Debug, PartialEq, Eq, Structural)]
pub struct Timestamp {
    pub nanos: i128,
}

/// An offset from UTC in seconds.
#[derive(Clone, Copy, Debug, PartialEq, Eq, Structural)]
pub struct UtcOffset {
    pub seconds: i32,
}

impl Timestamp {
    pub open spec fn wf(self) -> bool {
        MIN_INSTANT_NANOS <= self.nanos <= MAX_INSTANT_NANOS
    }

    /// 1970-01-01T00:00Z.
    pub fn unix_epoch() -> (r: Timestamp)
        ensures
            r.nanos == 0,
            r.wf(),
    {
        Timestamp { nanos: 0 }
    }

    /// The instant, when it lies in the range the library keeps.
    pub fn from_unix_nanos(nanos: i128) -> (r: Option<Timestamp>)
        ensures
            r is Some <==> MIN_INSTANT_NANOS <= nanos <= MAX_INSTANT_NANOS,
            r matches Some(t) ==> t.nanos == nanos,
    {
        if MIN_INSTANT_NANOS <= nanos && nanos <= MAX_INSTANT_NANOS {
            Some(Timestamp { nanos })
        } else {
            None
        }
    }

    /// The instant `seconds` seconds later, when it stays in range.
    pub fn plus_seconds(&self, seconds: i64) -> (r: Option<Timestamp>)
        requires
            self.wf(),
        ensures
            r is Some <==> MIN_INSTANT_NANOS <= self.nanos + seconds * NANOS_PER_SECOND
                <= MAX_INSTANT_NANOS,
            r matches Some(t) ==> t.nanos == self.nanos + seconds * NANOS_PER_SECOND,
    {
        let delta: i128 = (seconds as i128) * NANOS_PER_SECOND;
        let n: i128 = self.nanos + delta;
        Timestamp::from_unix_nanos(n)
    }

    /// The current instant. The clock always reads a time in the range the library
    /// keeps; which time it reads is left unsaid.
    pub fn now() -> (r: Timestamp)
        ensures
            r.wf(),
    {
        Timestamp { nanos: current_unix_nanos() }
    }

    /// Milliseconds since 1970-01-01T00:00Z, rounded toward zero.
    pub fn unix_millis(&self) -> (r: i128)
        requires
            self.wf(),
        ensures
            self.nanos >= 0 ==> r == (self.nanos as int) / 1_000_000,
            self.nanos < 0 ==> r == -((-(self.nanos as int)) / 1_000_000),
    {
        if self.nanos >= 0 {
            self.nanos / 1_000_000
        } else {
            let m: i128 = (-self.nanos) / 1_000_000;
            -m
        }
    }
}

impl UtcOffset {
    pub open spec fn wf(self) -> bool {
        -MAX_OFFSET_SECONDS <= self.seconds <= MAX_OFFSET_SECONDS
    }

    pub fn utc() -> (r: UtcOffset)
        ensures
            r.seconds == 0,
            r.wf(),
    {
        UtcOffset { seconds: 0 }
    }

    /// The offset, when `-25:59:59 <= seconds <= 25:59:59`.
    pub fn from_whole_seconds(seconds: i32) -> (r: Option<UtcOffset>)
        ensures
            r is Some <==> -MAX_OFFSET_SECONDS <= seconds <= MAX_OFFSET_SECONDS,
            r matches Some(o) ==> o.seconds == seconds,
    {
        if -MAX_OFFSET_SECONDS <= seconds && seconds <= MAX_OFFSET_SECONDS {
            Some(UtcOffset { seconds })
        } else {
            None
        }
    }

    /// The offset to work in after looking up the local one: the offset found, or
    /// UTC when the lookup found none.
    pub fn from_local_lookup(found: Option<i32>) -> (r: UtcOffset)
        requires
            found matches Some(s) ==> -MAX_OFFSET_SECONDS <= s <= MAX_OFFSET_SECONDS,
        ensures
            r.wf(),
            found is None ==> r.seconds == 0,
            found matches Some(s) ==> r.seconds == s,
    {
        match found {
            Some(s) => UtcOffset { seconds: s },
            None => UtcOffset { seconds: 0 },
        }
    }

    /// The system's current offset from UTC, or UTC when it cannot be determined.
    pub fn current_local() -> (r: UtcOffset)
        ensures
            r.wf(),
    {
        UtcOffset::from_local_lookup(current_local_offset_seconds())
    }
}

/// Seconds since 1970-01-01T00:00 in local time at `offset`.
pub open spec fn local_seconds(t: Timestamp, offset: UtcOffset) -> int {
    (t.nanos as int) / (NANOS_PER_SECOND as int) + offset.seconds
}

/// `day` kept within the dates the `time` crate represents.
pub open spec fn clamp_day(day: int) -> int {
    if day < MIN_LOCAL_DAY {
        MIN_LOCAL_DAY as int
    } else if day > MAX_LOCAL_DAY {
        MAX_LOCAL_DAY as int
    } else {
        day
    }
}

/// Days since 1970-01-01 of the local date of `t` at `offset`. Within a day of the
/// ends of the instant range, the local date at some offsets lies beyond the years
/// -9999 to 9999; the nearest of those dates stands in for it.
pub open spec fn local_day(t: Timestamp, offset: UtcOffset) -> int {
    clamp_day(local_seconds(t, offset) / (SECONDS_PER_DAY as int))
}

/// The instant at which the local clock at `offset` shows `hour:minute` on `date`.
pub open spec fn instant_of_local(date: CivilDate, hour: int, minute: int, offset: UtcOffset) -> int {
    (date.days() * SECONDS_PER_DAY + hour * 3600 + minute * 60 - offset.seconds) * NANOS_PER_SECOND
}

/// `time::Date::to_julian_day`: the Julian day number of the date.
#[verifier::external_body]
fn julian_day(d: &CivilDate) -> (r: i32)
    requires
        d.wf(),
    ensures
        r == d.days() + UNIX_EPOCH_JULIAN_DAY,
{
    let month = time::Month::try_from(d.month).unwrap();
    time::Date::from_calendar_date(d.year, month, d.day).unwrap().to_julian_day()
}

/// `time::Month::length`: the number of days in `month` of `year`.
#[verifier::external_body]
fn month_length(year: i32, month: u8) -> (r: u8)
    requires
        1 <= month <= 12,
    ensures
        r == days_in_month(year as int, month as int),
{
    time::Month::try_from(month).unwrap().length(year)
}

/// `time::Date::weekday` read by `Weekday::number_days_from_sunday`:
/// 0 for Sunday through 6 for Saturday (1970-01-01 was a Thursday).
#[verifier::external_body]
fn weekday_from_sunday(d: &CivilDate) -> (r: u8)
    requires
        d.wf(),
    ensures
        r == (d.days() + 4) % 7,
{
    let month = time::Month::try_from(d.month).unwrap();
    time::Date::from_calendar_date(d.year, month, d.day).unwrap().weekday().number_days_from_sunday()
}

/// `time::Date::from_julian_day`: the date with Julian day number `julian`.
#[verifier::external_body]
fn date_of_julian_day(julian: i32) -> (r: CivilDate)
    requires
        MIN_LOCAL_DAY + UNIX_EPOCH_JULIAN_DAY <= julian <= MAX_LOCAL_DAY + UNIX_EPOCH_JULIAN_DAY,
    ensures
        r.wf(),
        r.days() == julian - UNIX_EPOCH_JULIAN_DAY,
{
    let date = time::Date::from_julian_day(julian).unwrap();
    CivilDate { year: date.year(), month: date.month() as u8, day: date.day() }
}

/// `n / d` rounded toward negative infinity.
fn floor_div(n: i128, d: i128) -> (r: i128)
    requires
        d > 0,
        n > i128::MIN,
    ensures
        r == n / d,
{
    if n >= 0 {
        n / d
    } else {
        let m: i128 = -n - 1;
        let q: i128 = m / d;
        proof {
            let rem = m % d;
            vstd::arithmetic::div_mod::lemma_fundamental_div_mod(m as int, d as int);
            assert(q == m / d);
            assert(n == (-q - 1) * d + (d - rem - 1)) by (nonlinear_arith)
                requires
                    m == d * q + rem,
                    n == -m - 1,
            ;
            vstd::arithmetic::div_mod::lemma_fundamental_div_mod_converse(n as int, d as int, -q - 1, d - rem - 1);
        }
        -q - 1
    }
}

/// Seconds since 1970-01-01T00:00 in local time at `offset`.
fn local_seconds_of(t: &Timestamp, offset: &UtcOffset) -> (r: i128)
    requires
        t.wf(),
        offset.wf(),
    ensures
        r == local_seconds(*t, *offset),
        -377_705_210_399 - MAX_OFFSET_SECONDS <= r <= 253_402_394_398 + MAX_OFFSET_SECONDS,
{
    let s = floor_div(t.nanos, NANOS_PER_SECOND);
    s + offset.seconds as i128
}

/// `time::PrimitiveDateTime::assume_offset` followed by `unix_timestamp_nanos`: the
/// instant at which the local clock at `offset` shows `hour:minute` on `date`.
#[verifier::external_body]
fn local_instant(date: &CivilDate, hour: u8, minute: u8, offset: &UtcOffset) -> (r: i128)
    requires
        date.wf(),
        hour < 24,
        minute < 60,
        offset.wf(),
    ensures
        r == instant_of_local(*date, hour as int, minute as int, *offset),
{
    let month = time::Month::try_from(date.month).unwrap();
    let day = time::Date::from_calendar_date(date.year, month, date.day).unwrap();
    let clock = time::Time::from_hms(hour, minute, 0).unwrap();
    let off = time::UtcOffset::from_whole_seconds(offset.seconds).unwrap();
    time::PrimitiveDateTime::new(day, clock).assume_offset(off).unix_timestamp_nanos()
}

/// `time::OffsetDateTime::now_utc` read by `unix_timestamp_nanos`. The value depends
/// on the clock; it always lies within the dates the `time` crate represents.
#[verifier::external_body]
fn current_unix_nanos() -> (r: i128)
    ensures
        -377_705_116_800_000_000_000 <= r <= 253_402_300_799_999_999_999,
{
    time::OffsetDateTime::now_utc().unix_timestamp_nanos()
}

/// `time::UtcOffset::current_local_offset` read by `whole_seconds`: the system's
/// current offset from UTC, or nothing when it cannot be determined. Which offset
/// the system reports is left unsaid; it always lies within the offsets the `time`
/// crate represents.
#[verifier::external_body]
fn current_local_offset_seconds() -> (r: Option<i32>)
    ensures
        r matches Some(s) ==> -MAX_OFFSET_SECONDS <= s <= MAX_OFFSET_SECONDS,
{
    match time::UtcOffset::current_local_offset() {
        Ok(offset) => Some(offset.whole_seconds()),
        Err(_) => None,
    }
}

/// The local calendar date of `t` at `offset` (the nearest date the `time` crate
/// represents when it lies beyond the years -9999 to 9999).
pub fn date_at(t: &Timestamp, offset: &UtcOffset) -> (r: CivilDate)
    requires
        t.wf(),
        offset.wf(),
    ensures
        r.wf(),
        r.days() == local_day(*t, *offset),
        r == date_of_day(local_day(*t, *offset)),
{
    let seconds = local_seconds_of(t, offset);
    let day = floor_div(seconds, SECONDS_PER_DAY as i128);
    let kept: i128 = if day < MIN_LOCAL_DAY as i128 {
        MIN_LOCAL_DAY as i128
    } else if day > MAX_LOCAL_DAY as i128 {
        MAX_LOCAL_DAY as i128
    } else {
        day
    };
    let r = date_of_julian_day((kept + UNIX_EPOCH_JULIAN_DAY as i128) as i32);
    proof {
        lemma_date_of_day(r);
    }
    r
}

/// The local hour and minute of `t` at `offset`.
pub fn clock_at(t: &Timestamp, offset: &UtcOffset) -> (r: (u8, u8))
    requires
        t.wf(),
        offset.wf(),
    ensures
        r.0 == (local_seconds(*t, *offset) % (SECONDS_PER_DAY as int)) / 3600,
        r.1 == (local_seconds(*t, *offset) % 3600) / 60,
        r.0 < 24,
        r.1 < 60,
{
    let seconds = local_seconds_of(t, offset);
    let in_day = seconds - floor_div(seconds, SECONDS_PER_DAY as i128) * (SECONDS_PER_DAY as i128);
    let in_hour = seconds - floor_div(seconds, 3600) * 3600;
    proof {
        vstd::arithmetic::div_mod::lemma_fundamental_div_mod(seconds as int, SECONDS_PER_DAY as int);
        vstd::arithmetic::div_mod::lemma_fundamental_div_mod(seconds as int, 3600);
        vstd::arithmetic::div_mod::lemma_mod_bound(seconds as int, SECONDS_PER_DAY as int);
        vstd::arithmetic::div_mod::lemma_mod_bound(seconds as int, 3600);
    }
    (((in_day / 3600) as u8), ((in_hour / 60) as u8))
}

/// The instant at which the local clock at `offset` shows `hour:minute` on `date`,
/// when it lies in the range the library keeps.
pub fn instant_at(date: &CivilDate, hour: u8, minute: u8, offset: &UtcOffset) -> (r: Option<
    Timestamp,
>)
    requires
        date.wf(),
        hour < 24,
        minute < 60,
        offset.wf(),
    ensures
        r is Some <==> MIN_INSTANT_NANOS <= instant_of_local(*date, hour as int, minute as int, *offset)
            <= MAX_INSTANT_NANOS,
        r matches Some(t) ==> t.nanos == instant_of_local(*date, hour as int, minute as int, *offset),
{
    let nanos = local_instant(date, hour, minute, offset);
    Timestamp::from_unix_nanos(nanos)
}

/// Midnight of `date` at `offset` (`Date::midnight().assume_offset(offset)`), when it
/// lies in the range the library keeps.
pub fn midnight_at(date: &CivilDate, offset: &UtcOffset) -> (r: Option<Timestamp>)
    requires
        date.wf(),
        offset.wf(),
    ensures
        r is Some <==> MIN_INSTANT_NANOS <= instant_of_local(*date, 0, 0, *offset) <= MAX_INSTANT_NANOS,
        r matches Some(t) ==> t.nanos == instant_of_local(*date, 0, 0, *offset),
{
    instant_at(date, 0, 0, offset)
}

/// Number of blank cells before the first day of a month in a calendar whose weeks
/// start on Sunday: 0 for Sunday through 6 for Saturday.
pub fn calendar_leading_days(first: &CivilDate) -> (r: usize)
    requires
        first.wf(),
    ensures
        r == (first.days() + 4) % 7,
        r < 7,
{
    weekday_from_sunday(first) as usize
}

/// The first day of the month `delta` months after the month of `date`.
pub fn shift_month(date: &CivilDate, delta: i32) -> (r: CivilDate)
    requires
        date.wf(),
        -9999 * 12 <= (date.year as int) * 12 + (date.month as int) - 1 + (delta as int) < 10000 * 12,
    ensures
        r.wf(),
        r.day == 1,
        (r.year as int) * 12 + (r.month as int) - 1 == (date.year as int) * 12 + (date.month as int)
            - 1 + (delta as int),
{
    let total: i64 = (date.year as i64) * 12 + (date.month as i64) - 1 + (delta as i64);
    let year_part: i64 = if total >= 0 {
        total / 12
    } else {
        -((-total + 11) / 12)
    };
    let month_part: i64 = total - year_part * 12;
    assert(0 <= month_part < 12);
    let year: i32 = year_part as i32;
    let month: u8 = (month_part + 1) as u8;
    CivilDate { year, month, day: 1 }
}

/// The first day of the month that contains `date`.
pub fn first_of_month(date: &CivilDate) -> (r: CivilDate)
    requires
        date.wf(),
    ensures
        r.wf(),
        r.year == date.year,
        r.month == date.month,
        r.day == 1,
{
    CivilDate { year: date.year, month: date.month, day: 1 }
}

/// Number of days in the month of `date`.
pub fn days_in_month_of(date: &CivilDate) -> (r: u8)
    requires
        date.wf(),
    ensures
        r == days_in_month(date.year as int, date.month as int),
{
    month_length(date.year, date.month)
}

} // verus!
