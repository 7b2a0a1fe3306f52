//! Instants, calendar days and the machine's local time. Calendar days are counted from
//! 1970-01-01 (day 0) in the proleptic Gregorian calendar; the conversions to and from years,
//! months and days, and the local time zone, come from chrono.

use vstd::prelude::*;
use crate::model::Millis;
use chrono::{Datelike, TimeZone};

verus! {

pub const MILLIS_PER_DAY: i64 = 86_400_000;

pub const MILLIS_PER_MINUTE: i64 = 60_000;

/// Earliest supported instant (a day after the start of chrono's range).
pub const MIN_INSTANT: i64 = -8_334_601_142_400_000;

/// Latest supported instant (a day before the end of chrono's range).
pub const MAX_INSTANT: i64 = 8_210_266_703_999_999;

/// First and last calendar days chrono can hold (-262143-01-01 and 262142-12-31).
pub const MIN_DAY: i32 = -96_465_292;

pub const MAX_DAY: i32 = 95_026_236;

pub const MIN_YEAR: i32 = -262_143;

pub const MAX_YEAR: i32 = 262_142;

/// Days since 1970-01-01.
pub type Day = i32;

pub open spec fn valid_instant(t: int) -> bool {
    MIN_INSTANT <= t <= MAX_INSTANT
}

pub open spec fn valid_day(d: int) -> bool {
    MIN_DAY <= d <= MAX_DAY
}

pub open spec fn is_leap_year(y: int) -> bool {
    (y % 4 == 0 && y % 100 != 0) || y % 400 == 0
}

pub open spec fn days_in_month(y: int, m: int) -> int {
    if m == 2 {
        if is_leap_year(y) {
            29
        } else {
            28
        }
    } else if m == 4 || m == 6 || m == 9 || m == 11 {
        30
    } else {
        31
    }
}

/// A date that exists in chrono's range.
pub open spec fn valid_civil(y: int, m: int, d: int) -> bool {
    &&& MIN_YEAR <= y <= MAX_YEAR
    &&& 1 <= m <= 12
    &&& 1 <= d <= days_in_month(y, m)
}

/// Weekday of a calendar day, Monday 0 to Sunday 6 (1970-01-01 was a Thursday).
pub open spec fn weekday(day: int) -> int {
    (day + 3) % 7
}

/// Day number of a date in the proleptic Gregorian calendar, 1970-01-01 being day 0 (years
/// counted from March so that the leap day ends the year).
pub open spec fn days_from_civil(y: int, m: int, d: int) -> int {
    let yy = if m <= 2 {
        y - 1
    } else {
        y
    };
    let era = yy / 400;
    let yoe = yy - era * 400;
    let mp = (m + 9) % 12;
    let doy = (153 * mp + 2) / 5 + d - 1;
    let doe = yoe * 365 + yoe / 4 - yoe / 100 + doy;
    era * 146097 + doe - 719468
}

/// The month after (y, m).
pub open spec fn next_month(y: int, m: int) -> (int, int) {
    if m == 12 {
        (y + 1, 1)
    } else {
        (y, m + 1)
    }
}

/// The (year, month, day) of a calendar day, as chrono computes it.
pub uninterp spec fn spec_civil(day: Day) -> (i32, u32, u32);

/// The calendar day of (year, month, day), as chrono computes it.
pub uninterp spec fn spec_epoch_day(y: i32, m: u32, d: u32) -> Option<Day>;

pub open spec fn year_of(day: Day) -> int {
    spec_civil(day).0 as int
}

pub open spec fn month_of(day: Day) -> int {
    spec_civil(day).1 as int
}

/// Day of the month.
pub open spec fn dom_of(day: Day) -> int {
    spec_civil(day).2 as int
}

/// What chrono's reading of `day` is known to be: a valid date whose day number is `day`.
pub open spec fn civil_known(day: Day) -> bool {
    &&& valid_civil(year_of(day), month_of(day), dom_of(day))
    &&& days_from_civil(year_of(day), month_of(day), dom_of(day)) == day
}

/// chrono's `NaiveDate::from_epoch_days` then `year`, `month`, `day`: the proleptic Gregorian
/// date of a day.
#[verifier::external_body]
pub(crate) fn civil(day: Day) -> (r: (i32, u32, u32))
    requires
        valid_day(day as int),
    ensures
        r == spec_civil(day),
        valid_civil(r.0 as int, r.1 as int, r.2 as int),
        days_from_civil(r.0 as int, r.1 as int, r.2 as int) == day,
{
    let d = chrono::NaiveDate::from_epoch_days(day).unwrap();
    (d.year(), d.month(), d.day())
}

/// chrono's `NaiveDate::from_ymd_opt` then `to_epoch_days`: `None` exactly for dates that do not
/// exist (or lie outside chrono's range), else the day number of the date.
#[verifier::external_body]
pub(crate) fn epoch_day(y: i32, m: u32, d: u32) -> (r: Option<Day>)
    ensures
        r == spec_epoch_day(y, m, d),
        r is Some <==> valid_civil(y as int, m as int, d as int),
        r matches Some(n) ==> n == days_from_civil(y as int, m as int, d as int) && valid_day(n as int),
{
    chrono::NaiveDate::from_ymd_opt(y, m, d).map(|date| date.to_epoch_days())
}

/// Within a month, day numbers count up one by one.
pub proof fn lemma_day_of_month(y: int, m: int, d: int)
    requires
        1 <= m <= 12,
    ensures
        days_from_civil(y, m, d) == days_from_civil(y, m, 1) + d - 1,
{
}

/// The first of the next month comes `days_in_month` days after the first of this one.
pub proof fn lemma_month_length(y: int, m: int)
    requires
        1 <= m <= 12,
    ensures
        days_from_civil(next_month(y, m).0, next_month(y, m).1, 1) == days_from_civil(y, m, 1)
            + days_in_month(y, m),
{
    let (ny, nm) = next_month(y, m);
    if m == 2 {
        // March 1st of y against February 1st of y (whose March-based year is y - 1).
        let yy = y - 1;
        let era = yy / 400;
        let yoe = yy - era * 400;
        let era2 = y / 400;
        let yoe2 = y - era2 * 400;
        assert(0 <= yoe < 400) by (nonlinear_arith)
            requires
                era == yy / 400,
                yoe == yy - era * 400,
        ;
        assert(0 <= yoe2 < 400) by (nonlinear_arith)
            requires
                era2 == y / 400,
                yoe2 == y - era2 * 400,
        ;
        if yoe == 399 {
            assert(era2 == era + 1 && yoe2 == 0) by (nonlinear_arith)
                requires
                    era == (y - 1) / 400,
                    yoe == (y - 1) - era * 400,
                    yoe == 399,
                    era2 == y / 400,
                    yoe2 == y - era2 * 400,
                    0 <= yoe2 < 400,
            ;
            assert(y % 400 == 0 && is_leap_year(y)) by (nonlinear_arith)
                requires
                    y == era2 * 400,
            ;
        } else {
            assert(era2 == era && yoe2 == yoe + 1) by (nonlinear_arith)
                requires
                    era == (y - 1) / 400,
                    yoe == (y - 1) - era * 400,
                    0 <= yoe < 399,
                    era2 == y / 400,
                    yoe2 == y - era2 * 400,
                    0 <= yoe2 < 400,
            ;
            assert(y % 4 == yoe2 % 4 && y % 100 == yoe2 % 100 && y % 400 == yoe2) by (nonlinear_arith)
                requires
                    y == era2 * 400 + yoe2,
                    0 <= yoe2 < 400,
            ;
        }
    }
}

/// Monday-first weekday of a day (0 to 6).
pub fn weekday_from_monday(day: Day) -> (r: u8)
    ensures
        r as int == weekday(day as int),
        r < 7,
{
    let w = ((day as i64) + 3) % 7;
    let w = if w < 0 {
        w + 7
    } else {
        w
    };
    assert(w == ((day as int) + 3) % 7);
    w as u8
}

/// Offset of the machine's local time zone at `utc`, in seconds (local minus UTC). Depends on
/// the machine's time zone settings: only chrono's bound on an offset (under a day) is stated.
#[verifier::external_body]
pub(crate) fn local_offset_seconds(utc: Millis) -> (r: i32)
    requires
        valid_instant(utc as int),
    ensures
        -86_400 < r < 86_400,
{
    let t = chrono::DateTime::from_timestamp_millis(utc).unwrap();
    chrono::Local.offset_from_utc_datetime(&t.naive_utc()).local_minus_utc()
}

/// The UTC instant of the local wall-clock time `local` (milliseconds since the local epoch):
/// chrono's `Local::from_local_datetime` then `latest` (the later instant when a clock change
/// repeats the time, `None` when one skips it). Depends on the machine's time zone: only the
/// bound on the offset is stated.
#[verifier::external_body]
pub(crate) fn local_to_utc(local: Millis) -> (r: Option<Millis>)
    requires
        valid_instant(local as int),
    ensures
        r matches Some(u) ==> -MILLIS_PER_DAY < u - local < MILLIS_PER_DAY,
{
    let naive = chrono::DateTime::from_timestamp_millis(local).unwrap().naive_utc();
    chrono::Local.from_local_datetime(&naive).latest().map(|t| t.timestamp_millis())
}

/// The UTC instant of the local wall-clock time `local`: chrono's `Local::from_local_datetime`
/// then `earliest` (the earlier instant when a clock change repeats the time, `None` when one
/// skips it). Depends on the machine's time zone: only the bound on the offset is stated.
#[verifier::external_body]
pub(crate) fn local_to_utc_earliest(local: Millis) -> (r: Option<Millis>)
    requires
        valid_instant(local as int),
    ensures
        r matches Some(u) ==> -MILLIS_PER_DAY < u - local < MILLIS_PER_DAY,
{
    let naive = chrono::DateTime::from_timestamp_millis(local).unwrap().naive_utc();
    chrono::Local.from_local_datetime(&naive).earliest().map(|t| t.timestamp_millis())
}

/// Euclidean division of an instant into (day, milliseconds into the day).
pub open spec fn split_instant(t: int) -> (int, int) {
    (t / (MILLIS_PER_DAY as int), t % (MILLIS_PER_DAY as int))
}

/// The calendar day and the time of day of the wall-clock time `local`.
pub fn split_wall_time(local: Millis) -> (r: (Day, i64))
    requires
        valid_instant(local as int),
    ensures
        r.0 as int == split_instant(local as int).0,
        r.1 as int == split_instant(local as int).1,
        valid_day(r.0 as int),
        0 <= r.1 < MILLIS_PER_DAY,
        local == r.0 as int * MILLIS_PER_DAY + r.1,
{
    let mut day = local / MILLIS_PER_DAY;
    let mut ms = local % MILLIS_PER_DAY;
    if ms < 0 {
        ms = ms + MILLIS_PER_DAY;
        day = day - 1;
    }
    assert(local == day * MILLIS_PER_DAY + ms);
    assert(day == (local as int) / (MILLIS_PER_DAY as int) && ms == (local as int) % (
    MILLIS_PER_DAY as int)) by (nonlinear_arith)
        requires
            local == day * MILLIS_PER_DAY + ms,
            0 <= ms < MILLIS_PER_DAY,
    ;
    assert(MIN_DAY <= day <= MAX_DAY) by (nonlinear_arith)
        requires
            local == day * MILLIS_PER_DAY + ms,
            0 <= ms < MILLIS_PER_DAY,
            MIN_INSTANT <= local <= MAX_INSTANT,
    ;
    (day as i32, ms)
}

/// `t` moved into chrono's range of instants.
pub open spec fn clamped(t: int) -> int {
    if t < MIN_INSTANT {
        MIN_INSTANT as int
    } else if t > MAX_INSTANT {
        MAX_INSTANT as int
    } else {
        t
    }
}

/// The wall-clock (day, time of day) of the instant `utc` in a zone `offset_seconds` ahead of
/// UTC: the instant moved by the offset (kept inside chrono's range), split into calendar day and
/// milliseconds into the day.
pub fn wall_time_at(utc: Millis, offset_seconds: i32) -> (r: (Day, i64))
    requires
        valid_instant(utc as int),
        -86_400 < offset_seconds < 86_400,
    ensures
        r.0 as int == split_instant(clamped(utc + offset_seconds * 1000)).0,
        r.1 as int == split_instant(clamped(utc + offset_seconds * 1000)).1,
        r.0 as int * MILLIS_PER_DAY + r.1 == clamped(utc + offset_seconds * 1000),
        valid_day(r.0 as int),
        0 <= r.1 < MILLIS_PER_DAY,
{
    let offset = offset_seconds as i64 * 1000;
    let local = clamp_instant(utc + offset);
    split_wall_time(local)
}

/// The local (day, time of day) of an instant: `wall_time_at` with the machine's offset at that
/// instant. The offset is the machine's: what is stated of it is that it is under a day, so the
/// reading is the instant moved by less than a day.
pub fn local_day_time(utc: Millis) -> (r: (Day, i64))
    requires
        valid_instant(utc as int),
    ensures
        valid_day(r.0 as int),
        0 <= r.1 < MILLIS_PER_DAY,
        -MILLIS_PER_DAY < r.0 as int * MILLIS_PER_DAY + r.1 - utc < MILLIS_PER_DAY,
        exists|offset_seconds: int|
            -86_400 < offset_seconds < 86_400 && r.0 as int * MILLIS_PER_DAY + r.1 == #[trigger] clamped(
                utc + offset_seconds * 1000,
            ),
{
    let offset = local_offset_seconds(utc);
    let r = wall_time_at(utc, offset);
    assert(-86_400 < offset as int && r.0 as int * MILLIS_PER_DAY + r.1 == clamped(utc + (offset as int) * 1000));
    r
}

fn clamp_instant(t: i64) -> (r: i64)
    ensures
        r == clamped(t as int),
        valid_instant(r as int),
{
    if t < MIN_INSTANT {
        MIN_INSTANT
    } else if t > MAX_INSTANT {
        MAX_INSTANT
    } else {
        t
    }
}

/// The local calendar day of an instant (the machine's time zone: the day of a reading less
/// than a day away from the instant, so it starts less than a day after the instant and less
/// than two days before it).
pub fn local_day(utc: Millis) -> (r: Day)
    requires
        valid_instant(utc as int),
    ensures
        valid_day(r as int),
        -2 * MILLIS_PER_DAY < r as int * MILLIS_PER_DAY - utc < MILLIS_PER_DAY,
{
    local_day_time(utc).0
}

/// The wall-clock time `time` (milliseconds into the day) on `day`, as milliseconds since the
/// epoch of the wall clock.
pub fn wall_clock(day: Day, time: i64) -> (r: Millis)
    requires
        MIN_DAY + 1 <= day <= MAX_DAY - 2,
        0 <= time < MILLIS_PER_DAY,
    ensures
        r == day * MILLIS_PER_DAY + time,
        valid_instant(r as int),
{
    assert(-8_334_601_142_400_000 <= day * 86_400_000 + time <= 8_210_266_703_999_999) by (nonlinear_arith)
        requires
            -96_465_291 <= day <= 95_026_234,
            0 <= time < 86_400_000,
    ;
    day as i64 * MILLIS_PER_DAY + time
}

/// The instant a wall-clock time stands for: the zone's reading of it, or the wall-clock time
/// itself taken as UTC when the zone has none (a time a clock change skips).
pub fn reading_or_wall(reading: Option<Millis>, wall: Millis) -> (r: Millis)
    ensures
        r == (match reading {
            Some(t) => t,
            None => wall,
        }),
{
    match reading {
        Some(t) => t,
        None => wall,
    }
}

/// The UTC instant of local `time` (milliseconds into the day) on `day`: the later instant when a
/// clock change repeats it, the wall-clock time taken as UTC when one skips it. The reading is the
/// machine's zone's (chrono's `Local`): it is handed `wall_clock(day, time)`, and
/// `reading_or_wall` chooses between its answer and that time.
pub fn at_local(day: Day, time: i64) -> (r: Millis)
    requires
        MIN_DAY + 2 <= day <= MAX_DAY - 2,
        0 <= time < MILLIS_PER_DAY,
    ensures
        -MILLIS_PER_DAY <= r - (day * MILLIS_PER_DAY + time) < MILLIS_PER_DAY,
{
    let naive = wall_clock(day, time);
    reading_or_wall(local_to_utc(naive), naive)
}

} // verus!
