use chrono::{DateTime, Local, NaiveDate, TimeZone, Timelike, Utc};
use odak::model::Recurrence;
use odak::recurrence::{label, move_to_day, next_due, next_due_day, try_next_due_day};

fn at(y: i32, m: u32, d: u32, h: u32, min: u32) -> i64 {
    Local.with_ymd_and_hms(y, m, d, h, min, 0).unwrap().with_timezone(&Utc).timestamp_millis()
}

/// (local date, hour, minute) of an instant.
fn local(t: i64) -> (NaiveDate, u32, u32) {
    let l = DateTime::from_timestamp_millis(t).unwrap().with_timezone(&Local);
    (l.date_naive(), l.hour(), l.minute())
}

fn date(y: i32, m: u32, d: u32) -> NaiveDate {
    NaiveDate::from_ymd_opt(y, m, d).unwrap()
}

fn day(y: i32, m: u32, d: u32) -> i32 {
    date(y, m, d).to_epoch_days()
}

// 2026-09-21 is a Monday.
const MON: (i32, u32, u32) = (2026, 9, 21);

#[test]
fn daily_moves_to_the_next_day_at_the_same_time() {
    let due = at(MON.0, MON.1, MON.2, 9, 30);
    let now = at(MON.0, MON.1, MON.2, 10, 0);
    assert_eq!(local(next_due(&Recurrence::Day, Some(due), now)), (date(2026, 9, 22), 9, 30));
}

#[test]
fn missed_occurrences_are_skipped() {
    let due = at(2026, 9, 18, 9, 0); // three days overdue
    let now = at(MON.0, MON.1, MON.2, 12, 0);
    assert_eq!(local(next_due(&Recurrence::Day, Some(due), now)).0, date(2026, 9, 22));
}

#[test]
fn weekly_goes_to_the_next_chosen_weekday() {
    let rule = Recurrence::Week { days: vec![0, 3] }; // Monday and Thursday
    let now = at(MON.0, MON.1, MON.2, 8, 0);
    assert_eq!(local(next_due(&rule, Some(at(MON.0, MON.1, MON.2, 18, 0)), now)).0, date(2026, 9, 24));
    assert_eq!(local(next_due(&rule, Some(at(2026, 9, 24, 18, 0)), now)).0, date(2026, 9, 28));
}

#[test]
fn weekly_without_days_keeps_the_due_weekday() {
    let rule = Recurrence::Week { days: vec![] };
    let now = at(MON.0, MON.1, MON.2, 8, 0);
    assert_eq!(local(next_due(&rule, Some(at(MON.0, MON.1, MON.2, 18, 0)), now)).0, date(2026, 9, 28));
}

#[test]
fn monthly_keeps_the_day_or_the_months_last_day() {
    let now = at(2026, 9, 1, 8, 0);
    assert_eq!(local(next_due(&Recurrence::Month, Some(at(2026, 9, 15, 9, 0)), now)).0, date(2026, 10, 15));
    let now = at(2027, 1, 31, 8, 0);
    assert_eq!(local(next_due(&Recurrence::Month, Some(at(2027, 1, 31, 9, 0)), now)).0, date(2027, 2, 28));
}

#[test]
fn a_task_without_a_due_date_starts_from_today() {
    let now = at(MON.0, MON.1, MON.2, 8, 0);
    assert_eq!(local(next_due(&Recurrence::Day, None, now)), (date(2026, 9, 22), 23, 59));
}

#[test]
fn moving_to_a_day_keeps_the_time() {
    assert_eq!(local(move_to_day(Some(at(MON.0, MON.1, MON.2, 14, 45)), day(2026, 9, 30))), (date(2026, 9, 30), 14, 45));
    assert_eq!(local(move_to_day(None, day(2026, 9, 30))), (date(2026, 9, 30), 23, 59));
}

#[test]
fn labels_read_naturally() {
    assert_eq!(label(&Recurrence::Day), "Her gün");
    assert_eq!(label(&Recurrence::Month), "Her ay");
    assert_eq!(label(&Recurrence::Week { days: vec![4, 0, 1, 2, 3] }), "Hafta içi her gün");
    assert_eq!(label(&Recurrence::Week { days: vec![3, 0] }), "Her Pzt, Per");
}

#[test]
fn more_labels() {
    assert_eq!(label(&Recurrence::Week { days: vec![] }), "Her hafta");
    assert_eq!(label(&Recurrence::Week { days: vec![6, 5, 4, 3, 2, 1, 0, 0] }), "Her gün");
    assert_eq!(label(&Recurrence::Week { days: vec![5, 6, 5] }), "Her Cmt, Paz");
    assert_eq!(label(&Recurrence::Week { days: vec![0, 1, 2, 3, 4, 9] }), "Her Pzt, Sal, Çar, Per, Cum");
}

#[test]
fn next_due_day_on_plain_days() {
    // Daily: the day after the later of due day and today.
    assert_eq!(next_due_day(&Recurrence::Day, day(2026, 9, 18), day(2026, 9, 21)), day(2026, 9, 22));
    assert_eq!(next_due_day(&Recurrence::Day, day(2026, 9, 25), day(2026, 9, 21)), day(2026, 9, 26));
    // Weekly on Mon/Thu from Monday the 21st: Thursday the 24th.
    let rule = Recurrence::Week { days: vec![3, 0] };
    assert_eq!(next_due_day(&rule, day(2026, 9, 21), day(2026, 9, 21)), day(2026, 9, 24));
    // Monthly on the 31st: 31 January, then 28 February, then from 28 February the 31st of March.
    assert_eq!(next_due_day(&Recurrence::Month, day(2027, 1, 31), day(2027, 1, 31)), day(2027, 2, 28));
    assert_eq!(next_due_day(&Recurrence::Month, day(2027, 1, 31), day(2027, 2, 28)), day(2027, 3, 31));
    // Leap year: 29 February 2028.
    assert_eq!(next_due_day(&Recurrence::Month, day(2028, 1, 30), day(2028, 1, 30)), day(2028, 2, 29));
    // Monthly from December into January.
    assert_eq!(next_due_day(&Recurrence::Month, day(2026, 12, 15), day(2026, 12, 20)), day(2027, 1, 15));
}

#[test]
fn a_weekly_rule_without_a_real_weekday_has_no_next_day() {
    let rule = Recurrence::Week { days: vec![9] };
    assert_eq!(try_next_due_day(&rule, day(2026, 9, 21), day(2026, 9, 21)), None);
    assert_eq!(try_next_due_day(&Recurrence::Day, day(2026, 9, 21), day(2026, 9, 21)), Some(day(2026, 9, 22)));
}
