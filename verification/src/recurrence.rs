//! Repeating tasks and due-date moves. Days are counted in local calendar days; the day a task
//! moves to is computed on those days alone, then placed at its local time of day.

use vstd::prelude::*;
use vstd::string::StringExecFns;
use crate::clock::{
    at_local, civil, civil_known, days_from_civil, days_in_month, dom_of, epoch_day,
    lemma_day_of_month, lemma_month_length, local_day_time, month_of, next_month, valid_civil,
    valid_day, valid_instant, weekday, weekday_from_monday, year_of, Day, MAX_DAY, MAX_INSTANT,
    MAX_YEAR, MILLIS_PER_DAY, MIN_DAY, MIN_INSTANT,
};
use crate::model::{Millis, Recurrence, RecurrenceView};
use crate::views::{local_reading, spec_weekday_name, weekday_name};

verus! {

/// Local time given to a due date that has none yet (date-only due dates end the day): 23:59.
pub const END_OF_DAY: i64 = 86_340_000;

/// The day the next occurrence is counted from: the later of the due day and today.
pub open spec fn base_day(due: int, today: int) -> int {
    if due >= today {
        due
    } else {
        today
    }
}

/// The weekdays a weekly rule repeats on: its own, or the due date's when it names none.
pub open spec fn week_days(days: Seq<u8>, due: int) -> Seq<u8> {
    if days.len() == 0 {
        seq![weekday(due) as u8]
    } else {
        days
    }
}

/// `day` falls on one of `days`.
pub open spec fn is_chosen(days: Seq<u8>, day: int) -> bool {
    days.contains(weekday(day) as u8)
}

/// The first `k` in `n..=7` such that `base + k` falls on one of `days` (8 if none does).
pub open spec fn first_chosen(days: Seq<u8>, base: int, n: int) -> int
    decreases 8 - n,
{
    if n < 1 || n > 7 {
        8
    } else if is_chosen(days, base + n) {
        n
    } else {
        first_chosen(days, base, n + 1)
    }
}

/// A weekly rule names at least one named_weekday weekday, or none at all.
pub open spec fn week_rule_ok(days: Seq<u8>) -> bool {
    days.len() == 0 || exists|i: int| 0 <= i < days.len() && days[i] < 7
}

/// Day `dd` of the month (y, m), or the month's last day when it is shorter.
pub open spec fn in_month(y: int, m: int, dd: int) -> int {
    days_from_civil(y, m, if dd <= days_in_month(y, m) { dd } else { days_in_month(y, m) })
}

/// The month's occurrence of day `dd` after `base`: in the month of `base` if it is still
/// ahead, else in the next month.
pub open spec fn monthly_next(base: Day, dd: int) -> int {
    let this = in_month(year_of(base), month_of(base), dd);
    if this > base {
        this
    } else {
        in_month(next_month(year_of(base), month_of(base)).0, next_month(year_of(base), month_of(base)).1, dd)
    }
}

/// The day a repeating task moves to when it is completed.
pub open spec fn spec_next_due_day(rule: RecurrenceView, due: Day, today: Day) -> int {
    let base = base_day(due as int, today as int);
    match rule {
        RecurrenceView::Day => base + 1,
        RecurrenceView::Week(days) => base + first_chosen(week_days(days, due as int), base, 1),
        RecurrenceView::Month => monthly_next(base as Day, dom_of(due)),
    }
}

/// Where the next occurrence can be represented.
pub open spec fn next_due_in_range(rule: RecurrenceView, due: Day, today: Day) -> bool {
    let base = base_day(due as int, today as int);
    match rule {
        RecurrenceView::Day => base < MAX_DAY,
        RecurrenceView::Week(days) => week_rule_ok(days) && base + first_chosen(
            week_days(days, due as int),
            base,
            1,
        ) <= MAX_DAY,
        RecurrenceView::Month => base <= MAX_DAY - 31 || in_month(
            year_of(base as Day),
            month_of(base as Day),
            dom_of(due),
        ) > base || year_of(base as Day) < MAX_YEAR || month_of(base as Day) < 12,
    }
}

proof fn lemma_weekday_shift(base: int, w: int)
    requires
        0 <= w < 7,
    ensures
        1 <= ((w - weekday(base) + 6) % 7) + 1 <= 7,
        weekday(base + ((w - weekday(base) + 6) % 7) + 1) == w,
{
    let k = ((w - weekday(base) + 6) % 7) + 1;
    assert(weekday(base + k) == w) by (nonlinear_arith)
        requires
            0 <= w < 7,
            k == ((w - (base + 3) % 7 + 6) % 7) + 1,
    ;
}

proof fn lemma_first_chosen(days: Seq<u8>, base: int, n: int)
    requires
        1 <= n <= 8,
    ensures
        n <= first_chosen(days, base, n) <= 8,
        first_chosen(days, base, n) <= 7 ==> is_chosen(days, base + first_chosen(days, base, n)),
        forall|d: int| base + n <= d < base + first_chosen(days, base, n) ==> !#[trigger] is_chosen(days, d),
        forall|d: int| base + n <= d <= base + 7 && #[trigger] is_chosen(days, d) ==> first_chosen(days, base, n) <= d - base,
    decreases 8 - n,
{
    if n <= 7 && !is_chosen(days, base + n) {
        lemma_first_chosen(days, base, n + 1);
    }
}

/// The weekday search of a weekly rule ends within a week.
proof fn lemma_week_ends(days: Seq<u8>, base: int)
    requires
        week_rule_ok(days) || days.len() > 0 && exists|i: int| 0 <= i < days.len() && days[i] < 7,
        days.len() > 0,
    ensures
        1 <= first_chosen(days, base, 1) <= 7,
{
    let i = choose|i: int| 0 <= i < days.len() && days[i] < 7;
    let w = days[i] as int;
    lemma_weekday_shift(base, w);
    let k = ((w - weekday(base) + 6) % 7) + 1;
    assert(days[i] == weekday(base + k) as u8);
    assert(is_chosen(days, base + k));
    lemma_first_chosen(days, base, 1);
}

proof fn lemma_in_month_bounds(y: int, m: int, dd: int)
    requires
        1 <= m <= 12,
        1 <= dd,
    ensures
        days_from_civil(y, m, 1) <= in_month(y, m, dd) < days_from_civil(y, m, 1) + days_in_month(y, m),
{
    let k = if dd <= days_in_month(y, m) {
        dd
    } else {
        days_in_month(y, m)
    };
    lemma_day_of_month(y, m, k);
}

/// `d` is a day the rule repeats on: every day; a chosen weekday; or the due day's day of some
/// month (the month's last day when it is shorter).
pub open spec fn is_occurrence(rule: RecurrenceView, due: Day, d: int) -> bool {
    match rule {
        RecurrenceView::Day => true,
        RecurrenceView::Week(days) => is_chosen(week_days(days, due as int), d),
        RecurrenceView::Month => exists|y: int, m: int| 1 <= m <= 12 && d == #[trigger] in_month(y, m, dom_of(due)),
    }
}

/// Months counted from year 0.
pub open spec fn month_index(y: int, m: int) -> int {
    y * 12 + m
}

/// A month that comes before another ends no later than the other starts.
proof fn lemma_month_order(y1: int, m1: int, y2: int, m2: int)
    requires
        1 <= m1 <= 12,
        1 <= m2 <= 12,
        month_index(y1, m1) < month_index(y2, m2),
    ensures
        days_from_civil(next_month(y1, m1).0, next_month(y1, m1).1, 1) <= days_from_civil(y2, m2, 1),
    decreases month_index(y2, m2) - month_index(y1, m1),
{
    let (ny, nm) = next_month(y1, m1);
    assert(month_index(ny, nm) == month_index(y1, m1) + 1);
    if month_index(ny, nm) == month_index(y2, m2) {
        assert(ny == y2 && nm == m2);
    } else {
        lemma_month_order(ny, nm, y2, m2);
        lemma_month_length(ny, nm);
    }
}

/// The monthly occurrence after `base` is the first: no day of any month's occurrence lies
/// between them.
proof fn lemma_monthly_first(base: Day, dd: int)
    requires
        civil_known(base),
        1 <= dd,
    ensures
        monthly_next(base, dd) > base,
        exists|y: int, m: int| 1 <= m <= 12 && monthly_next(base, dd) == #[trigger] in_month(y, m, dd),
        forall|y: int, m: int| 1 <= m <= 12 ==> !(base < #[trigger] in_month(y, m, dd) < monthly_next(base, dd)),
{
    let yb = year_of(base);
    let mb = month_of(base);
    let (ny, nm) = next_month(yb, mb);
    let r = monthly_next(base, dd);
    lemma_day_of_month(yb, mb, dom_of(base));
    lemma_in_month_bounds(yb, mb, dd);
    lemma_month_length(yb, mb);
    lemma_in_month_bounds(ny, nm, dd);
    lemma_month_length(ny, nm);
    if in_month(yb, mb, dd) > base {
        assert(r == in_month(yb, mb, dd));
    } else {
        assert(r == in_month(ny, nm, dd));
    }
    assert forall|y: int, m: int| 1 <= m <= 12 implies !(base < #[trigger] in_month(y, m, dd) < r) by {
        lemma_in_month_bounds(y, m, dd);
        lemma_month_length(y, m);
        if month_index(y, m) < month_index(yb, mb) {
            lemma_month_order(y, m, yb, mb);
        } else if month_index(y, m) == month_index(yb, mb) {
            assert(y == yb && m == mb);
        } else if month_index(y, m) == month_index(yb, mb) + 1 {
            assert(month_index(ny, nm) == month_index(yb, mb) + 1);
            assert(y == ny && m == nm);
        } else {
            assert(month_index(ny, nm) == month_index(yb, mb) + 1);
            lemma_month_order(ny, nm, y, m);
        }
    }
}

/// The day a repeating task moves to when it is completed: the first occurrence after both its
/// due day and today (missed occurrences are skipped). Daily: the day after. Weekly: the first
/// later day on one of the rule's weekdays (the due day's own when it names none). Monthly: the
/// due day's day of the month (or the month's last day when it is shorter), this month if that
/// is still ahead, else next month.
pub fn next_due_day(rule: &Recurrence, due: Day, today: Day) -> (r: Day)
    requires
        valid_day(due as int),
        valid_day(today as int),
        next_due_in_range(rule@, due, today),
    ensures
        r == spec_next_due_day(rule@, due, today),
        r > base_day(due as int, today as int),
        r <= base_day(due as int, today as int) + 62,
        valid_day(r as int),
        rule@ is Month ==> civil_known(due),
        rule@ is Week ==> {
            let days = week_days(rule@->Week_0, due as int);
            &&& is_chosen(days, r as int)
            &&& r <= base_day(due as int, today as int) + 7
            &&& forall|d: int| base_day(due as int, today as int) < d < r ==> !is_chosen(days, d)
        },
        rule@ is Month ==> civil_known(base_day(due as int, today as int) as Day),
        is_occurrence(rule@, due, r as int),
        forall|d: int| base_day(due as int, today as int) < d < r ==> !is_occurrence(rule@, due, d),
{
    let base: Day = if due >= today {
        due
    } else {
        today
    };
    match rule {
        Recurrence::Day => base + 1,
        Recurrence::Week { days } => {
            let own: Vec<u8> = vec![weekday_from_monday(due)];
            let chosen: &Vec<u8> = if days.len() == 0 {
                &own
            } else {
                days
            };
            proof {
                assert(own@ =~= seq![weekday(due as int) as u8]);
                assert(chosen@ == week_days(days@, due as int));
                if days@.len() == 0 {
                    assert(own@[0] < 7);
                }
                lemma_week_ends(chosen@, base as int);
                lemma_first_chosen(chosen@, base as int, 1);
            }
            let mut n: i32 = 1;
            loop
                invariant
                    1 <= n <= first_chosen(chosen@, base as int, 1),
                    first_chosen(chosen@, base as int, 1) <= 7,
                    forall|d: int| base + 1 <= d < base + n ==> !#[trigger] is_chosen(chosen@, d),
                    base + first_chosen(chosen@, base as int, 1) <= MAX_DAY,
                    MIN_DAY <= base,
                    chosen@ == week_days(days@, due as int),
                    is_chosen(chosen@, base + first_chosen(chosen@, base as int, 1)),
                    base == base_day(due as int, today as int),
                    rule@ == RecurrenceView::Week(days@),
                decreases 8 - n,
            {
                let d = base + n;
                let w = weekday_from_monday(d);
                let mut i: usize = 0;
                let mut found = false;
                while i < chosen.len()
                    invariant
                        i <= chosen.len(),
                        found == (exists|j: int| 0 <= j < i && chosen@[j] == w),
                    decreases chosen.len() - i,
                {
                    if chosen[i] == w {
                        found = true;
                    }
                    i += 1;
                }
                assert(found == is_chosen(chosen@, d as int));
                if found {
                    proof {
                        lemma_first_chosen(chosen@, base as int, 1);
                    }
                    assert(n == first_chosen(chosen@, base as int, 1));
                    return d;
                }
                n += 1;
            }
        },
        Recurrence::Month => {
            let (_, _, dd) = civil(due);
            let (y, m, bd) = civil(base);
            proof {
                if base <= MAX_DAY - 31 {
                    lemma_far_from_end(base);
                }
                lemma_monthly_first(base, dom_of(due));
            }
            let last = month_length(y, m);
            let k = if dd <= last {
                dd
            } else {
                last
            };
            let this_month = epoch_day(y, m, k).unwrap();
            proof {
                lemma_day_of_month(y as int, m as int, bd as int);
                lemma_day_of_month(y as int, m as int, k as int);
                lemma_in_month_bounds(y as int, m as int, dd as int);
            }
            if this_month > base {
                this_month
            } else {
                let (ny, nm): (i32, u32) = if m == 12 {
                    (y + 1, 1)
                } else {
                    (y, m + 1)
                };
                let nlast = month_length(ny, nm);
                let nk = if dd <= nlast {
                    dd
                } else {
                    nlast
                };
                let r = epoch_day(ny, nm, nk).unwrap();
                proof {
                    lemma_month_length(y as int, m as int);
                    lemma_day_of_month(ny as int, nm as int, nk as int);
                    lemma_in_month_bounds(ny as int, nm as int, dd as int);
                }
                r
            }
        },
    }
}

/// Days in month `m` of year `y`.
fn month_length(y: i32, m: u32) -> (r: u32)
    requires
        1 <= m <= 12,
    ensures
        r == days_in_month(y as int, m as int),
{
    if m == 2 {
        let leap = (y % 4 == 0 && y % 100 != 0) || y % 400 == 0;
        assert(leap == crate::clock::is_leap_year(y as int)) by (nonlinear_arith)
            requires
                leap == ((y % 4 == 0 && y % 100 != 0) || y % 400 == 0),
        ;
        if leap {
            29
        } else {
            28
        }
    } else if m == 4 || m == 6 || m == 9 || m == 11 {
        30
    } else {
        31
    }
}

/// `next_due_day` where the next occurrence can be represented; `None` where it cannot (a weekly
/// rule naming no named_weekday weekday, or a day past the end of chrono's calendar).
pub fn try_next_due_day(rule: &Recurrence, due: Day, today: Day) -> (r: Option<Day>)
    requires
        valid_day(due as int),
        valid_day(today as int),
    ensures
        r is Some <==> next_due_in_range(rule@, due, today),
        r matches Some(d) ==> d == spec_next_due_day(rule@, due, today) && is_occurrence(rule@, due, d as int)
            && forall|x: int| base_day(due as int, today as int) < x < d ==> !is_occurrence(rule@, due, x),
{
    let base: Day = if due >= today {
        due
    } else {
        today
    };
    let ok = match rule {
        Recurrence::Day => base < MAX_DAY,
        Recurrence::Week { days } => {
            let mut named_weekday = days.len() == 0;
            let mut i: usize = 0;
            while i < days.len()
                invariant
                    i <= days.len(),
                    named_weekday == (days@.len() == 0 || exists|j: int| 0 <= j < i && days@[j] < 7),
                decreases days.len() - i,
            {
                if days[i] < 7 {
                    named_weekday = true;
                }
                i += 1;
            }
            if !named_weekday {
                false
            } else {
                let d = next_due_day_unbounded_week(days, due, base);
                d <= MAX_DAY as i64
            }
        },
        Recurrence::Month => {
            let (_, _, dd) = civil(due);
            let (y, m, _) = civil(base);
            let last = month_length(y, m);
            let k = if dd <= last {
                dd
            } else {
                last
            };
            let this_month = epoch_day(y, m, k).unwrap();
            base <= MAX_DAY - 31 || this_month > base || y < MAX_YEAR || m < 12
        },
    };
    if ok {
        Some(next_due_day(rule, due, today))
    } else {
        None
    }
}

/// The day a weekly rule lands on, computed without a bound on the calendar.
fn next_due_day_unbounded_week(days: &Vec<u8>, due: Day, base: Day) -> (r: i64)
    requires
        valid_day(due as int),
        valid_day(base as int),
        week_rule_ok(days@),
    ensures
        r == base + first_chosen(week_days(days@, due as int), base as int, 1),
{
    let own: Vec<u8> = vec![weekday_from_monday(due)];
    let chosen: &Vec<u8> = if days.len() == 0 {
        &own
    } else {
        days
    };
    proof {
        assert(own@ =~= seq![weekday(due as int) as u8]);
        if days@.len() == 0 {
            assert(own@[0] < 7);
        }
        lemma_week_ends(chosen@, base as int);
        lemma_first_chosen(chosen@, base as int, 1);
    }
    let mut n: i64 = 1;
    loop
        invariant
            1 <= n <= first_chosen(chosen@, base as int, 1),
            first_chosen(chosen@, base as int, 1) <= 7,
            forall|d: int| base + 1 <= d < base + n ==> !#[trigger] is_chosen(chosen@, d),
            chosen@ == week_days(days@, due as int),
            MIN_DAY <= base <= MAX_DAY,
            is_chosen(chosen@, base + first_chosen(chosen@, base as int, 1)),
        decreases 8 - n,
    {
        let d: i64 = base as i64 + n;
        let w = weekday_from_monday_wide(d);
        let mut i: usize = 0;
        let mut found = false;
        while i < chosen.len()
            invariant
                i <= chosen.len(),
                found == (exists|j: int| 0 <= j < i && chosen@[j] == w),
            decreases chosen.len() - i,
        {
            if chosen[i] == w {
                found = true;
            }
            i += 1;
        }
        assert(found == is_chosen(chosen@, d as int));
        if found {
            proof {
                lemma_first_chosen(chosen@, base as int, 1);
            }
            return d;
        }
        n += 1;
    }
}

/// Monday-first weekday of any day number.
fn weekday_from_monday_wide(day: i64) -> (r: u8)
    requires
        -1_000_000_000 < day < 1_000_000_000,
    ensures
        r as int == weekday(day as int),
{
    let w = (day + 3) % 7;
    let w = if w < 0 {
        w + 7
    } else {
        w
    };
    assert(w == ((day as int) + 3) % 7);
    w as u8
}

/// The rule names exactly the weekdays below `n` (Monday is 0), in any order and repeated or not.
pub open spec fn names_exactly(days: Seq<u8>, n: int) -> bool {
    forall|x: u8| days.contains(x) <==> x < n
}

/// Names of the weekdays below `w` that the rule names, Monday first.
pub open spec fn names_below(days: Seq<u8>, w: int) -> Seq<Seq<char>>
    decreases w,
{
    if w <= 0 {
        seq![]
    } else if days.contains((w - 1) as u8) {
        names_below(days, w - 1).push(spec_weekday_name(w - 1))
    } else {
        names_below(days, w - 1)
    }
}

/// Names joined by ", ".
pub open spec fn join_comma(names: Seq<Seq<char>>) -> Seq<char>
    decreases names.len(),
{
    if names.len() == 0 {
        seq![]
    } else if names.len() == 1 {
        names[0]
    } else {
        join_comma(names.drop_last()) + ", "@ + names.last()
    }
}

/// How a rule reads: "Her gün", "Hafta içi her gün", "Her Pzt, Per", "Her hafta", "Her ay".
pub open spec fn spec_label(rule: RecurrenceView) -> Seq<char> {
    match rule {
        RecurrenceView::Day => "Her gün"@,
        RecurrenceView::Month => "Her ay"@,
        RecurrenceView::Week(days) => if days.len() == 0 {
            "Her hafta"@
        } else if names_exactly(days, 5) {
            "Hafta içi her gün"@
        } else if names_exactly(days, 7) {
            "Her gün"@
        } else {
            "Her "@ + join_comma(names_below(days, 7))
        },
    }
}

/// "Her gün", "Hafta içi her gün", "Her Pzt, Per", "Her ay".
pub fn label(rule: &Recurrence) -> (r: String)
    ensures
        r@ == spec_label(rule@),
{
    match rule {
        Recurrence::Day => "Her gün".to_string(),
        Recurrence::Month => "Her ay".to_string(),
        Recurrence::Week { days } => {
            if days.len() == 0 {
                return "Her hafta".to_string();
            }
            let mut present: Vec<bool> = vec![false, false, false, false, false, false, false];
            let mut other = false;
            let mut i: usize = 0;
            while i < days.len()
                invariant
                    i <= days.len(),
                    present@.len() == 7,
                    forall|w: int| 0 <= w < 7 ==> #[trigger] present@[w] == (exists|j: int| 0 <= j < i && days@[j] == w),
                    other == (exists|j: int| 0 <= j < i && days@[j] >= 7),
                decreases days.len() - i,
            {
                let d = days[i];
                if d < 7 {
                    present.set(d as usize, true);
                } else {
                    other = true;
                }
                i += 1;
            }
            assert forall|w: int| 0 <= w < 7 implies #[trigger] present@[w] == days@.contains(w as u8) by {
                if present@[w] {
                    let j = choose|j: int| 0 <= j < days@.len() && days@[j] == w;
                    assert(days@[j] == w as u8);
                }
            }
            assert(other == (exists|x: u8| x >= 7 && days@.contains(x))) by {
                if other {
                    let j = choose|j: int| 0 <= j < days@.len() && days@[j] >= 7;
                    assert(days@.contains(days@[j]));
                }
            }
            let weekdays_only = present[0] && present[1] && present[2] && present[3] && present[4]
                && !present[5] && !present[6] && !other;
            let whole_week = present[0] && present[1] && present[2] && present[3] && present[4]
                && present[5] && present[6] && !other;
            proof {
                lemma_names_exactly(days@, 5, present@, other);
                lemma_names_exactly(days@, 7, present@, other);
            }
            if weekdays_only {
                "Hafta içi her gün".to_string()
            } else if whole_week {
                "Her gün".to_string()
            } else {
                let mut s = "Her ".to_string();
                let mut any = false;
                let mut w: u8 = 0;
                while w < 7
                    invariant
                        w <= 7,
                        present@.len() == 7,
                        forall|k: int| 0 <= k < 7 ==> #[trigger] present@[k] == days@.contains(k as u8),
                        any == (names_below(days@, w as int).len() > 0),
                        s@ == "Her "@ + join_comma(names_below(days@, w as int)),
                    decreases 7 - w,
                {
                    if present[w as usize] {
                        if any {
                            s.append(", ");
                        }
                        s.append(weekday_name(w));
                        any = true;
                        proof {
                            let before = names_below(days@, w as int);
                            assert(days@.contains(w as u8));
                            assert(names_below(days@, w as int + 1) == before.push(spec_weekday_name(w as int)));
                            assert(before.push(spec_weekday_name(w as int)).drop_last() =~= before);
                        }
                    }
                    w += 1;
                }
                s
            }
        },
    }
}

proof fn lemma_names_exactly(days: Seq<u8>, n: int, present: Seq<bool>, other: bool)
    requires
        n == 5 || n == 7,
        present.len() == 7,
        forall|w: int| 0 <= w < 7 ==> #[trigger] present[w] == days.contains(w as u8),
        other == (exists|x: u8| x >= 7 && days.contains(x)),
    ensures
        names_exactly(days, n) == ((forall|w: int| 0 <= w < 7 ==> present[w] == (w < n)) && !other),
{
    if names_exactly(days, n) {
        assert forall|w: int| 0 <= w < 7 implies present[w] == (w < n) by {
            assert(days.contains(w as u8) <==> (w as u8) < n);
        }
        if other {
            let x = choose|x: u8| x >= 7 && days.contains(x);
            assert(days.contains(x) <==> x < n);
        }
    }
    if (forall|w: int| 0 <= w < 7 ==> present[w] == (w < n)) && !other {
        assert forall|x: u8| days.contains(x) <==> x < n by {
            if x < 7 {
                assert(present[x as int] == days.contains(x));
            }
        }
    }
}

/// The local due day and time of `current` (today at 23:59 when there is none).
pub open spec fn due_reading(current: Option<Millis>, today: Day, due: Day, time: int) -> bool {
    match current {
        None => due == today && time == END_OF_DAY,
        Some(c) => local_reading(c as int, due, time),
    }
}

/// `r` is the next due date of `rule` for the local readings `today` (of `now`) and `due`,
/// `time` (of `current`): `at_local`'s instant of that day and time.
pub open spec fn next_due_outcome(
    rule: RecurrenceView,
    current: Option<Millis>,
    now: Millis,
    r: Millis,
    due: Day,
    today: Day,
    time: int,
    now_ms: int,
) -> bool {
    &&& local_reading(now as int, today, now_ms)
    &&& due_reading(current, today, due, time)
    &&& 0 <= time < MILLIS_PER_DAY
    &&& -MILLIS_PER_DAY <= r - (spec_next_due_day(rule, due, today) * MILLIS_PER_DAY + time) < MILLIS_PER_DAY
}

/// The local calendar days that `next_due` may meet are at least this far from the ends of
/// chrono's calendar (instants between `MIN_INSTANT + NEXT_DUE_MARGIN` and
/// `MAX_INSTANT - NEXT_DUE_MARGIN`): 66 days, the next occurrence's reach (62 days, a monthly
/// rule's longest), the local reading's offset (under a day) and the two days `at_local` keeps
/// clear of the calendar's ends; nearer the ends the next date cannot be represented.
pub const NEXT_DUE_MARGIN: i64 = 5_702_400_000;

/// The date a repeating task moves to when it is completed: `next_due_day` of its local due day
/// (today when it has none) and today, at the same local time of day (23:59 when it had none).
/// The local days and times depend on the machine's time zone: what is stated is that the
/// result is `at_local`'s reading of the next due day, which lies within a day of it.
pub fn next_due(rule: &Recurrence, current: Option<Millis>, now: Millis) -> (r: Millis)
    requires
        MIN_INSTANT + NEXT_DUE_MARGIN <= now <= MAX_INSTANT - NEXT_DUE_MARGIN,
        current matches Some(c) ==> MIN_INSTANT + NEXT_DUE_MARGIN <= c <= MAX_INSTANT - NEXT_DUE_MARGIN,
        rule@ is Week ==> week_rule_ok(rule@->Week_0),
    ensures
        exists|due: Day, today: Day, time: int, now_ms: int|
            #[trigger] next_due_outcome(rule@, current, now, r, due, today, time, now_ms),
{
    let (today, now_ms) = local_day_time(now);
    let (due_day, time) = match current {
        Some(due) => local_day_time(due),
        None => (today, END_OF_DAY),
    };
    proof {
        lemma_reading_inside(now as int, today, now_ms as int);
        if let Some(c) = current {
            lemma_reading_inside(c as int, due_day, time as int);
        }
        if rule@ is Week {
            let days = week_days(rule@->Week_0, due_day as int);
            if (rule@->Week_0).len() == 0 {
                assert(days[0] < 7);
            }
            lemma_week_ends(days, base_day(due_day as int, today as int));
        }
    }
    let next = next_due_day(rule, due_day, today);
    let r = at_local(next, time);
    assert(next_due_outcome(rule@, current, now, r, due_day, today, time as int, now_ms as int));
    r
}

/// The local day of an instant inside the margins is far from both ends of the calendar.
proof fn lemma_reading_inside(t: int, day: Day, ms: int)
    requires
        local_reading(t, day, ms),
        MIN_INSTANT + NEXT_DUE_MARGIN <= t <= MAX_INSTANT - NEXT_DUE_MARGIN,
    ensures
        MIN_DAY + 60 <= day <= MAX_DAY - 64,
{
    assert(MIN_DAY + 60 <= day <= MAX_DAY - 64) by (nonlinear_arith)
        requires
            -MILLIS_PER_DAY < day * MILLIS_PER_DAY + ms - t < MILLIS_PER_DAY,
            0 <= ms < MILLIS_PER_DAY,
            MIN_INSTANT + NEXT_DUE_MARGIN <= t <= MAX_INSTANT - NEXT_DUE_MARGIN,
    ;
}

/// A day a month before the end of the calendar is not in its last month.
proof fn lemma_far_from_end(day: Day)
    requires
        civil_known(day),
        day <= MAX_DAY - 31,
    ensures
        year_of(day) < MAX_YEAR || month_of(day) < 12,
{
    if year_of(day) == MAX_YEAR && month_of(day) == 12 {
        lemma_day_of_month(MAX_YEAR as int, 12, dom_of(day));
        assert(days_from_civil(MAX_YEAR as int, 12, 1) == MAX_DAY - 30);
    }
}

/// Moves a due date to `day`, keeping its local time of day (or ending the day, 23:59, when
/// there was none).
pub fn move_to_day(current: Option<Millis>, day: Day) -> (r: Millis)
    requires
        current matches Some(c) ==> valid_instant(c as int),
        MIN_DAY + 2 <= day <= MAX_DAY - 2,
    ensures
        exists|d: Day, time: int| #[trigger] moved_outcome(current, day, r, d, time),
{
    let time = match current {
        Some(due) => local_day_time(due),
        None => (day, END_OF_DAY),
    };
    let r = at_local(day, time.1);
    assert(moved_outcome(current, day, r, time.0, time.1 as int));
    r
}

/// `r` is `at_local`'s instant of `day` at the local time of `current` (read on local day `d`),
/// or at 23:59 when there is none.
pub open spec fn moved_outcome(current: Option<Millis>, day: Day, r: Millis, d: Day, time: int) -> bool {
    &&& 0 <= time < MILLIS_PER_DAY
    &&& (current is None ==> time == END_OF_DAY)
    &&& (current matches Some(c) ==> local_reading(c as int, d, time))
    &&& -MILLIS_PER_DAY <= r - (day * MILLIS_PER_DAY + time) < MILLIS_PER_DAY
}

} // verus!
