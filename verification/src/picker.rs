//! The date (optionally date and time) picker: the value it holds, the month its pop-over
//! shows, picking a day, moving the time, and its texts. Local time is the machine's.

use vstd::prelude::*;
use crate::clock::{
    civil_known, days_from_civil, dom_of, local_day_time, local_to_utc_earliest, valid_day, valid_instant, Day, MAX_DAY,
    MAX_INSTANT, MILLIS_PER_DAY, MIN_DAY, MIN_INSTANT,
};
use crate::model::Millis;
use crate::recurrence::END_OF_DAY;
use crate::views::{
    clock_text, first_of_month, format_date, format_date_time, local_reading, spec_clock_text,
    spec_date_text, spec_date_time_text, try_add_months, months_after, months_after_in_range,
};

verus! {

/// A picked day without a time starts at 09:00 in a picker with time.
pub const MORNING: i64 = 32_400_000;

/// One hour.
pub const HOUR: i64 = 3_600_000;

pub struct Picker {
    pub value: Option<Millis>,
    pub with_time: bool,
    pub open: bool,
    /// First day of the month the pop-over shows.
    pub month: Day,
}

impl Picker {
    pub open spec fn wf(&self) -> bool {
        &&& (self.value matches Some(v) ==> valid_instant(v as int))
        &&& valid_day(self.month as int)
    }

    /// A closed picker for `value`, showing the month of its local day, or of `today` when
    /// there is none.
    pub fn new(value: Option<Millis>, with_time: bool, today: Day) -> (r: Picker)
        requires
            value matches Some(v) ==> valid_instant(v as int),
            valid_day(today as int),
        ensures
            r.wf(),
            r.value == value,
            r.with_time == with_time,
            !r.open,
            value is None ==> civil_known(today) && r.month == today - dom_of(today) + 1,
            value matches Some(v) ==> exists|d: Day, ms: int|
                local_reading(v as int, d, ms) && civil_known(d) && r.month == d - dom_of(d) + 1,
    {
        let shown = match value {
            Some(v) => {
                let (d, ms) = local_day_time(v);
                proof {
                    assert(local_reading(v as int, d, ms as int));
                }
                d
            },
            None => today,
        };
        let month = first_of_month(shown);
        Picker { value, with_time, open: false, month }
    }

    /// The local day of the value.
    pub fn selected_day(&self) -> (r: Option<Day>)
        requires
            self.wf(),
        ensures
            self.value is None ==> r is None,
            self.value is Some ==> r is Some,
            r matches Some(d) ==> reads_day(self.value->0, d),
    {
        match self.value {
            Some(v) => {
                let (d, ms) = local_day_time(v);
                assert(local_reading(v as int, d, ms as int));
                assert(reads_day(v, d));
                Some(d)
            },
            None => None,
        }
    }

    /// Picks `day`: the value moves to it, keeping its local time of day (09:00 in a picker with
    /// time when there was none, else 23:59, so that it is due at the end of that day). A picker
    /// without time closes.
    pub fn pick(&mut self, day: Day)
        requires
            old(self).wf(),
            MIN_DAY + 3 <= day <= MAX_DAY - 4,
        ensures
            final(self).wf(),
            final(self).with_time == old(self).with_time,
            final(self).month == old(self).month,
            final(self).open == (old(self).open && old(self).with_time),
            exists|time: int| #[trigger] picked_time(old(self).value, old(self).with_time, time) && wall_outcome(
                final(self).value,
                day,
                time,
            ),
    {
        let time: i64 = match self.value {
            Some(v) => {
                let (d, ms) = local_day_time(v);
                assert(local_reading(v as int, d, ms as int));
                ms
            },
            None => if self.with_time {
                MORNING
            } else {
                END_OF_DAY
            },
        };
        assert(picked_time(old(self).value, old(self).with_time, time as int));
        self.value = to_local(day, time);
        if !self.with_time {
            self.open = false;
        }
    }

    /// Moves the time by `minutes`.
    pub fn shift(&mut self, minutes: i64)
        requires
            old(self).wf(),
            old(self).value matches Some(v) ==> valid_instant(v + minutes * 60_000),
        ensures
            final(self).wf(),
            final(self).value == (match old(self).value {
                Some(v) => Some((v + minutes * 60_000) as i64),
                None => None,
            }),
            final(self).with_time == old(self).with_time,
            final(self).open == old(self).open,
            final(self).month == old(self).month,
    {
        if let Some(v) = self.value {
            self.value = Some(v + minutes * 60_000);
        }
    }

    /// "Temizle": no value, and the pop-over closes.
    pub fn clear(&mut self)
        requires
            old(self).wf(),
        ensures
            final(self).wf(),
            final(self).value is None,
            !final(self).open,
            final(self).with_time == old(self).with_time,
            final(self).month == old(self).month,
    {
        self.value = None;
        self.open = false;
    }

    /// Shows the month `n` months away (the calendar's first or last month stays).
    pub fn turn_month(&mut self, n: i32)
        requires
            old(self).wf(),
        ensures
            final(self).wf(),
            final(self).value == old(self).value,
            final(self).with_time == old(self).with_time,
            final(self).open == old(self).open,
            civil_known(old(self).month),
            months_after_in_range(old(self).month, n as int) ==> final(self).month == days_from_civil(
                months_after(old(self).month, n as int).0,
                months_after(old(self).month, n as int).1,
                1,
            ),
            !months_after_in_range(old(self).month, n as int) ==> final(self).month == old(self).month,
    {
        if let Some(m) = try_add_months(self.month, n) {
            self.month = m;
        }
    }

    /// The button's text: the value (with its time in a picker with time), or the placeholder.
    pub fn label(&self, placeholder: &str) -> (r: String)
        requires
            self.wf(),
        ensures
            self.value is None ==> r@ == placeholder@,
            self.value matches Some(v) ==> exists|d: Day, ms: int|
                local_reading(v as int, d, ms) && r@ == (if self.with_time {
                    spec_date_time_text(d, ms)
                } else {
                    spec_date_text(d)
                }),
    {
        match self.value {
            Some(v) => if self.with_time {
                format_date_time(v)
            } else {
                format_date(v)
            },
            None => placeholder.to_string(),
        }
    }

    /// The time row's "HH:MM", shown in a picker with time that holds a value.
    pub fn time_text(&self) -> (r: Option<String>)
        requires
            self.wf(),
        ensures
            !(self.with_time && self.value is Some) ==> r is None,
            (self.with_time && self.value is Some) ==> (r matches Some(t) && exists|d: Day, ms: int|
                local_reading(self.value->0 as int, d, ms) && t@ == spec_clock_text(ms)),
    {
        match self.value {
            Some(v) => if self.with_time {
                let (d, ms) = local_day_time(v);
                assert(local_reading(v as int, d, ms as int));
                Some(clock_text(ms))
            } else {
                None
            },
            None => None,
        }
    }
}

/// `d` is the local day of the instant `utc`.
pub open spec fn reads_day(utc: Millis, d: Day) -> bool {
    exists|ms: int| #[trigger] local_reading(utc as int, d, ms)
}

/// The local time of day a pick keeps: the value's, else 09:00 with time, else 23:59.
pub open spec fn picked_time(value: Option<Millis>, with_time: bool, time: int) -> bool {
    match value {
        Some(v) => exists|d: Day| local_reading(v as int, d, time),
        None => time == if with_time {
            MORNING as int
        } else {
            END_OF_DAY as int
        },
    }
}

/// `value` is what `to_local` gives for `time` on `day`: none, or an instant within a day (and
/// the hour a skipped time moves on) of that wall-clock time.
pub open spec fn wall_outcome(value: Option<Millis>, day: Day, time: int) -> bool {
    value matches Some(u) ==> -MILLIS_PER_DAY < u - (day * MILLIS_PER_DAY + time) < MILLIS_PER_DAY + HOUR
}

/// The reading a pick takes: the wall-clock time's own (`first`), else that of the time an hour
/// later (`later`), for a time that a clock change skips.
pub fn first_reading(first: Option<Millis>, later: Option<Millis>) -> (r: Option<Millis>)
    ensures
        r == (match first {
            Some(t) => Some(t),
            None => later,
        }),
{
    match first {
        Some(t) => Some(t),
        None => later,
    }
}

/// The UTC instant of local `time` on `day`; a time that a clock change skips moves one hour
/// forward. `None` when neither reading exists. Which readings exist depends on the machine's
/// time zone (chrono's `Local`): only where the result lies is stated; the choice between the
/// two readings is `first_reading`'s.
pub fn to_local(day: Day, time: i64) -> (r: Option<Millis>)
    requires
        MIN_DAY + 3 <= day <= MAX_DAY - 4,
        0 <= time < MILLIS_PER_DAY,
    ensures
        wall_outcome(r, day, time as int),
        r matches Some(u) ==> valid_instant(u as int),
{
    let naive = day as i64 * MILLIS_PER_DAY + time;
    assert(MIN_INSTANT + MILLIS_PER_DAY + HOUR <= naive <= MAX_INSTANT - MILLIS_PER_DAY - HOUR) by (nonlinear_arith)
        requires
            MIN_DAY + 3 <= day <= MAX_DAY - 4,
            0 <= time < MILLIS_PER_DAY,
            naive == day * MILLIS_PER_DAY + time,
    ;
    let first = local_to_utc_earliest(naive);
    let later = match first {
        Some(_) => None,
        None => local_to_utc_earliest(naive + HOUR),
    };
    first_reading(first, later)
}

} // verus!
