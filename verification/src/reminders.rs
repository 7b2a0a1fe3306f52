//! Reminder scheduling. The app polls `due_now` every 15 seconds.

use vstd::prelude::*;
use crate::clock::{valid_instant, MAX_INSTANT};
use crate::model::{Id, Millis, Reminder, Repeat, Task, TaskView, task_views};

verus! {

pub const MILLIS_PER_DAY: i64 = 86_400_000;

pub const MILLIS_PER_WEEK: i64 = 604_800_000;

/// An enabled reminder whose next trigger is at or before `now`.
pub open spec fn reminder_due(r: Option<Reminder>, now: int) -> bool {
    match r {
        Some(r) => r.enabled && r.next_trigger <= now,
        None => false,
    }
}

pub open spec fn task_is_due(t: TaskView, now: int) -> bool {
    reminder_due(t.reminder, now)
}

/// Ids, in list order, of the tasks whose reminder is due at `now`.
pub open spec fn due_ids(tasks: Seq<TaskView>, now: int) -> Seq<Id>
    decreases tasks.len(),
{
    if tasks.len() == 0 {
        Seq::empty()
    } else {
        let rest = due_ids(tasks.drop_last(), now);
        if task_is_due(tasks.last(), now) {
            rest.push(tasks.last().id)
        } else {
            rest
        }
    }
}

pub proof fn lemma_due_ids_member(tasks: Seq<TaskView>, now: int, id: Id)
    ensures
        due_ids(tasks, now).contains(id) <==> exists|i: int|
            0 <= i < tasks.len() && tasks[i].id == id && task_is_due(#[trigger] tasks[i], now),
    decreases tasks.len(),
{
    if tasks.len() > 0 {
        let init = tasks.drop_last();
        lemma_due_ids_member(init, now, id);
        if due_ids(tasks, now).contains(id) {
            if due_ids(init, now).contains(id) {
                let i = choose|i: int| 0 <= i < init.len() && init[i].id == id && task_is_due(#[trigger] init[i], now);
                assert(tasks[i] == init[i]);
            } else {
                let last = tasks.len() - 1;
                assert(tasks[last] == tasks.last());
                if task_is_due(tasks.last(), now) {
                    let k = choose|k: int| 0 <= k < due_ids(tasks, now).len() && due_ids(tasks, now)[k] == id;
                    if k < due_ids(init, now).len() {
                        assert(due_ids(init, now)[k] == id);
                    }
                    assert(tasks[last].id == id);
                } else {
                    assert(due_ids(tasks, now) == due_ids(init, now));
                }
            }
        }
        if exists|i: int| 0 <= i < tasks.len() && tasks[i].id == id && task_is_due(#[trigger] tasks[i], now) {
            let i = choose|i: int| 0 <= i < tasks.len() && tasks[i].id == id && task_is_due(#[trigger] tasks[i], now);
            if i < tasks.len() - 1 {
                assert(init[i] == tasks[i]);
                assert(due_ids(init, now).contains(id));
                let k = choose|k: int| 0 <= k < due_ids(init, now).len() && due_ids(init, now)[k] == id;
                assert(due_ids(tasks, now)[k] == id);
            } else {
                assert(due_ids(tasks, now) == due_ids(init, now).push(id));
                assert(due_ids(tasks, now)[due_ids(init, now).len() as int] == id);
            }
            assert(due_ids(tasks, now).contains(id));
        }
    } else {
        assert(due_ids(tasks, now) =~= Seq::<Id>::empty());
    }
}

/// Ids of tasks whose enabled reminder is due at `now`.
pub fn due_now(tasks: &[Task], now: Millis) -> (r: Vec<Id>)
    ensures
        r@ == due_ids(task_views(tasks@), now as int),
{
    let mut out: Vec<Id> = Vec::new();
    let mut i: usize = 0;
    while i < tasks.len()
        invariant
            i <= tasks.len(),
            out@ == due_ids(task_views(tasks@).subrange(0, i as int), now as int),
        decreases tasks.len() - i,
    {
        let due = match tasks[i].reminder {
            Some(r) => r.enabled && r.next_trigger <= now,
            None => false,
        };
        let ghost prefix = task_views(tasks@).subrange(0, i as int + 1);
        assert(prefix.drop_last() =~= task_views(tasks@).subrange(0, i as int));
        assert(prefix.last() == tasks@[i as int]@);
        if due {
            out.push(tasks[i].id);
        }
        i += 1;
    }
    assert(task_views(tasks@).subrange(0, tasks.len() as int) =~= task_views(tasks@));
    out
}

/// Length of one repetition of a repeating reminder, in milliseconds.
pub open spec fn step_of(repeat: Repeat) -> int {
    match repeat {
        Repeat::Once => 0,
        Repeat::Daily => MILLIS_PER_DAY as int,
        Repeat::Weekly => MILLIS_PER_WEEK as int,
    }
}

/// The reminder after it fired at `now`: a one-time reminder is disabled; a repeating one moves
/// on by whole steps to its first trigger after `now` (counted in whole seconds behind).
pub open spec fn spec_advance(r: Reminder, now: int) -> Reminder {
    match r.repeat {
        Repeat::Once => Reminder { enabled: false, ..r },
        _ => {
            if r.next_trigger <= now {
                let step = step_of(r.repeat);
                let behind = (now - r.next_trigger) / 1000;
                let steps = behind / (step / 1000) + 1;
                Reminder { next_trigger: (r.next_trigger + step * steps) as i64, ..r }
            } else {
                r
            }
        },
    }
}

proof fn lemma_advance_bounds(next: int, now: int, step_s: int)
    by (nonlinear_arith)
    requires
        next <= now,
        step_s > 0,
    ensures
        ({
            let behind = (now - next) / 1000;
            let steps = behind / step_s + 1;
            &&& now < next + step_s * 1000 * steps
            &&& next + step_s * 1000 * (steps - 1) <= now
            &&& steps >= 1
        }),
{
    let behind = (now - next) / 1000;
    let q = behind / step_s;
    assert(behind == step_s * q + behind % step_s);
    assert(0 <= behind % step_s < step_s);
    assert(now - next == 1000 * behind + (now - next) % 1000);
    assert(0 <= (now - next) % 1000 < 1000);
}

/// Call after a reminder fired. One-time reminders are disabled; repeating ones move to their
/// first trigger after `now`, so a reminder missed for several periods fires only once.
pub fn advance(reminder: &mut Reminder, now: Millis)
    requires
        valid_instant(old(reminder).next_trigger as int),
        valid_instant(now as int),
        now <= MAX_INSTANT - MILLIS_PER_WEEK,
    ensures
        *final(reminder) == spec_advance(*old(reminder), now as int),
        old(reminder).repeat != Repeat::Once && old(reminder).next_trigger <= now ==> {
            &&& now < final(reminder).next_trigger
            &&& final(reminder).next_trigger - step_of(old(reminder).repeat) <= now
        },
        valid_instant(final(reminder).next_trigger as int),
{
    let step: i64 = match reminder.repeat {
        Repeat::Once => {
            reminder.enabled = false;
            return ;
        },
        Repeat::Daily => MILLIS_PER_DAY,
        Repeat::Weekly => MILLIS_PER_WEEK,
    };
    if reminder.next_trigger <= now {
        let behind = (now - reminder.next_trigger) / 1000;
        let step_s = step / 1000;
        let steps = behind / step_s + 1;
        proof {
            lemma_advance_bounds(reminder.next_trigger as int, now as int, step_s as int);
            assert(step_s * 1000 == step);
        }
        assert(step * steps <= now - reminder.next_trigger + step) by (nonlinear_arith)
            requires
                step == step_s * 1000,
                reminder.next_trigger + step_s * 1000 * (steps - 1) <= now,
        ;
        reminder.next_trigger = reminder.next_trigger + step * steps;
    }
}

} // verus!
