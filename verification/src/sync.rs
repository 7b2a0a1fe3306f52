//! Background sync decisions: what an upload's reply does to the queue, what a finished turn
//! leaves as the sync status, and how long to wait before the next turn. The turns themselves
//! (network and timers) are the host's work.

use vstd::prelude::*;
use crate::data::{Sent, SentView};
use crate::model::{PendingOp, Task};
use crate::supabase::Error;

verus! {

/// Seconds until the next turn after a normal turn.
pub const PERIOD_SECS: u64 = 300;

/// Seconds to wait after the first, second, third and later turns in a row that found the
/// server unreachable.
pub open spec fn spec_backoff_secs(failures: int) -> int {
    if failures <= 1 {
        5
    } else if failures == 2 {
        30
    } else if failures == 3 {
        120
    } else {
        300
    }
}

/// Which page the main window shows.
#[derive(Clone, Copy, Debug, PartialEq, Eq, Structural)]
pub enum Page {
    Dashboard,
    List,
    Kanban,
    Calendar,
    Form,
    Groups,
    Notifications,
    Settings,
}

/// What the last sync turn ended with.
#[derive(Debug, PartialEq, Eq)]
pub enum SyncStatus {
    Idle,
    Syncing,
    /// The server could not be reached; the queue waits for the next try.
    Offline,
    Failed(String),
}

/// How a sync turn went.
#[derive(Clone, Copy, Debug, PartialEq, Eq, Structural)]
pub enum Turn {
    Done,
    Offline,
    Skipped,
}

/// After a turn: the number of unreachable turns in a row, and the seconds until the next turn
/// (a growing pause while the server is unreachable, five minutes otherwise).
pub fn next_turn(turn: Turn, failures: u32) -> (r: (u32, u64))
    ensures
        turn == Turn::Offline ==> r.0 == if failures == u32::MAX { failures as int } else { failures + 1 },
        turn == Turn::Offline ==> r.1 == spec_backoff_secs(r.0 as int),
        turn != Turn::Offline ==> r == (0u32, PERIOD_SECS),
{
    match turn {
        Turn::Offline => {
            let n = if failures == u32::MAX {
                failures
            } else {
                failures + 1
            };
            let pause = if n <= 1 {
                5
            } else if n == 2 {
                30
            } else if n == 3 {
                120
            } else {
                300
            };
            (n, pause)
        },
        _ => (0, PERIOD_SECS),
    }
}

/// What an upload's reply does: `Ok(uploaded)` and errors that will not go away record the
/// operation as sent (not uploaded on an error); an error worth retrying stops the queue there
/// (`Err`), so the rest waits for the next turn.
pub fn after_upload(op: PendingOp, snapshot: Option<Task>, result: Result<bool, Error>) -> (r: Result<Sent, Error>)
    ensures
        match result {
            Ok(uploaded) => (r matches Ok(s) && s@ == (SentView { op, snapshot: crate::data::snapshot_view(snapshot), uploaded })),
            Err(e) => if e.spec_is_temporary() {
                r == Err::<Sent, Error>(e)
            } else {
                (r matches Ok(s) && s@ == (SentView { op, snapshot: crate::data::snapshot_view(snapshot), uploaded: false }))
            },
        },
{
    match result {
        Ok(uploaded) => Ok(Sent { op, snapshot, uploaded }),
        Err(e) => {
            if e.is_temporary() {
                Err(e)
            } else {
                Ok(Sent { op, snapshot, uploaded: false })
            }
        },
    }
}

/// The sync status a turn leaves, and how the turn counts for the schedule: no error is done,
/// an error worth retrying is offline, any other error is shown and counts as done.
pub fn finished(error: Option<Error>) -> (r: (SyncStatus, Turn))
    ensures
        match error {
            None => r == (SyncStatus::Idle, Turn::Done),
            Some(e) => if e.spec_is_temporary() {
                r == (SyncStatus::Offline, Turn::Offline)
            } else {
                (r.0 matches SyncStatus::Failed(m) && m@ == e.spec_message()) && r.1 == Turn::Done
            },
        },
{
    match error {
        None => (SyncStatus::Idle, Turn::Done),
        Some(e) => {
            if e.is_temporary() {
                (SyncStatus::Offline, Turn::Offline)
            } else {
                (SyncStatus::Failed(e.message()), Turn::Done)
            }
        },
    }
}

/// Seconds before reconnecting the Realtime socket after `failures` failed connections in a row
/// (1, 5, 15, then 60).
pub fn reconnect_pause_secs(failures: u32) -> (r: u64)
    ensures
        r == if failures == 0 {
            1u64
        } else if failures == 1 {
            5
        } else if failures == 2 {
            15
        } else {
            60
        },
{
    if failures == 0 {
        1
    } else if failures == 1 {
        5
    } else if failures == 2 {
        15
    } else {
        60
    }
}

/// The pause after unreachable turns grows with each one in a row and never exceeds the normal
/// period.
pub proof fn law_backoff_grows_to_the_period(a: int, b: int)
    requires
        a <= b,
    ensures
        spec_backoff_secs(a) <= spec_backoff_secs(b),
        spec_backoff_secs(b) <= PERIOD_SECS,
        spec_backoff_secs(a) >= 5,
{
}

} // verus!
