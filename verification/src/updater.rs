//! Update decisions: when a downloaded update installs, what a check's progress and outcome do
//! to the update phase, and the texts shown about it. Checking, downloading and installing
//! themselves are the host's work.

use vstd::prelude::*;
use vstd::string::StringExecFns;
use std::time::Duration;
use crate::model::Millis;
use crate::text::str_eq;

verus! {

/// An update found this soon after launch (in seconds) installs right away.
pub const FRESH_START_SECS: u64 = 90;

/// Where the updater stands.
#[derive(Debug, PartialEq, Eq)]
pub enum Phase {
    /// Not checked yet.
    Idle,
    /// A development build: there is no installation to update.
    NotInstalled,
    Checking,
    UpToDate(Millis),
    Downloading { version: String, percent: u8 },
    /// Downloaded; installs on restart.
    Ready(String),
    Installing(String),
    Failed(String),
}

/// What started a check.
#[derive(Clone, Copy, Debug, PartialEq, Eq, Structural)]
pub enum Trigger {
    Startup,
    Periodic,
    Manual,
}

/// Whole seconds of a duration, as `Duration::as_secs` gives them.
pub uninterp spec fn spec_whole_seconds(d: Duration) -> u64;

/// std's `Duration::as_secs`: the number of whole seconds in the duration.
#[verifier::external_body]
fn whole_seconds(d: Duration) -> (r: u64)
    ensures
        r == spec_whole_seconds(d),
{
    d.as_secs()
}

/// Whether a freshly downloaded update installs right away (restarting the app).
pub open spec fn spec_install_now(trigger: Trigger, window_open: bool, since_launch_secs: int, editing_task: bool) -> bool {
    if trigger == Trigger::Manual {
        // Asked for from Settings: the user chooses when with "Yeniden başlat ve güncelle".
        false
    } else if !window_open {
        // Only the tray is running: nobody notices a restart.
        true
    } else if trigger == Trigger::Startup {
        // Just opened: update now, unless a task form holds unsaved typing.
        since_launch_secs < FRESH_START_SECS && !editing_task
    } else {
        false
    }
}

/// Whether a freshly downloaded update should install right away (restarting the app): never
/// for a manual check, always when only the tray is running, and for the check at startup when
/// the app was launched less than 90 seconds ago and no task form is open.
pub fn install_now(trigger: Trigger, window_open: bool, since_launch: Duration, editing_task: bool) -> (r: bool)
    ensures
        r == spec_install_now(trigger, window_open, spec_whole_seconds(since_launch) as int, editing_task),
{
    match trigger {
        Trigger::Manual => false,
        _ => {
            if !window_open {
                true
            } else {
                match trigger {
                    Trigger::Startup => whole_seconds(since_launch) < FRESH_START_SECS && !editing_task,
                    _ => false,
                }
            }
        },
    }
}

impl Phase {
    /// A check, download or install is under way, or an update waits: no new check starts.
    pub open spec fn spec_is_busy(&self) -> bool {
        match self {
            Phase::Checking | Phase::Downloading { .. } | Phase::Ready(_) | Phase::Installing(_) => true,
            _ => false,
        }
    }

    pub fn is_busy(&self) -> (r: bool)
        ensures
            r == self.spec_is_busy(),
    {
        match self {
            Phase::Checking | Phase::Downloading { .. } | Phase::Ready(_) | Phase::Installing(_) => true,
            _ => false,
        }
    }

    pub open spec fn spec_is_ready(&self) -> bool {
        self is Ready
    }

    pub fn is_ready(&self) -> (r: bool)
        ensures
            r == self.spec_is_ready(),
    {
        match self {
            Phase::Ready(_) => true,
            _ => false,
        }
    }
}

/// Progress reported by a running check.
pub enum Step {
    /// A newer version was found; its download starts.
    Found(String),
    /// Download progress.
    Percent(u8),
}

/// Where progress moves the phase: a found version starts its download at 0 %, a percentage
/// moves a running download on. Progress that comes after the check finished changes nothing
/// (`None`).
pub fn progress(step: Step, phase: &Phase) -> (r: Option<Phase>)
    ensures
        match (step, phase) {
            (Step::Found(v), Phase::Checking) => (r matches Some(Phase::Downloading { version, percent })
                && version@ == v@ && percent == 0),
            (Step::Percent(p), Phase::Downloading { version: v, .. }) => (r matches Some(
                Phase::Downloading { version, percent },
            ) && version@ == v@ && percent == p),
            _ => r is None,
        },
{
    match (step, phase) {
        (Step::Found(version), Phase::Checking) => Some(Phase::Downloading { version, percent: 0 }),
        (Step::Percent(percent), Phase::Downloading { version, .. }) => Some(
            Phase::Downloading { version: version.clone(), percent },
        ),
        _ => None,
    }
}

/// How a check ended.
pub enum Outcome {
    NotInstalled,
    UpToDate,
    /// A newer version was downloaded.
    Downloaded(String),
    Failed(String),
}

/// The phase a finished check leaves, at time `now`. A failed automatic check goes quietly
/// back to idle (the next one tries again); a failed manual one says why.
pub fn finished_phase(trigger: Trigger, outcome: Outcome, now: Millis) -> (r: Phase)
    ensures
        match outcome {
            Outcome::NotInstalled => r == Phase::NotInstalled,
            Outcome::UpToDate => r == Phase::UpToDate(now),
            Outcome::Downloaded(v) => (r matches Phase::Ready(version) && version@ == v@),
            Outcome::Failed(e) => if trigger == Trigger::Manual {
                (r matches Phase::Failed(m) && m@ == "Güncelleme denetlenemedi: "@ + e@)
            } else {
                r == Phase::Idle
            },
        },
{
    match outcome {
        Outcome::NotInstalled => Phase::NotInstalled,
        Outcome::UpToDate => Phase::UpToDate(now),
        Outcome::Downloaded(version) => Phase::Ready(version),
        Outcome::Failed(e) => {
            if trigger == Trigger::Manual {
                let mut m = "Güncelleme denetlenemedi: ".to_string();
                m.append(e.as_str());
                Phase::Failed(m)
            } else {
                Phase::Idle
            }
        },
    }
}

/// What the periodic tick does.
#[derive(Clone, Copy, Debug, PartialEq, Eq, Structural)]
pub enum Tick {
    Install,
    Check,
    Wait,
}

/// Every minute: a waiting update installs once nobody sees the window; otherwise a check runs
/// when the last one is old enough.
pub fn tick(ready: bool, window_open: bool, check_due: bool) -> (r: Tick)
    ensures
        r == (if ready && !window_open {
            Tick::Install
        } else if check_due {
            Tick::Check
        } else {
            Tick::Wait
        }),
{
    if ready && !window_open {
        Tick::Install
    } else if check_due {
        Tick::Check
    } else {
        Tick::Wait
    }
}

/// The pop-up shown when an update waits for the user.
pub fn ready_notice_body(version: &str) -> (r: String)
    ensures
        r@ == "v"@ + version@ + " indirildi. Kenar çubuğundaki \"Güncelle\"ye bas ya da uygulamayı kapatınca kurulsun."@,
{
    let mut s = "v".to_string();
    s.append(version);
    s.append(" indirildi. Kenar çubuğundaki \"Güncelle\"ye bas ya da uygulamayı kapatınca kurulsun.");
    s
}

/// The pop-up shown while an update installs with the window open.
pub fn installing_notice_body(version: &str) -> (r: String)
    ensures
        r@ == "v"@ + version@ + " kuruluyor; Odak birkaç saniye içinde yeniden açılacak."@,
{
    let mut s = "v".to_string();
    s.append(version);
    s.append(" kuruluyor; Odak birkaç saniye içinde yeniden açılacak.");
    s
}

/// After an update, the line that says which version now runs ("v1.2.0 → v1.3.0"): `None`
/// when the version did not change, or on the first run of a version that records it (nothing
/// to compare with).
pub fn new_version_notice(last: &str, current: &str) -> (r: Option<String>)
    ensures
        (last@ == current@ || last@.len() == 0) ==> r is None,
        !(last@ == current@ || last@.len() == 0) ==> (r matches Some(s) && s@ == "v"@ + last@ + " → v"@ + current@),
{
    if str_eq(last, current) || last.is_empty() {
        None
    } else {
        let mut s = "v".to_string();
        s.append(last);
        s.append(" → v");
        s.append(current);
        Some(s)
    }
}

} // verus!
