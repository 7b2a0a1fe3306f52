use odak::updater::{
    finished_phase, install_now, new_version_notice, progress, tick, Outcome, Phase, Step, Tick, Trigger,
};
use std::time::Duration;

const SOON: Duration = Duration::from_secs(10);
const LATER: Duration = Duration::from_secs(10 * 60);

#[test]
fn updates_found_at_launch_install_right_away() {
    assert!(install_now(Trigger::Startup, true, SOON, false));
    assert!(!install_now(Trigger::Startup, true, LATER, false), "the user has been working for a while");
}

#[test]
fn an_open_task_form_postpones_the_restart() {
    assert!(!install_now(Trigger::Startup, true, SOON, true));
}

#[test]
fn a_tray_only_app_installs_silently() {
    assert!(install_now(Trigger::Periodic, false, LATER, false));
    assert!(install_now(Trigger::Startup, false, LATER, true));
}

#[test]
fn an_open_window_waits_for_the_user() {
    assert!(!install_now(Trigger::Periodic, true, LATER, false));
    assert!(!install_now(Trigger::Manual, true, SOON, false));
}

#[test]
fn the_fresh_start_window_ends_at_ninety_seconds() {
    assert!(install_now(Trigger::Startup, true, Duration::from_millis(89_999), false));
    assert!(!install_now(Trigger::Startup, true, Duration::from_secs(90), false));
    assert!(!install_now(Trigger::Manual, false, SOON, false));
}

#[test]
fn progress_moves_only_a_running_check() {
    assert_eq!(
        progress(Step::Found("1.2.0".to_string()), &Phase::Checking),
        Some(Phase::Downloading { version: "1.2.0".to_string(), percent: 0 })
    );
    let downloading = Phase::Downloading { version: "1.2.0".to_string(), percent: 10 };
    assert_eq!(
        progress(Step::Percent(40), &downloading),
        Some(Phase::Downloading { version: "1.2.0".to_string(), percent: 40 })
    );
    assert_eq!(progress(Step::Percent(40), &Phase::Idle), None);
    assert_eq!(progress(Step::Found("1.2.0".to_string()), &downloading), None);
}

#[test]
fn failed_checks_are_quiet_unless_asked_for() {
    assert_eq!(finished_phase(Trigger::Periodic, Outcome::Failed("offline".to_string()), 5), Phase::Idle);
    assert_eq!(
        finished_phase(Trigger::Manual, Outcome::Failed("offline".to_string()), 5),
        Phase::Failed("Güncelleme denetlenemedi: offline".to_string())
    );
    assert_eq!(finished_phase(Trigger::Startup, Outcome::UpToDate, 5), Phase::UpToDate(5));
    assert_eq!(finished_phase(Trigger::Startup, Outcome::Downloaded("2.0".to_string()), 5), Phase::Ready("2.0".to_string()));
    assert_eq!(finished_phase(Trigger::Manual, Outcome::NotInstalled, 5), Phase::NotInstalled);
}

#[test]
fn busy_phases_block_a_new_check() {
    assert!(Phase::Checking.is_busy());
    assert!(Phase::Ready("1".to_string()).is_busy());
    assert!(!Phase::Idle.is_busy());
    assert!(!Phase::Failed("x".to_string()).is_busy());
}

#[test]
fn the_tick_installs_when_nobody_looks() {
    assert_eq!(tick(true, false, true), Tick::Install);
    assert_eq!(tick(true, true, true), Tick::Check);
    assert_eq!(tick(false, false, false), Tick::Wait);
}

#[test]
fn a_new_version_is_announced_once() {
    assert_eq!(new_version_notice("1.0.0", "1.1.0"), Some("v1.0.0 → v1.1.0".to_string()));
    assert_eq!(new_version_notice("1.1.0", "1.1.0"), None);
    assert_eq!(new_version_notice("", "1.1.0"), None);
}
