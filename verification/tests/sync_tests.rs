use odak::model::PendingOp;
use odak::supabase::Error;
use odak::sync::{after_upload, finished, next_turn, reconnect_pause_secs, SyncStatus, Turn, PERIOD_SECS};

#[test]
fn unreachable_turns_back_off_up_to_the_period() {
    assert_eq!(next_turn(Turn::Offline, 0), (1, 5));
    assert_eq!(next_turn(Turn::Offline, 1), (2, 30));
    assert_eq!(next_turn(Turn::Offline, 2), (3, 120));
    assert_eq!(next_turn(Turn::Offline, 3), (4, 300));
    assert_eq!(next_turn(Turn::Offline, 40), (41, 300));
    assert_eq!(next_turn(Turn::Offline, u32::MAX), (u32::MAX, 300));
    let mut last = 0;
    let mut failures = 0;
    for _ in 0..10 {
        let (n, pause) = next_turn(Turn::Offline, failures);
        assert!(pause >= last && pause <= PERIOD_SECS);
        last = pause;
        failures = n;
    }
}

#[test]
fn a_reached_server_resets_the_schedule() {
    assert_eq!(next_turn(Turn::Done, 7), (0, 300));
    assert_eq!(next_turn(Turn::Skipped, 2), (0, 300));
}

#[test]
fn upload_replies_record_or_stop_the_queue() {
    let op = PendingOp::Delete(9);
    let sent = after_upload(op, None, Ok(true)).unwrap();
    assert!(sent.uploaded && sent.op == op && sent.snapshot.is_none());
    let gone = after_upload(op, None, Err(Error::Status(404, "missing".into()))).unwrap();
    assert!(!gone.uploaded && gone.op == op);
    assert_eq!(after_upload(op, None, Err(Error::Network("dns".into()))).err(), Some(Error::Network("dns".into())));
    assert_eq!(after_upload(op, None, Err(Error::Status(503, String::new()))).err(), Some(Error::Status(503, String::new())));
}

#[test]
fn finished_turns_set_the_status() {
    assert_eq!(finished(None), (SyncStatus::Idle, Turn::Done));
    assert_eq!(finished(Some(Error::Network("x".into()))), (SyncStatus::Offline, Turn::Offline));
    assert_eq!(
        finished(Some(Error::Status(409, "conflict".into()))),
        (SyncStatus::Failed("Sunucu hatası 409: conflict".into()), Turn::Done)
    );
}

#[test]
fn realtime_reconnects_slow_down() {
    assert_eq!(reconnect_pause_secs(0), 1);
    assert_eq!(reconnect_pause_secs(1), 5);
    assert_eq!(reconnect_pause_secs(2), 15);
    assert_eq!(reconnect_pause_secs(3), 60);
    assert_eq!(reconnect_pause_secs(100), 60);
}
