use odak::auth::{callback_reply, parse_callback, port_error, wait_round, Waiting};
use odak::data::{Data, Sent, TaskDraft};
use odak::link::{start, LinkAction, LinkEvent};
use odak::model::{PendingOp, Profile};
use odak::realtime::{heartbeat, join, Incoming};
use odak::shell::{day_overflow, form_step, is_active, nav_entries, unread_badge, unread_line, FormStep, Nav};
use odak::supabase::{Error, Session};
use odak::sync::{Page, SyncStatus, Turn};
use odak::turn::{apply_outcome, avatar_needed, prepare, Reply, Run, Step};

fn session(user: u128, expires_at: i64) -> Session {
    Session { access_token: "acc".into(), refresh_token: "ref".into(), expires_at, user_id: user }
}

// ----- the Realtime connection -----

#[test]
fn link_connects_with_a_token_and_passes_new_ones() {
    let (mut link, first) = start();
    assert!(matches!(first, LinkAction::WaitForToken));
    match link.step(LinkEvent::Token(Some("t1".into()))) {
        LinkAction::Connect(m) => assert_eq!(m, join("t1")),
        _ => panic!("expected a connection"),
    }
    assert!(matches!(link.step(LinkEvent::Joined), LinkAction::Read));
    match link.step(LinkEvent::Token(Some("t2".into()))) {
        LinkAction::Send(m) => assert!(m.contains("\"access_token\":\"t2\"") && m.contains("\"ref\":\"2\"")),
        _ => panic!("expected the new token to be sent"),
    }
    match link.step(LinkEvent::HeartbeatDue) {
        LinkAction::Send(m) => assert_eq!(m, heartbeat(3)),
        _ => panic!("expected a heartbeat"),
    }
    assert!(matches!(link.step(LinkEvent::Token(None)), LinkAction::Close));
    assert_eq!(link.token, None);
    assert!(matches!(link.step(LinkEvent::Quit), LinkAction::Stop));
}

#[test]
fn link_backs_off_and_reconnects() {
    let (mut link, _) = start();
    link.step(LinkEvent::Token(Some("t".into())));
    let pauses: Vec<u64> = (0..5)
        .map(|_| match link.step(LinkEvent::Failed("down".into())) {
            LinkAction::Pause(s) => s,
            _ => panic!("expected a pause"),
        })
        .collect();
    assert_eq!(pauses, vec![1, 5, 15, 60, 60]);
    assert!(matches!(link.step(LinkEvent::PauseOver), LinkAction::Connect(_)));
    link.step(LinkEvent::Joined);
    let rejoin = r#"{"topic":"realtime:odak","event":"phx_close","payload":{}}"#;
    assert!(matches!(link.step(LinkEvent::Text(rejoin.into())), LinkAction::Pause(60)));
    link.step(LinkEvent::Joined);
    assert!(matches!(link.step(LinkEvent::Text("not json".into())), LinkAction::Read));
    let change = r#"{"topic":"realtime:odak","event":"postgres_changes","payload":{"data":{"table":"tasks","type":"UPDATE","record":{}}}}"#;
    assert!(matches!(link.step(LinkEvent::Text(change.into())), LinkAction::Emit(Incoming::TaskChanged)));
}

// ----- a sync turn -----

#[test]
fn turns_run_only_for_a_settled_signed_in_account() {
    let mut d = Data::default();
    let id = d.add_task(TaskDraft { title: "a".into(), ..Default::default() }, 1).unwrap();
    d.pending = vec![PendingOp::Upsert(id), PendingOp::Upsert(77), PendingOp::Delete(5)];
    assert!(prepare(&d, None).is_none());
    let job = prepare(&d, Some(&session(1, 0))).unwrap();
    assert_eq!(job.ops.len(), 3);
    assert_eq!(job.ops[0].1.as_ref().unwrap().title, "a");
    assert!(job.ops[1].1.is_none());
    d.account = Some(Profile { id: 1, username: "me".into(), display_name: String::new(), avatar_url: None });
    d.last_account = Some(2);
    assert!(prepare(&d, Some(&session(1, 0))).is_none(), "another account's tasks wait for a choice");
}

#[test]
fn a_turn_refreshes_uploads_pulls_and_fetches_the_directory() {
    let mut d = Data::default();
    let id = d.add_task(TaskDraft { title: "a".into(), ..Default::default() }, 1).unwrap();
    d.pending = vec![PendingOp::Upsert(77), PendingOp::Upsert(id), PendingOp::Delete(5)];
    let job = prepare(&d, Some(&session(1, 0))).unwrap();
    let (mut run, step) = Run::begin(job, 1_000);
    assert!(matches!(step, Step::Refresh(ref t) if t == "ref"));
    let step = run.step(Reply::Refreshed(Ok((session(1, 10_000_000), None))));
    assert!(matches!(step, Step::Upsert(ref t) if t.id == id), "a vanished task is skipped");
    assert_eq!(run.out.sent.len(), 1);
    assert!(matches!(run.step(Reply::Uploaded(Ok(()))), Step::Delete(5)));
    assert!(matches!(run.step(Reply::Uploaded(Err(Error::Status(404, "x".into())))), Step::FetchTasks));
    assert_eq!(run.out.sent.iter().map(|s: &Sent| s.uploaded).collect::<Vec<_>>(), vec![false, true, false]);
    assert!(matches!(run.step(Reply::Tasks(Ok(vec![]))), Step::FetchDirectory));
    assert!(matches!(run.step(Reply::Directory(Ok((vec![], vec![])))), Step::Done));
    assert!(run.out.error.is_none() && run.out.session.is_some());
}

#[test]
fn a_network_error_stops_the_queue_and_a_rejected_token_signs_out() {
    let mut d = Data::default();
    d.pending = vec![PendingOp::Delete(5), PendingOp::Delete(6)];
    let (mut run, step) = Run::begin(prepare(&d, Some(&session(1, i64::MAX))).unwrap(), 0);
    assert!(matches!(step, Step::Delete(5)));
    assert!(matches!(run.step(Reply::Uploaded(Err(Error::Network("down".into())))), Step::Done));
    assert!(run.out.sent.is_empty());

    let (mut run, _) = Run::begin(prepare(&d, Some(&session(1, 0))).unwrap(), 0);
    assert!(matches!(run.step(Reply::Refreshed(Err(Error::Status(400, "bad".into())))), Step::Done));
    assert!(run.out.relogin);
    let applied = apply_outcome(&mut d, Some(1), run.out, 0);
    assert_eq!(applied.turn, Turn::Skipped);
    assert_eq!(applied.signed_out, Some("Oturumun süresi doldu, tekrar giriş yap."));
}

#[test]
fn finished_turns_merge_and_set_the_status() {
    let mut d = Data::default();
    d.pending = vec![];
    let (mut run, step) = Run::begin(prepare(&d, Some(&session(1, i64::MAX))).unwrap(), 0);
    assert!(matches!(step, Step::FetchTasks));
    run.step(Reply::Tasks(Ok(vec![])));
    run.step(Reply::Directory(Err(Error::Network("down".into()))));
    let applied = apply_outcome(&mut d, Some(2), run.out, 50);
    assert_eq!((applied.turn, applied.status), (Turn::Skipped, None), "another account's turn is dropped");

    let (mut run, _) = Run::begin(prepare(&d, Some(&session(1, i64::MAX))).unwrap(), 0);
    run.step(Reply::Tasks(Ok(vec![])));
    run.step(Reply::Directory(Err(Error::Network("down".into()))));
    let applied = apply_outcome(&mut d, Some(1), run.out, 50);
    assert_eq!((applied.turn, applied.status), (Turn::Offline, Some(SyncStatus::Offline)));
    assert_eq!(d.last_sync, Some(50));
}

#[test]
fn avatars_download_when_new_changed_or_missing() {
    let p = Profile { id: 3, username: "a".into(), display_name: String::new(), avatar_url: Some("u1".into()) };
    let known = vec![(3, Some("u1".to_string()))];
    assert!(!avatar_needed(&known, &p, true));
    assert!(avatar_needed(&known, &p, false));
    assert!(avatar_needed(&vec![(3, Some("u0".to_string()))], &p, true));
    assert!(avatar_needed(&vec![], &p, true));
}

// ----- the sign-in page -----

#[test]
fn the_browser_gets_a_page_for_every_request() {
    let ok = callback_reply(&parse_callback("GET /callback?code=x HTTP/1.1"));
    assert!(ok.starts_with("HTTP/1.1 200 OK\r\n") && ok.contains("Giriş tamamlandı"));
    let body = ok.split("\r\n\r\n").nth(1).unwrap();
    assert!(ok.contains(&format!("Content-Length: {}\r\n", body.len())));
    let other = callback_reply(&parse_callback("GET /favicon.ico HTTP/1.1"));
    assert!(other.starts_with("HTTP/1.1 404 Not Found") && other.contains("Bulunamadı"));
    let failed = callback_reply(&parse_callback("GET /callback HTTP/1.1"));
    assert!(failed.contains("Giriş tamamlanamadı"));
}

#[test]
fn waiting_for_the_browser_stops_on_cancel_timeout_or_callback() {
    assert_eq!(wait_round(true, true, None, None), Waiting::Stop(Err(Error::Cancelled)));
    assert_eq!(
        wait_round(false, true, None, None),
        Waiting::Stop(Err(Error::Local("Giriş beş dakika içinde tamamlanmadı.".into())))
    );
    assert_eq!(wait_round(false, false, Some(None), None), Waiting::Wait);
    assert_eq!(wait_round(false, false, Some(Some(Ok("c".into()))), None), Waiting::Stop(Ok("c".into())));
    assert_eq!(
        wait_round(false, false, None, Some("reset")),
        Waiting::Stop(Err(Error::Local("Giriş dönüşü alınamadı: reset".into())))
    );
    assert!(port_error("in use").message().contains("53117 numaralı port"));
}

// ----- the shell -----

#[test]
fn navigation_and_the_form_page() {
    let mut nav = Nav { page: Page::List, editing: None, banner: None };
    nav.edit(7);
    assert_eq!((nav.page, nav.editing), (Page::Form, Some(7)));
    assert!(!is_active(nav.page, nav.editing, Page::Form), "editing is not a new task");
    nav.navigate(Page::Form);
    assert!(is_active(nav.page, nav.editing, Page::Form));
    assert_eq!(form_step(Page::Form, Some(7), Some(Some(7))), FormStep::Keep);
    assert_eq!(form_step(Page::Form, Some(8), Some(Some(7))), FormStep::Open(Some(8)));
    assert_eq!(form_step(Page::Form, None, None), FormStep::Open(None));
    assert_eq!(form_step(Page::List, None, Some(None)), FormStep::Drop);
    assert_eq!(nav_entries().len(), 8);
    assert_eq!(nav_entries()[6].1, "Yeni Görev");
}

#[test]
fn a_failed_save_shows_a_banner_until_a_save_works() {
    let mut nav = Nav { page: Page::List, editing: None, banner: None };
    nav.saved(Some("disk full"));
    assert_eq!(nav.banner.as_deref(), Some("Kaydedilemedi: disk full"));
    nav.saved(None);
    assert_eq!(nav.banner, None);
    nav.banner = Some("Yeni sürüm hazır".into());
    nav.saved(None);
    assert_eq!(nav.banner.as_deref(), Some("Yeni sürüm hazır"), "other banners stay");
    nav.dismiss_banner();
    assert_eq!(nav.banner, None);
}

#[test]
fn counts_in_the_sidebar_calendar_and_notifications() {
    assert_eq!(unread_badge(0), None);
    assert_eq!(unread_badge(4).as_deref(), Some("4"));
    assert_eq!(unread_badge(10).as_deref(), Some("9+"));
    assert_eq!(day_overflow(2), (2, None));
    assert_eq!(day_overflow(5), (3, Some("+2 daha".to_string())));
    assert_eq!(unread_line(3), "3 okunmamış");
    assert_eq!(unread_line(0), "Tüm bildirimler okundu");
}

#[test]
fn a_delete_is_recorded_as_not_uploaded() {
    let mut d = Data::default();
    d.pending = vec![PendingOp::Delete(5)];
    let (mut run, step) = Run::begin(prepare(&d, Some(&session(1, i64::MAX))).unwrap(), 0);
    assert!(matches!(step, Step::Delete(5)));
    assert!(matches!(run.step(Reply::Uploaded(Ok(()))), Step::FetchTasks));
    assert_eq!(run.out.sent.len(), 1);
    assert!(!run.out.sent[0].uploaded && run.out.sent[0].op == PendingOp::Delete(5));
}
