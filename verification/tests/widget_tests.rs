use chrono::{Local, NaiveDate, TimeZone, Utc};
use odak::account::{
    account_handle, account_row, adopted_account, avatar_download, choice_question, refresh_failed, restore_step,
    sign_in_failed, sign_out_question, AccountRow, Restore,
};
use odak::data::Data;
use odak::edit::{EditBuffer, EnterKey};
use odak::instance::object_name;
use odak::model::{Group, PendingOp, Profile, Task};
use odak::motion::Seen;
use odak::picker::{first_reading, Picker};
use odak::supabase::Error;
use odak::sync::SyncStatus;
use odak::widgets::{sharing_of, sync_label, user_initial, AuthKind};

fn profile(id: u128, username: &str, display: &str) -> Profile {
    Profile { id, username: username.into(), display_name: display.into(), avatar_url: None }
}

fn day(y: i32, m: u32, d: u32) -> i32 {
    NaiveDate::from_ymd_opt(y, m, d).unwrap().to_epoch_days()
}

fn local_ms(y: i32, m: u32, d: u32, h: u32, min: u32) -> i64 {
    let naive = NaiveDate::from_ymd_opt(y, m, d).unwrap().and_hms_opt(h, min, 0).unwrap();
    Local.from_local_datetime(&naive).earliest().unwrap().timestamp_millis()
}

// ----- picker -----

#[test]
fn picking_a_day_without_time_ends_that_day() {
    let mut p = Picker::new(None, false, day(2026, 9, 23));
    assert_eq!(p.month, day(2026, 9, 1));
    p.open = true;
    p.pick(day(2026, 10, 2));
    assert_eq!(p.value, Some(local_ms(2026, 10, 2, 23, 59)));
    assert!(!p.open);
}

#[test]
fn picking_a_day_with_time_starts_at_nine_or_keeps_the_time() {
    let mut p = Picker::new(None, true, day(2026, 9, 23));
    p.open = true;
    p.pick(day(2026, 9, 24));
    assert_eq!(p.value, Some(local_ms(2026, 9, 24, 9, 0)));
    assert!(p.open);
    p.shift(65);
    p.pick(day(2026, 9, 30));
    assert_eq!(p.value, Some(local_ms(2026, 9, 30, 10, 5)));
    assert_eq!(p.time_text().as_deref(), Some("10:05"));
    p.shift(-5);
    assert_eq!(p.value, Some(local_ms(2026, 9, 30, 10, 0)));
    p.clear();
    assert_eq!((p.value, p.open), (None, false));
    assert_eq!(p.label("Son tarih yok"), "Son tarih yok");
}

#[test]
fn picker_months_turn_across_years() {
    let mut p = Picker::new(Some(local_ms(2026, 12, 15, 12, 0)), false, day(2020, 1, 1));
    assert_eq!(p.month, day(2026, 12, 1));
    p.turn_month(1);
    assert_eq!(p.month, day(2027, 1, 1));
    p.turn_month(-13);
    assert_eq!(p.month, day(2025, 12, 1));
    assert_eq!(p.selected_day(), Some(day(2026, 12, 15)));
    assert_eq!(p.label("x"), "15 Aralık 2026");
}

// ----- widgets -----

fn signed_in_data() -> Data {
    let mut d = Data::default();
    d.account = Some(profile(1, "me", ""));
    d.last_account = Some(1);
    d
}

#[test]
fn sync_line_follows_the_state() {
    let now = Utc.with_ymd_and_hms(2026, 9, 23, 12, 0, 0).unwrap().timestamp_millis();
    let none = Data::default();
    assert_eq!(sync_label(&none, AuthKind::SignedIn, &SyncStatus::Idle, now), None);
    let mut d = signed_in_data();
    assert_eq!(sync_label(&d, AuthKind::Waiting, &SyncStatus::Idle, now), None);
    assert_eq!(sync_label(&d, AuthKind::SignedOut, &SyncStatus::Idle, now).unwrap().1, "Tekrar giriş gerekli");
    assert_eq!(sync_label(&d, AuthKind::SignedIn, &SyncStatus::Syncing, now).unwrap().1, "Senkronize ediliyor...");
    assert_eq!(sync_label(&d, AuthKind::SignedIn, &SyncStatus::Idle, now).unwrap().1, "Henüz senkronize edilmedi");
    d.last_sync = Some(now - 10_000);
    assert_eq!(sync_label(&d, AuthKind::SignedIn, &SyncStatus::Idle, now).unwrap().1, "Senkronize · az önce");
    d.last_sync = Some(now - 300_000);
    assert_eq!(sync_label(&d, AuthKind::SignedIn, &SyncStatus::Idle, now).unwrap().1, "Senkronize · 5 dk önce");
    d.pending = vec![PendingOp::Upsert(3), PendingOp::Delete(4)];
    assert_eq!(sync_label(&d, AuthKind::SignedIn, &SyncStatus::Idle, now).unwrap().1, "2 değişiklik bekliyor");
    assert_eq!(
        sync_label(&d, AuthKind::SignedIn, &SyncStatus::Offline, now).unwrap().1,
        "Çevrimdışı · 2 değişiklik bekliyor"
    );
    assert_eq!(
        sync_label(&d, AuthKind::SignedIn, &SyncStatus::Failed("Sunucu hatası".into()), now).unwrap().1,
        "Sunucu hatası"
    );
    d.last_account = Some(9);
    assert_eq!(
        sync_label(&d, AuthKind::SignedIn, &SyncStatus::Idle, now).unwrap().1,
        "Senkron bekliyor: Ayarlar'a bak"
    );
}

#[test]
fn avatar_letters() {
    assert_eq!(user_initial("ayşe"), "A");
    assert_eq!(user_initial("ßen"), "SS");
    assert_eq!(user_initial(""), "?");
}

#[test]
fn cards_show_group_and_assignee() {
    let mut d = Data::default();
    d.groups = vec![Group { id: 5, name: "Ekip".into(), owner_id: 1, members: vec![1] }];
    let id = d.add_task(odak::data::TaskDraft { title: "a".into(), ..Default::default() }, 1).unwrap();
    let t: &Task = d.task(id).unwrap();
    assert_eq!(sharing_of(&d, t), (None, None));
    let mut shared = t.clone();
    shared.group_id = Some(5);
    shared.assignee_id = Some(2);
    assert_eq!(sharing_of(&d, &shared), (Some("Ekip".to_string()), Some(2)));
    shared.group_id = Some(6);
    assert_eq!(sharing_of(&d, &shared), (None, Some(2)));
}

// ----- account -----

#[test]
fn sign_in_keeps_the_best_profile_it_has() {
    let known = Some(profile(1, "me", "Ben"));
    assert_eq!(adopted_account(1, Some(profile(1, "new", "")), &known).username, "new");
    assert_eq!(adopted_account(1, None, &known).display_name, "Ben");
    let blank = adopted_account(2, None, &known);
    assert_eq!((blank.id, blank.username.as_str()), (2, ""));
}

#[test]
fn startup_session_steps() {
    assert_eq!(restore_step(false, true, true), Restore::Nothing);
    assert_eq!(restore_step(true, false, true), Restore::ForgetToken);
    assert_eq!(restore_step(true, true, false), Restore::Nothing);
    assert_eq!(restore_step(true, true, true), Restore::Resume);
    assert_eq!(refresh_failed(&Error::Status(401, "x".into())), Some("Oturumun süresi doldu, tekrar giriş yap."));
    assert_eq!(refresh_failed(&Error::Network("x".into())), None);
    assert_eq!(sign_in_failed(&Error::Cancelled, true), None);
    assert_eq!(sign_in_failed(&Error::Network("bağlantı yok".into()), false), None);
    assert_eq!(sign_in_failed(&Error::Local("hata".into()), true), Some("hata".to_string()));
}

#[test]
fn avatars_download_as_small_pngs() {
    assert_eq!(avatar_download(&Some("https://cdn/a.gif".into())).as_deref(), Some("https://cdn/a.png?size=128"));
    assert_eq!(avatar_download(&Some("https://cdn/a.png".into())).as_deref(), Some("https://cdn/a.png?size=128"));
    assert_eq!(avatar_download(&Some(String::new())), None);
    assert_eq!(avatar_download(&None), None);
}

#[test]
fn account_section_texts() {
    assert_eq!(account_row(false, AuthKind::SignedIn, true), AccountRow::Disabled);
    assert_eq!(account_row(true, AuthKind::Waiting, true), AccountRow::Waiting);
    assert_eq!(account_row(true, AuthKind::SignedIn, true), AccountRow::SignedIn);
    assert_eq!(account_row(true, AuthKind::SignedOut, true), AccountRow::Expired);
    assert_eq!(account_row(true, AuthKind::SignedOut, false), AccountRow::SignIn);
    assert_eq!(account_handle("ayse"), "@ayse · Discord");
    assert!(choice_question(3).starts_with("Bu cihazda başka bir hesaba ait 3 görev var."));
    assert_eq!(sign_out_question(0), "Tüm değişiklikler gönderildi. Çıkılsın mı?");
    assert!(sign_out_question(2).starts_with("2 değişiklik henüz gönderilmedi"));
}

// ----- motion -----

#[test]
fn items_fade_in_once_and_follow_each_other() {
    let mut seen = Seen::new();
    assert_eq!(seen.entering_at(1, 0), Some(0));
    assert_eq!(seen.entering_at(2, 10), Some(28));
    assert_eq!(seen.entering_at(1, 100), Some(0));
    assert_eq!(seen.entering_at(1, 200), None);
    assert_eq!(seen.entering_at(2, 215), Some(28));
    assert_eq!(seen.entering_at(2, 220), None);
    assert_eq!(seen.entering_at(3, 300), Some(0), "a pause starts a new batch");
    for k in 4..12 {
        seen.entering_at(k, 301);
    }
    assert_eq!(seen.entering_at(12, 302), Some(8 * 28), "the stagger stops growing");
    let _ = seen.entering(13);
}

// ----- single instance -----

#[test]
fn kernel_object_names_are_null_terminated_utf16() {
    let name = object_name("seindtask", "show");
    let expected: Vec<u16> = "Local\\seindtask-show".encode_utf16().chain([0]).collect();
    assert_eq!(name, expected);
    let wide = object_name("ğ", "😀");
    let expected: Vec<u16> = "Local\\ğ-😀".encode_utf16().chain([0]).collect();
    assert_eq!(wide, expected);
}

// ----- text editing -----

fn buffer(text: &str, multiline: bool) -> EditBuffer {
    let mut b = EditBuffer::new(multiline);
    b.set_text(text);
    b
}

#[test]
fn single_line_boxes_turn_line_breaks_into_spaces() {
    let mut b = buffer("a\nb", false);
    assert_eq!(b.text(), "a b");
    assert_eq!(b.selected, (3, 3));
    b.insert("x\ny");
    assert_eq!(b.text(), "a bx y");
    assert_eq!(b.enter(), EnterKey::Submit);
    let mut m = buffer("a", true);
    assert_eq!(m.enter(), EnterKey::NewLine);
    assert_eq!(m.text(), "a\n");
}

#[test]
fn arrows_move_over_whole_clusters() {
    let mut b = buffer("ae\u{301}z", false);
    assert_eq!(b.selected, (5, 5));
    b.left();
    assert_eq!(b.selected, (4, 4));
    b.left();
    assert_eq!(b.selected, (1, 1), "e and its accent are one cluster");
    b.right();
    assert_eq!(b.selected, (4, 4));
    assert!(b.backspace());
    assert_eq!(b.text(), "az");
    b.home();
    assert!(!b.backspace(), "nothing before the start");
    assert!(b.delete());
    assert_eq!(b.text(), "z");
    b.end();
    assert!(!b.delete(), "nothing after the end");
}

#[test]
fn selections_extend_and_flip() {
    let mut b = buffer("abc", false);
    b.select_left();
    b.select_left();
    assert_eq!((b.selected, b.reversed), ((1, 3), true));
    b.select_right();
    assert_eq!((b.selected, b.reversed), ((2, 3), true));
    assert_eq!(b.selected_text().as_deref(), Some("c"));
    b.select_all();
    assert_eq!(b.selected, (0, 3));
    assert_eq!(b.cut().as_deref(), Some("abc"));
    assert_eq!(b.text(), "");
    assert_eq!(b.selected_text(), None);
}

#[test]
fn home_and_end_stay_on_the_line() {
    let mut b = buffer("ab\ncd\nef", true);
    b.move_to(4);
    b.home();
    assert_eq!(b.selected, (3, 3));
    b.end();
    assert_eq!(b.selected, (5, 5));
    b.paste("x\r\ny");
    assert_eq!(b.text(), "ab\ncdx\ny\nef");
}

#[test]
fn input_method_offsets_are_utf16() {
    let mut b = buffer("a😀b", false);
    assert_eq!(b.text().len(), 6);
    assert_eq!(b.utf16_offset(5), 3);
    assert_eq!(b.byte_offset(3), 5);
    assert_eq!(b.text_for_range((1, 3)), ("😀".to_string(), (1, 3)));
    assert_eq!(b.selected_text_range(), ((4, 4), false));
    b.replace_and_mark_text_in_range(None, "ş", None);
    assert_eq!(b.text(), "a😀bş");
    assert_eq!(b.marked, Some((6, 8)));
    assert_eq!(b.marked_text_range(), Some((4, 5)));
    assert_eq!(b.runs(0), vec![(6, false), (2, true)]);
    b.replace_text_in_range(None, "ğ");
    assert_eq!(b.text(), "a😀bğ");
    assert_eq!(b.marked, None);
    b.replace_text_in_range(Some((0, 1)), "x");
    assert_eq!(b.text(), "x😀bğ");
    assert!(b.is_boundary(5) && !b.is_boundary(2));
    b.unmark_text();
    assert_eq!(buffer("", false).runs(7), vec![(7, false)]);
    assert!(b.marked_selection_fits(None, "q", Some((1, 1))));
}

#[test]
fn a_skipped_time_takes_the_reading_an_hour_later() {
    assert_eq!(first_reading(Some(5), Some(9)), Some(5));
    assert_eq!(first_reading(Some(5), None), Some(5));
    assert_eq!(first_reading(None, Some(9)), Some(9));
    assert_eq!(first_reading(None, None), None);
}
