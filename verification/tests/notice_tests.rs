use chrono::{Local, NaiveDate, TimeZone};
use odak::clock::{
    at_local, local_day, local_day_time, reading_or_wall, split_wall_time, wall_clock, wall_time_at, weekday_from_monday,
};
use odak::data::{Data, TaskDraft};
use odak::model::{Group, NoticeKind, Priority, Profile, Status};
use odak::notices::{
    assignment_notice, comment_notice, for_notice, reminder_notice, startup_alert, user_name, BELL, INFO, REFRESH,
    USERS,
};
use odak::realtime::Comment;
use odak::text::{decimal, str_eq, str_lt};

const DAY: i64 = 86_400_000;

fn draft(title: &str, priority: Priority) -> TaskDraft {
    TaskDraft { title: title.into(), priority, ..Default::default() }
}

fn profile(id: u128, username: &str, display: &str) -> Profile {
    Profile { id, username: username.into(), display_name: display.into(), avatar_url: None }
}

fn days(y: i32, m: u32, d: u32) -> i32 {
    NaiveDate::from_ymd_opt(y, m, d).unwrap().to_epoch_days()
}

#[test]
fn numbers_and_names_compare_as_text() {
    assert_eq!(decimal(0), "0");
    assert_eq!(decimal(409), "409");
    assert_eq!(decimal(u64::MAX), u64::MAX.to_string());
    assert!(str_lt("ali", "bora") && !str_lt("bora", "ali") && !str_lt("ali", "ali"));
    assert!(str_lt("al", "ali"));
    assert!(str_eq("Ayşe", "Ayşe") && !str_eq("Ayşe", "Ayse"));
}

#[test]
fn days_and_times_split_on_the_calendar() {
    assert_eq!(weekday_from_monday(days(1970, 1, 1)), 3);
    assert_eq!(weekday_from_monday(days(2026, 9, 7)), 0);
    assert_eq!(weekday_from_monday(days(1969, 12, 28)), 6);
    assert_eq!(split_wall_time(DAY + 5), (1, 5));
    assert_eq!(split_wall_time(-1), (-1, DAY - 1));
    let noon = Local.with_ymd_and_hms(2026, 3, 10, 12, 30, 0).unwrap();
    let (day, time) = local_day_time(noon.timestamp_millis());
    assert_eq!((day, time), (days(2026, 3, 10), (12 * 60 + 30) * 60_000));
    assert_eq!(local_day(noon.timestamp_millis()), days(2026, 3, 10));
    assert_eq!(at_local(days(2026, 3, 10), (12 * 60 + 30) * 60_000), noon.timestamp_millis());
}

#[test]
fn notice_kinds_have_their_icons() {
    assert_eq!(for_notice(NoticeKind::Reminder), BELL);
    assert_eq!(for_notice(NoticeKind::Alert), INFO);
    assert_eq!(for_notice(NoticeKind::Update), REFRESH);
    assert_eq!(for_notice(NoticeKind::Shared), USERS);
}

#[test]
fn people_are_named_by_their_profiles() {
    let mut d = Data::default();
    d.profiles = vec![profile(2, "ayse", "Ayşe"), profile(3, "bora", ""), profile(4, "", "")];
    assert_eq!(user_name(&d, 2), "Ayşe");
    assert_eq!(user_name(&d, 3), "bora");
    assert_eq!(user_name(&d, 4), "Discord hesabı");
    assert_eq!(user_name(&d, 9), "Bilinmeyen üye");
}

#[test]
fn reminders_and_startup_alerts_read_naturally() {
    let mut d = Data::default();
    let id = d.add_task(draft("Rapor", Priority::High), 1).unwrap();
    d.add_task(draft("Süt al", Priority::Low), 1).unwrap();
    let done = d.add_task(draft("Eski", Priority::High), 1).unwrap();
    d.set_status(done, Status::Completed, 2).unwrap();
    d.add_task(draft("Sunum", Priority::High), 1).unwrap();
    let n = reminder_notice(d.task(id).unwrap(), 50);
    assert_eq!((n.kind, n.title.as_str(), n.body.as_str()), (NoticeKind::Reminder, "Rapor", "Yüksek öncelik"));
    assert_eq!((n.priority, n.task_id, n.at, n.read), (Some(Priority::High), Some(id), 50, false));
    let alert = startup_alert(&d.tasks, 60).unwrap();
    assert_eq!((alert.kind, alert.title.as_str(), alert.body.as_str()), (NoticeKind::Alert, "2 yüksek öncelikli görev", "Rapor, Sunum"));
    assert_eq!((alert.priority, alert.task_id), (Some(Priority::High), None));
    assert!(startup_alert(&d.tasks[1..2], 60).is_none());
}

#[test]
fn comments_notify_the_owner_and_assignee_only() {
    let mut d = Data { account: Some(profile(1, "ben", "")), last_account: Some(1), ..Default::default() };
    d.profiles = vec![profile(2, "ayse", "Ayşe")];
    let id = d.add_task(draft("Rapor", Priority::Low), 1).unwrap();
    assert!(comment_notice(&d, &Comment { id: 7, task_id: id, user_id: 2, body: "sahipsiz".into(), created_at: 5 }, 9).is_none());
    d.tasks[0].owner_id = Some(1);
    let long: String = "x".repeat(100);
    let comment = |user: u128, body: &str| Comment { id: 7, task_id: id, user_id: user, body: body.into(), created_at: 5 };
    let n = comment_notice(&d, &comment(2, "tamam"), 9).unwrap();
    assert_eq!((n.kind, n.title.as_str(), n.body.as_str()), (NoticeKind::Shared, "Ayşe yorum yaptı", "Rapor: tamam"));
    assert_eq!((n.task_id, n.at), (Some(id), 9));
    let cut = comment_notice(&d, &comment(2, &long), 9).unwrap();
    assert_eq!(cut.body, format!("Rapor: {}", "x".repeat(80)));
    assert!(comment_notice(&d, &comment(1, "kendi yorumum"), 9).is_none());
    assert!(comment_notice(&d, &Comment { task_id: 999, ..comment(2, "yok") }, 9).is_none());
    d.tasks[0].owner_id = Some(3);
    assert!(comment_notice(&d, &comment(2, "başkasının"), 9).is_none());
    d.tasks[0].assignee_id = Some(1);
    assert!(comment_notice(&d, &comment(2, "atandım"), 9).is_some());
}

#[test]
fn assignments_name_the_group() {
    let mut d = Data::default();
    d.groups = vec![Group { id: 5, name: "Ekip".into(), owner_id: 2, members: vec![1, 2] }];
    let id = d.add_task(draft("Sunum", Priority::Medium), 1).unwrap();
    let n = assignment_notice(&d, id, 3).unwrap();
    assert_eq!((n.title.as_str(), n.body.as_str()), ("Sana bir görev atandı", "Grup · Sunum"));
    assert_eq!((n.priority, n.task_id), (Some(Priority::Medium), Some(id)));
    d.tasks[0].group_id = Some(5);
    assert_eq!(assignment_notice(&d, id, 3).unwrap().body, "Ekip · Sunum");
    d.tasks[0].group_id = Some(6);
    assert_eq!(assignment_notice(&d, id, 3).unwrap().body, "Grup · Sunum");
    assert!(assignment_notice(&d, 77, 3).is_none());
}

#[test]
fn wall_time_adds_the_zone_offset() {
    assert_eq!(wall_time_at(0, 3600), (0, 3_600_000));
    assert_eq!(wall_time_at(0, -3600), (-1, DAY - 3_600_000));
    assert_eq!(wall_time_at(DAY - 1, 1), (1, 999));
    let noon = Local.with_ymd_and_hms(2026, 7, 1, 12, 0, 0).unwrap();
    let offset = noon.offset().local_minus_utc();
    assert_eq!(wall_time_at(noon.timestamp_millis(), offset), local_day_time(noon.timestamp_millis()));
    assert_eq!(wall_clock(2, 5), 2 * DAY + 5);
    assert_eq!(reading_or_wall(Some(5), 9), 5);
    assert_eq!(reading_or_wall(None, 9), 9);
}
