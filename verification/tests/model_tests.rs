use odak::model::{Priority, Repeat, Settings, Status, Theme};

#[test]
fn status_next_cycles() {
    assert_eq!(Status::Pending.next(), Status::InProgress);
    assert_eq!(Status::InProgress.next(), Status::Completed);
    assert_eq!(Status::Completed.next(), Status::Pending);
}

#[test]
fn settings_default_to_dark_theme() {
    let s = Settings::default();
    assert_eq!(s.theme, Theme::Dark);
    assert!(!s.auto_launch && !s.start_minimized);
}

#[test]
fn labels_are_turkish() {
    assert_eq!(Priority::High.label(), "Yüksek");
    assert_eq!(Priority::Medium.label(), "Orta");
    assert_eq!(Priority::Low.label(), "Düşük");
    assert_eq!(Status::Pending.label(), "Beklemede");
    assert_eq!(Status::InProgress.label(), "Devam Ediyor");
    assert_eq!(Status::Completed.label(), "Tamamlandı");
    assert_eq!(Repeat::Once.label(), "Bir kez");
    assert_eq!(Repeat::Daily.label(), "Günlük");
    assert_eq!(Repeat::Weekly.label(), "Haftalık");
}

#[test]
fn codes_read_back() {
    assert_eq!(Status::from_code("in_progress"), Some(Status::InProgress));
    assert_eq!(Status::from_code("pending"), Some(Status::Pending));
    assert_eq!(Status::from_code("done"), None);
    assert_eq!(Priority::from_code("high"), Some(Priority::High));
    assert_eq!(Priority::from_code("HIGH"), None);
}

#[test]
fn three_steps_of_next_come_back() {
    for s in [Status::Pending, Status::InProgress, Status::Completed] {
        assert_eq!(s.next().next().next(), s);
        assert_ne!(s.next(), s);
    }
}
