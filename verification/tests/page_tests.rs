use odak::data::{clean_title, Data, DataError, TaskDraft};
use odak::form::{
    page_text,
    assignee_options, can_move_group, from_draft, group_options, remove_subtask, save, set_group, sharing_shown,
    starting_draft, take_subtask, take_tags, toggle_subtask,
};
use odak::groups::{
    add_group, add_member, confirmed, end_action, group_summary, keep_selection, member_added, member_input,
    ordered_members, remove_group, remove_member, unknown_user, Confirm,
};
use odak::list::{
    empty_message, list_title, position, scope_options, select_by, selection_after_delete, subtask_progress,
    tag_chip, toggle_tag, visible_selection,
};
use odak::model::{Group, Priority, Profile, Repeat, SubTask};
use odak::palette::{command, empty_text, entries, parse_query, select_down, select_up, Entry, COMMAND_COUNT};
use odak::supabase::Error;
use odak::sync::Page;
use odak::views::Scope;

fn profile(id: u128, username: &str, display: &str) -> Profile {
    Profile { id, username: username.into(), display_name: display.into(), avatar_url: None }
}

fn group(id: u128, name: &str, owner: u128, members: &[u128]) -> Group {
    Group { id, name: name.into(), owner_id: owner, members: members.to_vec() }
}

fn draft(title: &str) -> TaskDraft {
    TaskDraft { title: title.into(), ..Default::default() }
}

// ----- data -----

#[test]
fn clean_title_trims_and_refuses_blank() {
    assert_eq!(clean_title("  Rapor  "), Ok("Rapor".to_string()));
    assert_eq!(clean_title(" \t "), Err(DataError::EmptyTitle));
}

#[test]
fn set_priority_touches_updated_at_only_on_change() {
    let mut d = Data::default();
    let id = d.add_task(draft("a"), 1_000).unwrap();
    d.set_priority(id, Priority::Low, 2_000).unwrap();
    assert_eq!(d.task(id).unwrap().updated_at, 1_000);
    d.set_priority(id, Priority::High, 3_000).unwrap();
    assert_eq!((d.task(id).unwrap().priority, d.task(id).unwrap().updated_at), (Priority::High, 3_000));
    assert_eq!(d.set_priority(7, Priority::High, 4_000), Err(DataError::NotFound));
}

// ----- list -----

#[test]
fn selection_moves_and_stops_at_the_ends() {
    let ids = vec![10, 20, 30];
    assert_eq!(select_by(&ids, None, 1), Some(0));
    assert_eq!(select_by(&ids, None, -1), Some(2));
    assert_eq!(select_by(&ids, Some(20), 1), Some(2));
    assert_eq!(select_by(&ids, Some(30), 1), Some(2));
    assert_eq!(select_by(&ids, Some(10), -1), Some(0));
    assert_eq!(select_by(&ids, Some(99), -1), Some(2));
    assert_eq!(select_by(&vec![], Some(10), 1), None);
    assert_eq!(position(&ids, 30), Some(2));
    assert_eq!(position(&ids, 31), None);
}

#[test]
fn hidden_selection_is_no_selection() {
    let ids = vec![1, 2];
    assert_eq!(visible_selection(Some(2), &ids), Some(2));
    assert_eq!(visible_selection(Some(3), &ids), None);
    assert_eq!(visible_selection(None, &ids), None);
}

#[test]
fn after_a_delete_the_next_task_is_selected() {
    assert_eq!(selection_after_delete(&vec![1, 2, 3], 2, &vec![1, 3]), Some(3));
    assert_eq!(selection_after_delete(&vec![1, 2, 3], 3, &vec![1, 2]), Some(2));
    assert_eq!(selection_after_delete(&vec![1], 1, &vec![]), None);
}

#[test]
fn scope_pills_appear_with_groups() {
    assert!(scope_options(&vec![]).is_empty());
    let pills = scope_options(&vec![group(5, "Ekip", 1, &[1])]);
    assert_eq!(pills.len(), 3);
    assert_eq!(pills[0], (Scope::All, "Tümü".to_string()));
    assert_eq!(pills[1], (Scope::Personal, "Kişisel".to_string()));
    assert_eq!(pills[2], (Scope::Group(5), "Ekip".to_string()));
}

#[test]
fn tag_chip_toggles_the_tag_filter() {
    assert_eq!(toggle_tag(&None, "iş".into()), Some("iş".to_string()));
    assert_eq!(toggle_tag(&Some("iş".into()), "iş".into()), None);
    assert_eq!(toggle_tag(&Some("ev".into()), "iş".into()), Some("iş".to_string()));
    assert_eq!(tag_chip("iş"), "#iş");
}

#[test]
fn list_texts() {
    assert_eq!(list_title(12), "Görevler (12)");
    assert_eq!(empty_message(0), "Henüz görev yok. Ctrl+N ile yeni görev ekle.");
    assert_eq!(empty_message(3), "Filtreye uyan görev yok.");
    let subtasks = vec![
        SubTask { id: 1, title: "a".into(), completed: true },
        SubTask { id: 2, title: "b".into(), completed: false },
        SubTask { id: 3, title: "c".into(), completed: true },
    ];
    assert_eq!(subtask_progress(&subtasks), "2/3");
    assert_eq!(subtask_progress(&vec![]), "0/0");
}

// ----- groups -----

#[test]
fn member_names_lose_spaces_and_at_signs() {
    assert_eq!(member_input("  @@ayse "), "ayse");
    assert_eq!(member_input("ay@se"), "ay@se");
}

#[test]
fn destructive_actions_need_two_clicks() {
    let mut armed = None;
    assert!(!confirmed(&mut armed, Confirm::Remove(7)));
    assert_eq!(armed, Some(Confirm::Remove(7)));
    assert!(!confirmed(&mut armed, Confirm::Leave(1)));
    assert!(confirmed(&mut armed, Confirm::Leave(1)));
}

#[test]
fn owners_delete_and_members_leave() {
    let g = group(5, "Ekip", 1, &[1, 2]);
    assert_eq!(end_action(&g, Some(1)), ("Grubu sil", Confirm::DeleteGroup(5)));
    assert_eq!(end_action(&g, Some(2)), ("Gruptan ayrıl", Confirm::Leave(5)));
    assert_eq!(group_summary(&g, Some(1)), "2 üye · Sahip");
    assert_eq!(group_summary(&g, None), "2 üye · Üye");
}

#[test]
fn selection_falls_back_to_the_first_group() {
    let groups = vec![group(5, "a", 1, &[1]), group(6, "b", 1, &[1])];
    assert_eq!(keep_selection(Some(6), &groups), Some(6));
    assert_eq!(keep_selection(Some(9), &groups), Some(5));
    assert_eq!(keep_selection(None, &vec![]), None);
}

#[test]
fn server_changes_update_the_local_groups() {
    let mut d = Data::default();
    d.account = Some(profile(1, "me", ""));
    add_group(&mut d, group(5, "Ekip", 1, &[1]));
    add_member(&mut d, 5, profile(2, "ayse", "Ayşe"));
    assert_eq!(d.groups[0].members, vec![1, 2]);
    assert_eq!(d.profiles.len(), 1);
    add_member(&mut d, 5, profile(2, "ayse", "Ayşe"));
    assert_eq!(d.profiles.len(), 1, "a known profile is not added twice");
    remove_member(&mut d, 5, 2);
    assert_eq!(d.groups[0].members, vec![1]);
    remove_member(&mut d, 5, 1);
    assert!(d.groups.is_empty(), "leaving removes the group");
    add_group(&mut d, group(6, "b", 3, &[3, 1]));
    remove_group(&mut d, 6);
    assert!(d.groups.is_empty());
}

#[test]
fn members_are_listed_owner_first_then_by_name() {
    let mut d = Data::default();
    d.profiles = vec![profile(2, "zeynep", "Zeynep"), profile(3, "ali", "ali"), profile(4, "bora", "Bora")];
    let g = group(5, "Ekip", 4, &[2, 3, 4]);
    assert_eq!(ordered_members(&d, &g), vec![4, 3, 2]);
}

#[test]
fn add_member_errors_read_naturally() {
    assert_eq!(
        unknown_user("ayse").message(),
        "\"ayse\" adıyla Odak'a giriş yapmış bir Discord kullanıcısı yok."
    );
    let p = profile(2, "ayse", "Ayşe");
    let conflict = member_added(Err(Error::Status(409, "dup".into())), p.clone());
    assert_eq!(conflict.unwrap_err().message(), "Ayşe zaten bu grupta.");
    assert_eq!(member_added(Ok(()), p.clone()).unwrap().id, 2);
    assert!(matches!(member_added(Err(Error::Network("x".into())), p), Err(Error::Network(_))));
}

// ----- palette -----

#[test]
fn palette_reads_command_mode_and_trims() {
    assert_eq!(parse_query(">  ayar "), (true, "ayar".to_string()));
    assert_eq!(parse_query("  rapor "), (false, "rapor".to_string()));
    assert_eq!(parse_query(""), (false, String::new()));
}

#[test]
fn palette_lists_commands_or_tasks() {
    let mut d = Data::default();
    d.add_task(draft("Rapor yaz"), 1).unwrap();
    d.add_task(draft("Süt al"), 1).unwrap();
    assert_eq!(entries(&d.tasks, "").len(), COMMAND_COUNT);
    assert_eq!(entries(&d.tasks, ">AYAR"), vec![Entry::Command(6)]);
    assert_eq!(entries(&d.tasks, ">gör"), vec![Entry::Command(0), Entry::Command(2)]);
    assert_eq!(entries(&d.tasks, "rapor"), vec![Entry::Task(d.tasks[0].id)]);
    assert!(entries(&d.tasks, "yok").is_empty());
    assert_eq!(command(6), ("Ayarlar", Page::Settings));
    assert_eq!(empty_text(true, "x"), "Komut bulunamadı");
    assert_eq!(empty_text(false, "x"), "Sonuç bulunamadı");
}

#[test]
fn palette_selection_stays_in_the_list() {
    assert_eq!(select_up(0), 0);
    assert_eq!(select_up(3), 2);
    assert_eq!(select_down(1, 3), 2);
    assert_eq!(select_down(2, 3), 2);
    assert_eq!(select_down(0, 0), 0);
}

// ----- form -----

#[test]
fn typed_tags_are_split_trimmed_and_kept_once() {
    let mut tags = vec!["iş".to_string()];
    take_tags(&mut tags, " ev, iş ,, acil ,ev");
    assert_eq!(tags, vec!["iş", "ev", "acil"]);
    take_tags(&mut tags, "");
    assert_eq!(tags.len(), 3);
}

#[test]
fn typed_subtasks_join_unless_blank() {
    let mut subtasks = Vec::new();
    assert!(!take_subtask(&mut subtasks, "   "));
    assert!(take_subtask(&mut subtasks, "  Kes  "));
    assert_eq!((subtasks[0].title.as_str(), subtasks[0].completed), ("Kes", false));
    toggle_subtask(&mut subtasks, 0);
    assert!(subtasks[0].completed);
    toggle_subtask(&mut subtasks, 5);
    remove_subtask(&mut subtasks, 5);
    assert_eq!(subtasks.len(), 1);
    remove_subtask(&mut subtasks, 0);
    assert!(subtasks.is_empty());
}

#[test]
fn form_saves_new_and_edited_tasks() {
    let mut d = Data::default();
    let mut form = from_draft(None, starting_draft(&d, None));
    assert_eq!((form.priority, form.repeat), (Priority::Low, Repeat::Once));
    assert_eq!(
        save(&mut form, &mut d, "  ", "", "", "", None, None, 5),
        Err(DataError::EmptyTitle)
    );
    assert_eq!(form.error.as_deref(), Some("Başlık boş olamaz"));
    assert!(d.tasks.is_empty());
    form.priority = Priority::High;
    save(&mut form, &mut d, "Rapor", "ayrıntı \n ", "iş, ev", "taslak", None, Some(9), 5).unwrap();
    let t = &d.tasks[0];
    assert_eq!((t.title.as_str(), t.description.as_str(), t.priority), ("Rapor", "ayrıntı", Priority::High));
    assert_eq!(t.tags, vec!["iş", "ev"]);
    assert_eq!(t.subtasks[0].title, "taslak");
    assert_eq!(t.reminder.unwrap().next_trigger, 9);

    let id = t.id;
    let mut edit = from_draft(Some(id), starting_draft(&d, Some(id)));
    assert_eq!(edit.tags, vec!["iş", "ev"]);
    save(&mut edit, &mut d, "Rapor 2", "", "", "", None, None, 6).unwrap();
    assert_eq!((d.tasks[0].title.as_str(), d.tasks[0].updated_at), ("Rapor 2", 6));

    let mut gone = from_draft(Some(999), TaskDraft::default());
    assert_eq!(save(&mut gone, &mut d, "x", "", "", "", None, None, 7), Err(DataError::NotFound));
    assert_eq!(gone.error.as_deref(), Some("Görev bulunamadı"));
}

#[test]
fn changing_the_group_keeps_only_a_member_as_assignee() {
    let mut d = Data::default();
    d.groups = vec![group(5, "Ekip", 1, &[1, 2]), group(6, "Diğer", 3, &[3])];
    let mut form = from_draft(None, TaskDraft { group_id: Some(5), assignee_id: Some(2), ..Default::default() });
    set_group(&mut form, &d, Some(5));
    assert_eq!(form.assignee, Some(2));
    set_group(&mut form, &d, Some(6));
    assert_eq!((form.group, form.assignee), (Some(6), None));
    assert_eq!(assignee_options(&d, Some(5)), Some(vec![None, Some(1), Some(2)]));
    assert_eq!(assignee_options(&d, None), None);
    let options = group_options(&d.groups);
    assert_eq!(options[0], (None, "Kişisel".to_string()));
    assert_eq!(options[2], (Some(6), "Diğer".to_string()));
}

#[test]
fn only_the_owner_moves_a_task_between_groups() {
    let mut d = Data::default();
    d.account = Some(profile(1, "me", ""));
    let id = d.add_task(draft("a"), 1).unwrap();
    assert!(can_move_group(&d, Some(id)));
    d.tasks[0].owner_id = Some(2);
    assert!(!can_move_group(&d, Some(id)));
    d.tasks[0].owner_id = Some(1);
    assert!(can_move_group(&d, Some(id)));
    assert!(can_move_group(&d, None));
    assert!(!sharing_shown(&d, None));
    assert!(sharing_shown(&d, Some(5)));
}

#[test]
fn the_form_names_its_page_and_preview() {
    let new = page_text(false, false, "x");
    assert_eq!((new.title, new.show_status, new.preview_toggle, new.empty_preview), ("Yeni Görev", false, "Önizle", None));
    let edit = page_text(true, true, "  \n ");
    assert_eq!(
        (edit.title, edit.show_status, edit.preview_toggle, edit.empty_preview),
        ("Görevi Düzenle", true, "Düzenle", Some("Önizlenecek içerik yok"))
    );
    assert_eq!(page_text(true, true, "**a**").empty_preview, None);
}
