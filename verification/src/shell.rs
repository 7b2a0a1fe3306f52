//! The main window's navigation: which page shows (and which task the form edits), the
//! sidebar's entries and badges, the banner a failed save leaves, and the small counts the
//! calendar and notification pages show.

use vstd::prelude::*;
use crate::model::Id;
use crate::sync::Page;
use crate::text::{decimal, spec_decimal};

verus! {

/// The banner text that starts every failed save's message.
pub const SAVE_ERROR: &'static str = "Kaydedilemedi: ";

/// Tasks a calendar day lists before "+n daha".
pub const MAX_PER_DAY: usize = 3;

/// Where the main window is.
pub struct Nav {
    pub page: Page,
    /// The task the form edits; `None` for a new task.
    pub editing: Option<Id>,
    pub banner: Option<String>,
}

impl Nav {
    /// Opens `page` (the form for a new task).
    pub fn navigate(&mut self, page: Page)
        ensures
            final(self).page == page,
            final(self).editing is None,
            final(self).banner == old(self).banner,
    {
        self.page = page;
        self.editing = None;
    }

    /// Opens the form on the task `id`.
    pub fn edit(&mut self, id: Id)
        ensures
            final(self).page == Page::Form,
            final(self).editing == Some(id),
            final(self).banner == old(self).banner,
    {
        self.page = Page::Form;
        self.editing = Some(id);
    }

    pub fn dismiss_banner(&mut self)
        ensures
            final(self).banner is None,
            final(self).page == old(self).page,
            final(self).editing == old(self).editing,
    {
        self.banner = None;
    }

    /// After saving data.json: a failure shows its error in the banner; a success takes away
    /// the banner of an earlier failure (another banner stays).
    pub fn saved(&mut self, error: Option<&str>)
        ensures
            error matches Some(e) ==> (final(self).banner matches Some(b) && b@ == SAVE_ERROR@ + e@),
            error is None ==> final(self).banner == (match old(self).banner {
                Some(b) => if b@.len() >= SAVE_ERROR@.len() && b@.subrange(0, SAVE_ERROR@.len() as int)
                    == SAVE_ERROR@ {
                    None
                } else {
                    old(self).banner
                },
                None => None,
            }),
            final(self).page == old(self).page,
            final(self).editing == old(self).editing,
    {
        match error {
            Some(e) => {
                let mut b = SAVE_ERROR.to_string();
                b.append(e);
                self.banner = Some(b);
            },
            None => {
                let clear = match &self.banner {
                    Some(b) => starts_with_save_error(b.as_str()),
                    None => false,
                };
                if clear {
                    self.banner = None;
                }
            },
        }
    }
}

fn starts_with_save_error(s: &str) -> (r: bool)
    ensures
        r == (s@.len() >= SAVE_ERROR@.len() && s@.subrange(0, SAVE_ERROR@.len() as int) == SAVE_ERROR@),
{
    let n = SAVE_ERROR.unicode_len();
    let m = s.unicode_len();
    if m < n {
        return false;
    }
    let head = s.substring_char(0, n);
    crate::text::str_eq(head, SAVE_ERROR)
}

/// The sidebar's entries: page, label and shortcut.
pub open spec fn nav_entry(i: int) -> (Page, Seq<char>, Seq<char>) {
    if i == 0 {
        (Page::Dashboard, "Dashboard"@, "Ctrl+D"@)
    } else if i == 1 {
        (Page::List, "Görevler"@, ""@)
    } else if i == 2 {
        (Page::Kanban, "Kanban"@, "Ctrl+B"@)
    } else if i == 3 {
        (Page::Calendar, "Takvim"@, "Ctrl+L"@)
    } else if i == 4 {
        (Page::Groups, "Gruplar"@, ""@)
    } else if i == 5 {
        (Page::Notifications, "Bildirimler"@, ""@)
    } else if i == 6 {
        (Page::Form, "Yeni Görev"@, "Ctrl+N"@)
    } else {
        (Page::Settings, "Ayarlar"@, "Ctrl+,"@)
    }
}

pub const NAV_COUNT: usize = 8;

pub fn nav_entries() -> (r: Vec<(Page, &'static str, &'static str)>)
    ensures
        r.len() == NAV_COUNT,
        forall|i: int|
            0 <= i < NAV_COUNT ==> (#[trigger] r@[i]).0 == nav_entry(i).0 && r@[i].1@ == nav_entry(i).1 && r@[i].2@
                == nav_entry(i).2,
{
    let r = vec![
        (Page::Dashboard, "Dashboard", "Ctrl+D"),
        (Page::List, "Görevler", ""),
        (Page::Kanban, "Kanban", "Ctrl+B"),
        (Page::Calendar, "Takvim", "Ctrl+L"),
        (Page::Groups, "Gruplar", ""),
        (Page::Notifications, "Bildirimler", ""),
        (Page::Form, "Yeni Görev", "Ctrl+N"),
        (Page::Settings, "Ayarlar", "Ctrl+,"),
    ];
    assert(r@.len() == 8);
    r
}

/// A sidebar entry is highlighted on its page; "Yeni Görev" only for a new task, not while a
/// task is edited.
pub fn is_active(current: Page, editing: Option<Id>, page: Page) -> (r: bool)
    ensures
        r == (current == page && !(page == Page::Form && editing is Some)),
{
    current == page && !(page == Page::Form && editing.is_some())
}

/// The unread count on the notifications entry: none at zero, "9+" above nine.
pub fn unread_badge(unread: usize) -> (r: Option<String>)
    ensures
        unread == 0 ==> r is None,
        0 < unread <= 9 ==> (r matches Some(s) && s@ == spec_decimal(unread as nat)),
        unread > 9 ==> (r matches Some(s) && s@ == "9+"@),
{
    if unread == 0 {
        None
    } else if unread > 9 {
        Some("9+".to_string())
    } else {
        Some(decimal(unread as u64))
    }
}

/// What the shell does with its form page when the page or the edited task changes.
#[derive(Clone, Copy, Debug, PartialEq, Eq, Structural)]
pub enum FormStep {
    /// The open form stays.
    Keep,
    /// Another page shows: the form (if any) is dropped.
    Drop,
    /// A fresh form opens on the given task (or a new one).
    Open(Option<Id>),
}

/// `open` is the task the open form edits (`None` when no form is open).
pub fn form_step(page: Page, editing: Option<Id>, open: Option<Option<Id>>) -> (r: FormStep)
    ensures
        page != Page::Form ==> r == FormStep::Drop,
        page == Page::Form && open == Some(editing) ==> r == FormStep::Keep,
        page == Page::Form && open != Some(editing) ==> r == FormStep::Open(editing),
{
    if page != Page::Form {
        return FormStep::Drop;
    }
    match open {
        Some(e) => if e == editing {
            FormStep::Keep
        } else {
            FormStep::Open(editing)
        },
        None => FormStep::Open(editing),
    }
}

/// A calendar day shows its first `MAX_PER_DAY` tasks and how many more there are.
pub fn day_overflow(due: usize) -> (r: (usize, Option<String>))
    ensures
        r.0 == if due < MAX_PER_DAY {
            due
        } else {
            MAX_PER_DAY
        },
        due <= MAX_PER_DAY ==> r.1 is None,
        due > MAX_PER_DAY ==> (r.1 matches Some(s) && s@ == "+"@ + spec_decimal((due - MAX_PER_DAY) as nat)
            + " daha"@),
{
    if due <= MAX_PER_DAY {
        (due, None)
    } else {
        let mut s = "+".to_string();
        s.append(decimal((due - MAX_PER_DAY) as u64).as_str());
        s.append(" daha");
        (MAX_PER_DAY, Some(s))
    }
}

/// The line under the notifications page's title.
pub fn unread_line(unread: usize) -> (r: String)
    ensures
        unread > 0 ==> r@ == spec_decimal(unread as nat) + " okunmamış"@,
        unread == 0 ==> r@ == "Tüm bildirimler okundu"@,
{
    if unread > 0 {
        let mut s = decimal(unread as u64);
        s.append(" okunmamış");
        s
    } else {
        "Tüm bildirimler okundu".to_string()
    }
}

} // verus!
