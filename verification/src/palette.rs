//! The Ctrl+K palette: quick commands, task search and `>` command mode, and the selection
//! that the arrow keys move over its entries.

use vstd::prelude::*;
use crate::model::{Id, Status, Task, task_views, TaskView};
use crate::sync::Page;
use crate::text::{chars_of, has_substring, owned, spec_lowercase, spec_trim, str_contains, to_lowercase, trim};
use crate::views::{search_tasks, spec_search, views_of};

verus! {

/// Tasks listed for a search query.
pub const MAX_RESULTS: usize = 10;

/// How many quick commands there are.
pub const COMMAND_COUNT: usize = 7;

pub open spec fn command_label(i: int) -> Seq<char> {
    if i == 0 {
        "Yeni Görev Oluştur"@
    } else if i == 1 {
        "Dashboard"@
    } else if i == 2 {
        "Görevler"@
    } else if i == 3 {
        "Kanban Panosu"@
    } else if i == 4 {
        "Takvim"@
    } else if i == 5 {
        "Bildirimler"@
    } else {
        "Ayarlar"@
    }
}

pub open spec fn command_page(i: int) -> Page {
    if i == 0 {
        Page::Form
    } else if i == 1 {
        Page::Dashboard
    } else if i == 2 {
        Page::List
    } else if i == 3 {
        Page::Kanban
    } else if i == 4 {
        Page::Calendar
    } else if i == 5 {
        Page::Notifications
    } else {
        Page::Settings
    }
}

/// The quick command `i`: its label and the page it opens.
pub fn command(i: usize) -> (r: (&'static str, Page))
    requires
        i < COMMAND_COUNT,
    ensures
        r.0@ == command_label(i as int),
        r.1 == command_page(i as int),
{
    if i == 0 {
        ("Yeni Görev Oluştur", Page::Form)
    } else if i == 1 {
        ("Dashboard", Page::Dashboard)
    } else if i == 2 {
        ("Görevler", Page::List)
    } else if i == 3 {
        ("Kanban Panosu", Page::Kanban)
    } else if i == 4 {
        ("Takvim", Page::Calendar)
    } else if i == 5 {
        ("Bildirimler", Page::Notifications)
    } else {
        ("Ayarlar", Page::Settings)
    }
}

/// A row of the palette.
#[derive(Clone, Copy, Debug, PartialEq, Eq, Structural)]
pub enum Entry {
    Command(usize),
    Task(Id),
}

/// Whether the typed text is a command (it starts with '>').
pub open spec fn is_command_mode(raw: Seq<char>) -> bool {
    raw.len() > 0 && raw[0] == '>'
}

/// The query the palette works with: without the '>' of command mode, trimmed.
pub open spec fn query_text(raw: Seq<char>) -> Seq<char> {
    if is_command_mode(raw) {
        spec_trim(raw.drop_first())
    } else {
        spec_trim(raw)
    }
}

/// The typed text read as (command mode, query).
pub fn parse_query(raw: &str) -> (r: (bool, String))
    ensures
        r.0 == is_command_mode(raw@),
        r.1@ == query_text(raw@),
{
    let cs = chars_of(raw);
    if cs.len() > 0 && cs[0] == '>' {
        let rest = raw.substring_char(1, cs.len());
        assert(rest@ =~= raw@.drop_first());
        (true, owned(trim(rest)))
    } else {
        (false, owned(trim(raw)))
    }
}

/// The commands among the first `n` whose lowercased label contains `q`, in order.
pub open spec fn matching_commands(q: Seq<char>, n: nat) -> Seq<Entry>
    decreases n,
{
    if n == 0 {
        Seq::empty()
    } else {
        let before = matching_commands(q, (n - 1) as nat);
        if has_substring(spec_lowercase(command_label(n - 1)), q) {
            before.push(Entry::Command((n - 1) as usize))
        } else {
            before
        }
    }
}

/// What the palette lists: in command mode or for a blank query the commands whose label holds
/// the lowercased query; else the first `MAX_RESULTS` tasks that the search finds.
pub open spec fn spec_entries(tasks: Seq<TaskView>, raw: Seq<char>) -> Seq<Entry> {
    if is_command_mode(raw) || query_text(raw).len() == 0 {
        matching_commands(spec_lowercase(query_text(raw)), COMMAND_COUNT as nat)
    } else {
        spec_search(tasks, query_text(raw), MAX_RESULTS as nat).map_values(|t: TaskView| Entry::Task(t.id))
    }
}

/// With an empty query every command matches.
proof fn lemma_all_commands(q: Seq<char>, n: nat)
    requires
        q.len() == 0,
    ensures
        matching_commands(q, n) == Seq::new(n, |i: int| Entry::Command(i as usize)),
    decreases n,
{
    if n > 0 {
        lemma_all_commands(q, (n - 1) as nat);
        let label = spec_lowercase(command_label(n - 1));
        assert(label.subrange(0int, 0int + q.len()) =~= q);
        assert(has_substring(label, q));
        assert(Seq::new(n, |i: int| Entry::Command(i as usize)) =~= Seq::new((n - 1) as nat, |i: int| Entry::Command(i as usize)).push(
            Entry::Command((n - 1) as usize),
        ));
    }
}

pub fn entries(tasks: &[Task], raw: &str) -> (r: Vec<Entry>)
    ensures
        r@ == spec_entries(task_views(tasks@), raw@),
        query_text(raw@).len() == 0 ==> r@ == Seq::new(COMMAND_COUNT as nat, |i: int| Entry::Command(i as usize)),
{
    let (command_mode, query) = parse_query(raw);
    if command_mode || query.as_str().is_empty() {
        let q = to_lowercase(query.as_str());
        let mut r: Vec<Entry> = Vec::new();
        let mut i: usize = 0;
        while i < COMMAND_COUNT
            invariant
                i <= COMMAND_COUNT,
                r@ == matching_commands(q@, i as nat),
            decreases COMMAND_COUNT - i,
        {
            let (label, _) = command(i);
            let lower = to_lowercase(label);
            if str_contains(lower.as_str(), q.as_str()) {
                r.push(Entry::Command(i));
            }
            i += 1;
        }
        proof {
            if query@.len() == 0 {
                lemma_all_commands(q@, COMMAND_COUNT as nat);
            }
        }
        r
    } else {
        let found = search_tasks(tasks, query.as_str(), MAX_RESULTS);
        let ghost want = spec_search(task_views(tasks@), query@, MAX_RESULTS as nat);
        let mut r: Vec<Entry> = Vec::new();
        let mut i: usize = 0;
        while i < found.len()
            invariant
                i <= found.len(),
                views_of(found@) == want,
                r@ == want.subrange(0, i as int).map_values(|t: TaskView| Entry::Task(t.id)),
            decreases found.len() - i,
        {
            assert(want[i as int] == found@[i as int]@);
            r.push(Entry::Task(found[i].id));
            assert(want.subrange(0, i as int + 1).map_values(|t: TaskView| Entry::Task(t.id)) =~= want.subrange(
                0,
                i as int,
            ).map_values(|t: TaskView| Entry::Task(t.id)).push(Entry::Task(want[i as int].id)));
            i += 1;
        }
        assert(want.subrange(0, want.len() as int) =~= want);
        r
    }
}

/// The text shown when nothing is listed.
pub fn empty_text(command_mode: bool, query: &str) -> (r: &'static str)
    ensures
        (command_mode || query@.len() == 0) ==> r@ == "Komut bulunamadı"@,
        !(command_mode || query@.len() == 0) ==> r@ == "Sonuç bulunamadı"@,
{
    if command_mode || query.is_empty() {
        "Komut bulunamadı"
    } else {
        "Sonuç bulunamadı"
    }
}

/// Up moves the selection to the previous entry, stopping at the first.
pub fn select_up(selected: usize) -> (r: usize)
    ensures
        r == if selected == 0 {
            0
        } else {
            selected - 1
        },
{
    if selected == 0 {
        0
    } else {
        selected - 1
    }
}

/// Down moves the selection to the next entry, stopping at the last.
pub fn select_down(selected: usize, count: usize) -> (r: usize)
    ensures
        r == if count == 0 {
            0
        } else if selected + 1 < count {
            selected + 1
        } else {
            count - 1
        },
{
    let last = if count == 0 {
        0
    } else {
        count - 1
    };
    if selected < last {
        selected + 1
    } else {
        last
    }
}

/// The glyph a task's status shows in the palette.
pub fn status_glyph(status: Status) -> (r: &'static str)
    ensures
        status == Status::Pending ==> r@ == "\u{f45a}"@,
        status == Status::InProgress ==> r@ == "\u{fb34}"@,
        status == Status::Completed ==> r@ == "\u{f3c8}"@,
{
    match status {
        Status::Pending => "\u{f45a}",
        Status::InProgress => "\u{fb34}",
        Status::Completed => "\u{f3c8}",
    }
}

} // verus!
