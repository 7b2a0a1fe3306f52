//! The task list page's rules: keyboard selection among the visible tasks, the selection after
//! a delete, the scope pills, the tag toggle and the texts of the page and its cards.

use vstd::prelude::*;
use crate::model::{Group, Id, SubTask, subtask_views, SubTaskView};
use crate::text::{decimal, spec_decimal, str_eq};
use crate::views::Scope;

verus! {

/// The first position of `id` among `ids`, if it is there.
pub fn position(ids: &Vec<Id>, id: Id) -> (r: Option<usize>)
    ensures
        match r {
            Some(i) => ids@.index_of_first(id) == Some(i as int),
            None => ids@.index_of_first(id) is None,
        },
{
    proof {
        ids@.index_of_first_ensures(id);
    }
    let mut i: usize = 0;
    while i < ids.len()
        invariant
            i <= ids.len(),
            forall|j: int| 0 <= j < i ==> ids@[j] != id,
        decreases ids.len() - i,
    {
        if ids[i] == id {
            proof {
                ids@.index_of_first_ensures(id);
                assert(ids@.contains(id));
            }
            return Some(i);
        }
        i += 1;
    }
    proof {
        if ids@.contains(id) {
            let k = choose|k: int| 0 <= k < ids@.len() && ids@[k] == id;
            assert(ids@[k] == id);
        }
    }
    None
}

/// Where a move by `step` takes the selection among `n` visible tasks: from the current
/// position, clamped to the ends; without one, the first task going down and the last going up.
pub open spec fn spec_select_at(n: int, at: Option<int>, step: int) -> int {
    match at {
        Some(a) => if a + step < 0 {
            0
        } else if a + step > n - 1 {
            n - 1
        } else {
            a + step
        },
        None => if step > 0 {
            0
        } else {
            n - 1
        },
    }
}

/// The position the keyboard selection moves to (`None` when nothing is visible).
pub fn select_by(ids: &Vec<Id>, selected: Option<Id>, step: i64) -> (r: Option<usize>)
    ensures
        ids.len() == 0 <==> r is None,
        r matches Some(k) ==> k == spec_select_at(
            ids.len() as int,
            match selected {
                Some(s) => ids@.index_of_first(s),
                None => None,
            },
            step as int,
        ),
{
    if ids.len() == 0 {
        return None;
    }
    let last: i128 = ids.len() as i128 - 1;
    let at = match selected {
        Some(s) => position(ids, s),
        None => None,
    };
    let k: i128 = match at {
        Some(a) => {
            let moved: i128 = a as i128 + step as i128;
            if moved < 0 {
                0
            } else if moved > last {
                last
            } else {
                moved
            }
        },
        None => if step > 0 {
            0
        } else {
            last
        },
    };
    Some(k as usize)
}

/// The selection while it is among the visible tasks.
pub fn visible_selection(selected: Option<Id>, ids: &Vec<Id>) -> (r: Option<Id>)
    ensures
        r == (match selected {
            Some(s) => if ids@.contains(s) {
                Some(s)
            } else {
                None
            },
            None => None,
        }),
{
    match selected {
        Some(s) => match position(ids, s) {
            Some(_) => {
                proof {
                    ids@.index_of_first_ensures(s);
                }
                Some(s)
            },
            None => {
                proof {
                    ids@.index_of_first_ensures(s);
                }
                None
            },
        },
        None => None,
    }
}

/// After deleting the task `id`, the task now at its old place takes the selection, or the
/// new last one when it was last.
pub fn selection_after_delete(before: &Vec<Id>, id: Id, after: &Vec<Id>) -> (r: Option<Id>)
    ensures
        after.len() == 0 ==> r is None,
        after.len() > 0 ==> {
            let at = match before@.index_of_first(id) {
                Some(i) => i,
                None => 0,
            };
            r == Some(after@[if at < after.len() { at } else { after.len() - 1 }])
        },
{
    let at = match position(before, id) {
        Some(i) => i,
        None => 0,
    };
    if after.len() == 0 {
        return None;
    }
    let k = if at < after.len() {
        at
    } else {
        after.len() - 1
    };
    Some(after[k])
}

pub open spec fn scope_option(groups: Seq<Group>, i: int) -> (Scope, Seq<char>) {
    if i == 0 {
        (Scope::All, "Tümü"@)
    } else if i == 1 {
        (Scope::Personal, "Kişisel"@)
    } else {
        (Scope::Group(groups[i - 2].id), groups[i - 2].name@)
    }
}

/// The scope pills: none without groups; else every task, personal tasks, then each group.
pub fn scope_options(groups: &Vec<Group>) -> (r: Vec<(Scope, String)>)
    requires
        groups.len() + 2 <= usize::MAX,
    ensures
        groups.len() == 0 ==> r.len() == 0,
        groups.len() > 0 ==> r.len() == groups.len() + 2,
        forall|i: int|
            0 <= i < r.len() ==> (#[trigger] r@[i]).0 == scope_option(groups@, i).0 && r@[i].1@
                == scope_option(groups@, i).1,
{
    let mut r: Vec<(Scope, String)> = Vec::new();
    if groups.len() == 0 {
        return r;
    }
    r.push((Scope::All, "Tümü".to_string()));
    r.push((Scope::Personal, "Kişisel".to_string()));
    let mut i: usize = 0;
    while i < groups.len()
        invariant
            i <= groups.len(),
            groups.len() > 0,
            r.len() == i + 2,
            forall|k: int|
                0 <= k < r.len() ==> (#[trigger] r@[k]).0 == scope_option(groups@, k).0 && r@[k].1@
                    == scope_option(groups@, k).1,
        decreases groups.len() - i,
    {
        r.push((Scope::Group(groups[i].id), groups[i].name.clone()));
        i += 1;
    }
    r
}

pub open spec fn tag_chosen(current: Option<String>, tag: Seq<char>) -> bool {
    current matches Some(c) && c@ == tag
}

/// A click on a tag chip: the tag filter turns off when that tag was chosen, else it turns to it.
pub fn toggle_tag(current: &Option<String>, tag: String) -> (r: Option<String>)
    ensures
        tag_chosen(*current, tag@) ==> r is None,
        !tag_chosen(*current, tag@) ==> (r matches Some(t) && t@ == tag@),
{
    match current {
        Some(c) => if str_eq(c.as_str(), tag.as_str()) {
            None
        } else {
            Some(tag)
        },
        None => Some(tag),
    }
}

pub open spec fn spec_list_title(total: nat) -> Seq<char> {
    "Görevler ("@ + spec_decimal(total) + ")"@
}

/// The page title with the number of tasks.
pub fn list_title(total: usize) -> (r: String)
    ensures
        r@ == spec_list_title(total as nat),
{
    let mut s = "Görevler (".to_string();
    s.append(decimal(total as u64).as_str());
    s.append(")");
    s
}

pub open spec fn spec_empty_message(total: nat) -> Seq<char> {
    if total == 0 {
        "Henüz görev yok. Ctrl+N ile yeni görev ekle."@
    } else {
        "Filtreye uyan görev yok."@
    }
}

/// What the page says when no card is shown: no tasks at all, or none through the filters.
pub fn empty_message(total: usize) -> (r: &'static str)
    ensures
        r@ == spec_empty_message(total as nat),
{
    if total == 0 {
        "Henüz görev yok. Ctrl+N ile yeni görev ekle."
    } else {
        "Filtreye uyan görev yok."
    }
}

/// How many subtasks are completed.
pub open spec fn done_count(s: Seq<SubTaskView>) -> nat
    decreases s.len(),
{
    if s.len() == 0 {
        0
    } else {
        done_count(s.drop_last()) + if s.last().completed {
            1nat
        } else {
            0nat
        }
    }
}

pub open spec fn spec_progress(s: Seq<SubTaskView>) -> Seq<char> {
    spec_decimal(done_count(s)) + "/"@ + spec_decimal(s.len())
}

/// A card's subtask progress, "done/all".
pub fn subtask_progress(subtasks: &Vec<SubTask>) -> (r: String)
    ensures
        r@ == spec_progress(subtask_views(subtasks@)),
{
    let mut done: usize = 0;
    let mut i: usize = 0;
    while i < subtasks.len()
        invariant
            i <= subtasks.len(),
            done <= i,
            done == done_count(subtask_views(subtasks@.subrange(0, i as int))),
        decreases subtasks.len() - i,
    {
        let ghost prefix = subtasks@.subrange(0, i as int + 1);
        assert(subtask_views(prefix).drop_last() =~= subtask_views(subtasks@.subrange(0, i as int)));
        if subtasks[i].completed {
            done += 1;
        }
        i += 1;
    }
    assert(subtasks@.subrange(0, subtasks.len() as int) =~= subtasks@);
    let mut s = decimal(done as u64);
    s.append("/");
    s.append(decimal(subtasks.len() as u64).as_str());
    s
}

/// A tag as a chip shows it.
pub fn tag_chip(tag: &str) -> (r: String)
    ensures
        r@ == "#"@ + tag@,
{
    let mut s = "#".to_string();
    s.append(tag);
    s
}

/// The keyboard selection always lands on a visible task.
pub proof fn law_selection_stays_visible(n: int, at: Option<int>, step: int)
    requires
        n > 0,
    ensures
        0 <= spec_select_at(n, at, step) < n,
{
}

} // verus!
