//! The task form: the values it edits besides its text boxes, tags and subtasks typed into
//! their boxes, the group and assignee pickers, and saving into the task list.

use vstd::prelude::*;
use crate::data::{
    contains_string, drafted_task, edited_task, first_with_id, has_id, next_order, orders_below_max,
    same_but_tasks, Data, DataError, DraftView, TaskDraft,
};
use crate::model::{
    Group, Id, Millis, Priority, Recurrence, Repeat, Status, SubTask, SubTaskView, Task, new_id,
    recurrence_view, string_views, subtask_views, task_views,
};
use crate::text::{chars_of, owned, spec_trim, spec_trim_end, trim, trim_end};

verus! {

/// The form's own values (the title, description and date boxes are read when it saves).
pub struct FormState {
    /// The task being edited; `None` for a new task.
    pub editing: Option<Id>,
    pub priority: Priority,
    pub status: Status,
    pub repeat: Repeat,
    pub tags: Vec<String>,
    pub subtasks: Vec<SubTask>,
    /// `None`: a personal task.
    pub group: Option<Id>,
    pub assignee: Option<Id>,
    pub recurrence: Option<Recurrence>,
    pub error: Option<String>,
}

/// The form's values for a draft: the draft's, with the repeat of its reminder (once when it
/// has none).
pub fn from_draft(editing: Option<Id>, draft: TaskDraft) -> (r: FormState)
    ensures
        r.editing == editing,
        r.priority == draft.priority,
        r.status == draft.status,
        r.repeat == (match draft.reminder {
            Some((_, repeat)) => repeat,
            None => Repeat::Once,
        }),
        string_views(r.tags@) == string_views(draft.tags@),
        subtask_views(r.subtasks@) == subtask_views(draft.subtasks@),
        r.group == draft.group_id,
        r.assignee == draft.assignee_id,
        recurrence_view(r.recurrence) == recurrence_view(draft.recurrence),
        r.error is None,
{
    FormState {
        editing,
        priority: draft.priority,
        status: draft.status,
        repeat: match draft.reminder {
            Some((_, repeat)) => repeat,
            None => Repeat::Once,
        },
        tags: draft.tags,
        subtasks: draft.subtasks,
        group: draft.group_id,
        assignee: draft.assignee_id,
        recurrence: draft.recurrence,
        error: None,
    }
}

/// The draft the form opens with: the edited task's, or an empty one for a new task (or a task
/// that is gone).
pub fn starting_draft(data: &Data, editing: Option<Id>) -> (r: TaskDraft)
    ensures
        (editing matches Some(id) && has_id(data.tasks@, id)) ==> exists|i: int|
            first_with_id(data.tasks@, editing->0, i) && r@ == draft_of(data.tasks@[i]),
        !(editing matches Some(id) && has_id(data.tasks@, id)) ==> r@ == blank_draft(),
{
    match editing {
        Some(id) => match data.task(id) {
            Some(t) => TaskDraft::from_task(t),
            None => TaskDraft::default(),
        },
        None => TaskDraft::default(),
    }
}

/// A task's values as a draft (an off reminder is none).
pub open spec fn draft_of(t: Task) -> DraftView {
    DraftView {
        title: t.title@,
        description: t.description@,
        priority: t.priority,
        status: t.status,
        due_date: t.due_date,
        reminder: match t.reminder {
            Some(r) => if r.enabled {
                Some((r.next_trigger, r.repeat))
            } else {
                None
            },
            None => None,
        },
        tags: string_views(t.tags@),
        subtasks: subtask_views(t.subtasks@),
        group_id: t.group_id,
        assignee_id: t.assignee_id,
        recurrence: recurrence_view(t.recurrence),
    }
}

pub open spec fn blank_draft() -> DraftView {
    DraftView {
        title: Seq::empty(),
        description: Seq::empty(),
        priority: Priority::Low,
        status: Status::Pending,
        due_date: None,
        reminder: None,
        tags: Seq::empty(),
        subtasks: Seq::empty(),
        group_id: None,
        assignee_id: None,
        recurrence: None,
    }
}

// ----- tags typed into the tag box -----

/// The comma-separated pieces of a text (`str::split(',')`: a text without commas is one piece).
pub open spec fn split_commas(s: Seq<char>) -> Seq<Seq<char>>
    decreases s.len(),
{
    if s.len() == 0 {
        seq![Seq::<char>::empty()]
    } else if s.last() == ',' {
        split_commas(s.drop_last()).push(Seq::empty())
    } else {
        let p = split_commas(s.drop_last());
        p.update(p.len() - 1, p.last().push(s.last()))
    }
}

proof fn lemma_split_nonempty(s: Seq<char>)
    ensures
        split_commas(s).len() > 0,
    decreases s.len(),
{
    if s.len() > 0 {
        lemma_split_nonempty(s.drop_last());
    }
}

/// A typed piece joins the tags trimmed, unless it is blank or already there.
pub open spec fn add_tag(tags: Seq<Seq<char>>, piece: Seq<char>) -> Seq<Seq<char>> {
    let t = spec_trim(piece);
    if t.len() > 0 && !tags.contains(t) {
        tags.push(t)
    } else {
        tags
    }
}

pub open spec fn add_tags(tags: Seq<Seq<char>>, pieces: Seq<Seq<char>>) -> Seq<Seq<char>>
    decreases pieces.len(),
{
    if pieces.len() == 0 {
        tags
    } else {
        add_tag(add_tags(tags, pieces.drop_last()), pieces.last())
    }
}

fn take_tag(tags: &mut Vec<String>, piece: &str)
    ensures
        string_views(final(tags)@) == add_tag(string_views(old(tags)@), piece@),
{
    let t = owned(trim(piece));
    if !t.as_str().is_empty() && !contains_string(tags, &t) {
        tags.push(t);
        assert(string_views(tags@) =~= string_views(old(tags)@).push(t@));
    }
}

/// Moves the comma-separated tags typed in the tag box into the tag list.
pub fn take_tags(tags: &mut Vec<String>, text: &str)
    ensures
        string_views(final(tags)@) == add_tags(string_views(old(tags)@), split_commas(text@)),
{
    let cs = chars_of(text);
    let n = cs.len();
    let ghost start_tags = string_views(tags@);
    let ghost mut done: Seq<Seq<char>> = Seq::empty();
    let mut start: usize = 0;
    let mut i: usize = 0;
    assert(text@.subrange(0, 0) =~= Seq::<char>::empty());
    assert(split_commas(text@.subrange(0, 0)) =~= done.push(text@.subrange(0, 0)));
    while i < n
        invariant
            start <= i <= n,
            n == cs@.len(),
            cs@ == text@,
            split_commas(text@.subrange(0, i as int)) == done.push(text@.subrange(start as int, i as int)),
            string_views(tags@) == add_tags(start_tags, done),
        decreases n - i,
    {
        let ghost prefix = text@.subrange(0, i as int + 1);
        assert(prefix.drop_last() =~= text@.subrange(0, i as int));
        assert(prefix.last() == cs@[i as int]);
        if cs[i] == ',' {
            let piece = text.substring_char(start, i);
            take_tag(tags, piece);
            proof {
                assert(done.push(piece@).drop_last() =~= done);
                done = done.push(piece@);
                assert(text@.subrange(i as int + 1, i as int + 1) =~= Seq::<char>::empty());
            }
            start = i + 1;
        } else {
            proof {
                let p = split_commas(text@.subrange(0, i as int));
                assert(prefix.len() > 0 && prefix.last() != ',');
                assert(split_commas(prefix) == p.update(p.len() - 1, p.last().push(prefix.last())));
                assert(text@.subrange(start as int, i as int + 1) =~= text@.subrange(start as int, i as int).push(
                    cs@[i as int],
                ));
                assert(p.update(p.len() - 1, p.last().push(cs@[i as int])) =~= done.push(
                    text@.subrange(start as int, i as int + 1),
                ));
            }
        }
        i += 1;
    }
    let piece = text.substring_char(start, n);
    take_tag(tags, piece);
    proof {
        assert(text@.subrange(0, n as int) =~= text@);
        assert(done.push(piece@).drop_last() =~= done);
    }
}

// ----- subtasks typed into the subtask box -----

/// `after` is `before` with one more subtask at the end, titled `title` and not done.
pub open spec fn subtask_added(before: Seq<SubTaskView>, after: Seq<SubTaskView>, title: Seq<char>) -> bool {
    &&& after.len() == before.len() + 1
    &&& after.drop_last() == before
    &&& after.last().title == title
    &&& !after.last().completed
}

/// Moves the text in the subtask box into the subtask list, unless it is blank; says whether
/// it did.
pub fn take_subtask(subtasks: &mut Vec<SubTask>, text: &str) -> (r: bool)
    ensures
        r == (spec_trim(text@).len() > 0),
        r ==> subtask_added(subtask_views(old(subtasks)@), subtask_views(final(subtasks)@), spec_trim(text@)),
        !r ==> final(subtasks)@ == old(subtasks)@,
{
    let title = owned(trim(text));
    if title.as_str().is_empty() {
        return false;
    }
    subtasks.push(SubTask { id: new_id(), title, completed: false });
    assert(subtask_views(subtasks@).drop_last() =~= subtask_views(old(subtasks)@));
    true
}

/// Ticks or unticks the subtask at `ix` (nothing when there is none).
pub fn toggle_subtask(subtasks: &mut Vec<SubTask>, ix: usize)
    ensures
        ix < old(subtasks)@.len() ==> subtask_views(final(subtasks)@) == subtask_views(old(subtasks)@).update(
            ix as int,
            SubTaskView { completed: !old(subtasks)@[ix as int].completed, ..old(subtasks)@[ix as int]@ },
        ),
        ix >= old(subtasks)@.len() ==> final(subtasks)@ == old(subtasks)@,
{
    if ix < subtasks.len() {
        let flipped = !subtasks[ix].completed;
        subtasks[ix].completed = flipped;
        assert(subtask_views(subtasks@) =~= subtask_views(old(subtasks)@).update(
            ix as int,
            SubTaskView { completed: !old(subtasks)@[ix as int].completed, ..old(subtasks)@[ix as int]@ },
        ));
    }
}

/// Removes the subtask at `ix` (nothing when there is none).
pub fn remove_subtask(subtasks: &mut Vec<SubTask>, ix: usize)
    ensures
        ix < old(subtasks)@.len() ==> final(subtasks)@ == old(subtasks)@.remove(ix as int),
        ix >= old(subtasks)@.len() ==> final(subtasks)@ == old(subtasks)@,
{
    if ix < subtasks.len() {
        subtasks.remove(ix);
    }
}

// ----- group and assignee -----

/// The members of the first group with id `id` (none when there is no such group).
pub open spec fn members_of(groups: Seq<Group>, id: Id) -> Seq<Id>
    decreases groups.len(),
{
    if groups.len() == 0 {
        Seq::empty()
    } else if groups[0].id == id {
        groups[0].members@
    } else {
        members_of(groups.drop_first(), id)
    }
}

/// The members of the group `group` picks (none for a personal task).
pub open spec fn picked_members(data: &Data, group: Option<Id>) -> Seq<Id> {
    match group {
        Some(g) => members_of(data.groups@, g),
        None => Seq::empty(),
    }
}

/// The members of the picked group.
pub fn group_members(data: &Data, group: Option<Id>) -> (r: Vec<Id>)
    ensures
        r@ == picked_members(data, group),
{
    let g = match group {
        Some(g) => g,
        None => return Vec::new(),
    };
    let ghost all = data.groups@;
    let mut i: usize = 0;
    assert(all.subrange(0, all.len() as int) =~= all);
    while i < data.groups.len()
        invariant
            i <= data.groups.len(),
            group == Some(g),
            all == data.groups@,
            members_of(all, g) == members_of(all.subrange(i as int, all.len() as int), g),
        decreases data.groups.len() - i,
    {
        let ghost rest = all.subrange(i as int, all.len() as int);
        assert(rest.drop_first() =~= all.subrange(i as int + 1, all.len() as int));
        if data.groups[i].id == g {
            let m = data.groups[i].members.clone();
            assert(rest[0] == all[i as int]);
            assert(m@ =~= all[i as int].members@);
            return m;
        }
        i += 1;
    }
    Vec::new()
}

fn contains_id(ids: &Vec<Id>, id: Id) -> (r: bool)
    ensures
        r == ids@.contains(id),
{
    let mut i: usize = 0;
    while i < ids.len()
        invariant
            i <= ids.len(),
            forall|k: int| 0 <= k < i ==> ids@[k] != id,
        decreases ids.len() - i,
    {
        if ids[i] == id {
            assert(ids@[i as int] == id);
            return true;
        }
        i += 1;
    }
    false
}

/// The assignee left after picking `group`: kept only when they are one of its members.
pub open spec fn assignee_after(data: &Data, group: Option<Id>, assignee: Option<Id>) -> Option<Id> {
    match assignee {
        Some(a) => if picked_members(data, group).contains(a) {
            assignee
        } else {
            None
        },
        None => None,
    }
}

/// Moves the task to a group (or back to personal); an assignee outside the group is cleared.
pub fn set_group(form: &mut FormState, data: &Data, group: Option<Id>)
    ensures
        final(form).group == group,
        final(form).assignee == assignee_after(data, group, old(form).assignee),
        final(form).editing == old(form).editing,
        final(form).priority == old(form).priority,
        final(form).status == old(form).status,
        final(form).repeat == old(form).repeat,
        final(form).tags == old(form).tags,
        final(form).subtasks == old(form).subtasks,
        final(form).recurrence == old(form).recurrence,
        final(form).error == old(form).error,
{
    let members = group_members(data, group);
    form.group = group;
    form.assignee = match form.assignee {
        Some(a) => if contains_id(&members, a) {
            Some(a)
        } else {
            None
        },
        None => None,
    };
}

/// The group and assignee pickers show unless the account has no groups and the task none.
pub fn sharing_shown(data: &Data, group: Option<Id>) -> (r: bool)
    ensures
        r == !(data.groups@.len() == 0 && group is None),
{
    !(data.groups.len() == 0 && group.is_none())
}

/// Only the task's owner moves it between groups (a new or personal task has none).
pub fn can_move_group(data: &Data, editing: Option<Id>) -> (r: bool)
    ensures
        r == (match editing {
            Some(id) => match owner_of(data.tasks@, id) {
                Some(owner) => Some(owner) == data.spec_me(),
                None => true,
            },
            None => true,
        }),
{
    let owner = match editing {
        Some(id) => match data.task(id) {
            Some(t) => {
                proof {
                    let i = choose|i: int| first_with_id(data.tasks@, id, i) && *t == data.tasks@[i];
                    lemma_owner_of(data.tasks@, id, i);
                }
                t.owner_id
            },
            None => {
                proof {
                    lemma_owner_of_missing(data.tasks@, id);
                }
                None
            },
        },
        None => None,
    };
    match owner {
        Some(o) => Some(o) == data.me(),
        None => true,
    }
}

/// The owner of the first task with id `id`, if the task exists and has one.
pub open spec fn owner_of(tasks: Seq<Task>, id: Id) -> Option<Id>
    decreases tasks.len(),
{
    if tasks.len() == 0 {
        None
    } else if tasks[0].id == id {
        tasks[0].owner_id
    } else {
        owner_of(tasks.drop_first(), id)
    }
}

proof fn lemma_owner_of(tasks: Seq<Task>, id: Id, i: int)
    requires
        first_with_id(tasks, id, i),
    ensures
        owner_of(tasks, id) == tasks[i].owner_id,
    decreases tasks.len(),
{
    if i > 0 {
        assert(tasks[0].id != id);
        lemma_owner_of(tasks.drop_first(), id, i - 1);
    }
}

proof fn lemma_owner_of_missing(tasks: Seq<Task>, id: Id)
    requires
        !has_id(tasks, id),
    ensures
        owner_of(tasks, id) is None,
    decreases tasks.len(),
{
    if tasks.len() > 0 {
        assert(tasks[0].id != id);
        if has_id(tasks.drop_first(), id) {
            let k = choose|k: int| 0 <= k < tasks.len() - 1 && tasks.drop_first()[k].id == id;
            assert(tasks[k + 1].id == id);
        }
        lemma_owner_of_missing(tasks.drop_first(), id);
    }
}

/// The group picker's options: personal, then every group by name.
pub fn group_options(groups: &Vec<Group>) -> (r: Vec<(Option<Id>, String)>)
    requires
        groups.len() < usize::MAX,
    ensures
        r.len() == groups.len() + 1,
        r@[0].0 is None && r@[0].1@ == "Kişisel"@,
        forall|i: int|
            0 <= i < groups.len() ==> (#[trigger] r@[i + 1]).0 == Some(groups@[i].id) && r@[i + 1].1@
                == groups@[i].name@,
{
    let mut r: Vec<(Option<Id>, String)> = Vec::new();
    r.push((None, "Kişisel".to_string()));
    let mut i: usize = 0;
    while i < groups.len()
        invariant
            i <= groups.len(),
            r.len() == i + 1,
            r@[0].0 is None && r@[0].1@ == "Kişisel"@,
            forall|k: int|
                0 <= k < i ==> (#[trigger] r@[k + 1]).0 == Some(groups@[k].id) && r@[k + 1].1@
                    == groups@[k].name@,
        decreases groups.len() - i,
    {
        r.push((Some(groups[i].id), groups[i].name.clone()));
        i += 1;
    }
    r
}

/// The assignee picker's options for a group task: nobody, then each member.
pub fn assignee_options(data: &Data, group: Option<Id>) -> (r: Option<Vec<Option<Id>>>)
    ensures
        group is None ==> r is None,
        group is Some ==> (r matches Some(v) && v@ == seq![None::<Id>] + picked_members(data, group).map_values(
            |m: Id| Some(m),
        )),
{
    if group.is_none() {
        return None;
    }
    let members = group_members(data, group);
    let mut v: Vec<Option<Id>> = Vec::new();
    v.push(None);
    let mut i: usize = 0;
    while i < members.len()
        invariant
            i <= members.len(),
            v@ == seq![None::<Id>] + members@.subrange(0, i as int).map_values(|m: Id| Some(m)),
        decreases members.len() - i,
    {
        v.push(Some(members[i]));
        assert(members@.subrange(0, i as int + 1).map_values(|m: Id| Some(m)) =~= members@.subrange(
            0,
            i as int,
        ).map_values(|m: Id| Some(m)).push(Some(members@[i as int])));
        assert(seq![None::<Id>] + members@.subrange(0, i as int + 1).map_values(|m: Id| Some(m)) =~= (seq![
            None::<Id>,
        ] + members@.subrange(0, i as int).map_values(|m: Id| Some(m))).push(Some(members@[i as int])));
        i += 1;
    }
    assert(members@.subrange(0, members.len() as int) =~= members@);
    Some(v)
}

// ----- saving -----

/// The draft the form saves, from its values and the text in its boxes (the description
/// without trailing whitespace).
pub open spec fn form_draft(
    form: &FormState,
    title: Seq<char>,
    description: Seq<char>,
    due: Option<Millis>,
    reminder_at: Option<Millis>,
) -> DraftView {
    DraftView {
        title,
        description: spec_trim_end(description),
        priority: form.priority,
        status: form.status,
        due_date: due,
        reminder: match reminder_at {
            Some(at) => Some((at, form.repeat)),
            None => None,
        },
        tags: string_views(form.tags@),
        subtasks: subtask_views(form.subtasks@),
        group_id: form.group,
        assignee_id: form.assignee,
        recurrence: recurrence_view(form.recurrence),
    }
}

fn build_draft(
    form: &FormState,
    title: &str,
    description: &str,
    due: Option<Millis>,
    reminder_at: Option<Millis>,
) -> (r: TaskDraft)
    ensures
        r@ == form_draft(form, title@, description@, due, reminder_at),
{
    let mut tags: Vec<String> = Vec::new();
    let mut i: usize = 0;
    while i < form.tags.len()
        invariant
            i <= form.tags.len(),
            tags@.len() == i,
            string_views(tags@) == string_views(form.tags@).subrange(0, i as int),
        decreases form.tags.len() - i,
    {
        let ghost before = tags@;
        tags.push(form.tags[i].clone());
        assert forall|k: int| 0 <= k <= i implies #[trigger] string_views(tags@)[k] == string_views(
            form.tags@,
        )[k] by {
            if k < i {
                assert(tags@[k] == before[k]);
                assert(string_views(before)[k] == string_views(form.tags@).subrange(0, i as int)[k]);
            }
        }
        assert(string_views(tags@) =~= string_views(form.tags@).subrange(0, i as int + 1));
        i += 1;
    }
    assert(string_views(form.tags@).subrange(0, form.tags.len() as int) =~= string_views(form.tags@));
    let mut subtasks: Vec<SubTask> = Vec::new();
    let mut i: usize = 0;
    while i < form.subtasks.len()
        invariant
            i <= form.subtasks.len(),
            subtasks@.len() == i,
            subtask_views(subtasks@) == subtask_views(form.subtasks@).subrange(0, i as int),
        decreases form.subtasks.len() - i,
    {
        let ghost before = subtasks@;
        subtasks.push(form.subtasks[i].clone());
        assert forall|k: int| 0 <= k <= i implies #[trigger] subtask_views(subtasks@)[k] == subtask_views(
            form.subtasks@,
        )[k] by {
            if k < i {
                assert(subtasks@[k] == before[k]);
                assert(subtask_views(before)[k] == subtask_views(form.subtasks@).subrange(0, i as int)[k]);
            }
        }
        assert(subtask_views(subtasks@) =~= subtask_views(form.subtasks@).subrange(0, i as int + 1));
        i += 1;
    }
    assert(subtask_views(form.subtasks@).subrange(0, form.subtasks.len() as int) =~= subtask_views(
        form.subtasks@,
    ));
    let recurrence = match &form.recurrence {
        None => None,
        Some(Recurrence::Day) => Some(Recurrence::Day),
        Some(Recurrence::Month) => Some(Recurrence::Month),
        Some(Recurrence::Week { days }) => Some(Recurrence::Week { days: days.clone() }),
    };
    TaskDraft {
        title: owned(title),
        description: owned(trim_end(description)),
        priority: form.priority,
        status: form.status,
        due_date: due,
        reminder: match reminder_at {
            Some(at) => Some((at, form.repeat)),
            None => None,
        },
        tags,
        subtasks,
        group_id: form.group,
        assignee_id: form.assignee,
        recurrence,
    }
}

/// Saves the form: text left in the tag and subtask boxes counts as if Enter had been pressed;
/// then the task is added (new) or updated (edited). A failure is kept as the form's error.
pub fn save(
    form: &mut FormState,
    data: &mut Data,
    title: &str,
    description: &str,
    tag_text: &str,
    subtask_text: &str,
    due: Option<Millis>,
    reminder_at: Option<Millis>,
    now: Millis,
) -> (r: Result<(), DataError>)
    requires
        orders_below_max(old(data).tasks@),
    ensures
        string_views(final(form).tags@) == add_tags(string_views(old(form).tags@), split_commas(tag_text@)),
        spec_trim(subtask_text@).len() > 0 ==> subtask_added(
            subtask_views(old(form).subtasks@),
            subtask_views(final(form).subtasks@),
            spec_trim(subtask_text@),
        ),
        spec_trim(subtask_text@).len() == 0 ==> final(form).subtasks@ == old(form).subtasks@,
        final(form).editing == old(form).editing,
        final(form).priority == old(form).priority,
        final(form).status == old(form).status,
        final(form).repeat == old(form).repeat,
        final(form).group == old(form).group,
        final(form).assignee == old(form).assignee,
        final(form).recurrence == old(form).recurrence,
        spec_trim(title@).len() == 0 <==> r == Err::<(), DataError>(DataError::EmptyTitle),
        r matches Err(e) ==> *final(data) == *old(data) && (final(form).error matches Some(m) && m@
            == e.spec_message()),
        r is Ok ==> final(form).error == old(form).error,
        crate::data::in_display_order(old(data).tasks@) ==> crate::data::in_display_order(final(data).tasks@),
        old(form).editing is None ==> (r is Err ==> r == Err::<(), DataError>(DataError::EmptyTitle)),
        old(form).editing is None && r is Ok ==> exists|id: Id|
            task_views(final(data).tasks@) == task_views(old(data).tasks@).push(
                drafted_task(
                    id,
                    form_draft(final(form), title@, description@, due, reminder_at),
                    next_order(old(data).tasks@),
                    now,
                ),
            ) && same_but_tasks(final(data), old(data)),
        old(form).editing matches Some(id) ==> (r == Err::<(), DataError>(DataError::NotFound) <==> (
        spec_trim(title@).len() > 0 && !has_id(old(data).tasks@, id))),
        old(form).editing is Some && r is Ok ==> exists|i: int|
            first_with_id(old(data).tasks@, old(form).editing->0, i) && task_views(final(data).tasks@) == task_views(
                old(data).tasks@,
            ).update(
                i,
                edited_task(
                    old(data).tasks@[i]@,
                    form_draft(final(form), title@, description@, due, reminder_at),
                    now,
                ),
            ) && same_but_tasks(final(data), old(data)),
{
    take_tags(&mut form.tags, tag_text);
    take_subtask(&mut form.subtasks, subtask_text);
    let draft = build_draft(form, title, description, due, reminder_at);
    let result = match form.editing {
        Some(id) => data.update_task(id, draft, now),
        None => match data.add_task(draft, now) {
            Ok(_) => Ok(()),
            Err(e) => Err(e),
        },
    };
    if let Err(e) = result {
        form.error = Some(owned(e.message()));
    }
    result
}

/// Tags are trimmed, never blank and never twice.
pub open spec fn tags_clean(tags: Seq<Seq<char>>) -> bool {
    &&& forall|i: int| 0 <= i < tags.len() ==> (#[trigger] tags[i]).len() > 0
    &&& forall|i: int, j: int| 0 <= i < j < tags.len() ==> tags[i] != tags[j]
}

/// Typing tags keeps the list clean and keeps the tags already there, in front.
pub proof fn law_typed_tags_stay_clean(tags: Seq<Seq<char>>, pieces: Seq<Seq<char>>)
    requires
        tags_clean(tags),
    ensures
        tags_clean(add_tags(tags, pieces)),
        add_tags(tags, pieces).subrange(0, tags.len() as int) == tags,
        add_tags(tags, pieces).len() >= tags.len(),
    decreases pieces.len(),
{
    if pieces.len() > 0 {
        law_typed_tags_stay_clean(tags, pieces.drop_last());
        let before = add_tags(tags, pieces.drop_last());
        let t = spec_trim(pieces.last());
        if t.len() > 0 && !before.contains(t) {
            let after = before.push(t);
            assert forall|i: int, j: int| 0 <= i < j < after.len() implies after[i] != after[j] by {
                if j == before.len() {
                    assert(before.contains(before[i]));
                }
            }
            assert(after.subrange(0, tags.len() as int) =~= before.subrange(0, tags.len() as int));
        }
    }
}

/// The texts the task form shows around its fields.
#[derive(Debug)]
pub struct PageText {
    /// The page title.
    pub title: &'static str,
    /// The status field is there (only when editing).
    pub show_status: bool,
    /// The label of the switch between editing the description and previewing it.
    pub preview_toggle: &'static str,
    /// What the preview shows instead of the rendered description when there is nothing to show.
    pub empty_preview: Option<&'static str>,
}

/// The form's texts: its title by whether a task is edited, the status field only when editing,
/// the preview switch's label, and the empty-preview text when the preview is on and the
/// description is blank.
pub fn page_text(editing: bool, preview: bool, description: &str) -> (r: PageText)
    ensures
        r.title@ == (if editing {
            "Görevi Düzenle"@
        } else {
            "Yeni Görev"@
        }),
        r.show_status == editing,
        r.preview_toggle@ == (if preview {
            "Düzenle"@
        } else {
            "Önizle"@
        }),
        (preview && spec_trim(description@).len() == 0) ==> (r.empty_preview matches Some(m) && m@
            == "Önizlenecek içerik yok"@),
        !(preview && spec_trim(description@).len() == 0) ==> r.empty_preview is None,
{
    let empty = preview && trim(description).is_empty();
    PageText {
        title: if editing {
            "Görevi Düzenle"
        } else {
            "Yeni Görev"
        },
        show_status: editing,
        preview_toggle: if preview {
            "Düzenle"
        } else {
            "Önizle"
        },
        empty_preview: if empty {
            Some("Önizlenecek içerik yok")
        } else {
            None
        },
    }
}

} // verus!
