//! The persisted document and every operation on it. No I/O.

use vstd::prelude::*;
use crate::clock::{valid_instant, MAX_INSTANT};
use crate::model::{
    Group, Id, Millis, Notice, NoticeView, PendingOp, Priority, Profile, Recurrence, Reminder, Repeat,
    Settings, Status, SubTask, Task, TaskView, Theme, clone_strings, clone_subtasks, new_id,
    recurrence_view, string_views, subtask_views, task_views, RecurrenceView, SubTaskView,
};
use crate::reminders;
use crate::text::{owned, spec_trim, trim};

verus! {

broadcast use vstd::seq_lib::group_filter_ensures;

pub const DATA_VERSION: u32 = 1;

/// Notification history keeps at most this many notices (newest first).
pub const MAX_NOTICES: usize = 100;

#[derive(Debug)]
pub struct Data {
    pub version: u32,
    /// Always sorted by `Task::order`: iteration order is display order.
    pub tasks: Vec<Task>,
    pub settings: Settings,
    /// Pop-ups shown so far, newest first (see `record_notice`).
    pub notices: Vec<Notice>,
    /// The signed-in account. Kept when the session expires, so the app can ask to sign in again.
    pub account: Option<Profile>,
    /// The account this device's tasks belong to. Stays after signing out, so signing back in with
    /// the same account carries on where it stopped. `None`: never signed in, nothing is tracked.
    pub last_account: Option<Id>,
    /// Changes waiting to be uploaded, oldest first.
    pub pending: Vec<PendingOp>,
    /// Tasks known to exist on the server (as of the last pull or upload).
    pub remote_ids: Vec<Id>,
    pub last_sync: Option<Millis>,
    /// Groups the account belongs to, as of the last sync.
    pub groups: Vec<Group>,
    /// People who share a group with the account (names and avatars), as of the last sync.
    pub profiles: Vec<Profile>,
}

fn clone_vec<T: Clone>(v: &Vec<T>) -> (r: Vec<T>)
    ensures
        r@.len() == v@.len(),
        forall|i: int| 0 <= i < v@.len() ==> cloned::<T>(v@[i], #[trigger] r@[i]),
{
    let mut r: Vec<T> = Vec::new();
    let mut i: usize = 0;
    while i < v.len()
        invariant
            i <= v.len(),
            r@.len() == i,
            forall|k: int| 0 <= k < i ==> cloned::<T>(v@[k], #[trigger] r@[k]),
        decreases v.len() - i,
    {
        r.push(v[i].clone());
        i += 1;
    }
    r
}

impl Clone for Data {
    fn clone(&self) -> (r: Self)
        ensures
            r.version == self.version,
            task_views(r.tasks@) == task_views(self.tasks@),
            r.settings == self.settings,
            notice_views(r.notices@) == notice_views(self.notices@),
            r.last_account == self.last_account,
            r.pending@ == self.pending@,
            r.remote_ids@ == self.remote_ids@,
            r.last_sync == self.last_sync,
    {
        let tasks = clone_vec(&self.tasks);
        let notices = clone_vec(&self.notices);
        assert(task_views(tasks@) =~= task_views(self.tasks@));
        assert(notice_views(notices@) =~= notice_views(self.notices@));
        Data {
            version: self.version,
            tasks,
            settings: self.settings,
            notices,
            account: match &self.account {
                None => None,
                Some(a) => Some(a.clone()),
            },
            last_account: self.last_account,
            pending: self.pending.clone(),
            remote_ids: self.remote_ids.clone(),
            last_sync: self.last_sync,
            groups: clone_vec(&self.groups),
            profiles: clone_vec(&self.profiles),
        }
    }
}

impl Default for Data {
    fn default() -> (r: Data)
        ensures
            r.version == DATA_VERSION,
            r.tasks@.len() == 0,
            r.settings == (Settings { auto_launch: false, theme: Theme::Dark, start_minimized: false }),
            r.notices@.len() == 0,
            r.account is None,
            r.last_account is None,
            r.pending@.len() == 0,
            r.remote_ids@.len() == 0,
            r.last_sync is None,
            r.groups@.len() == 0,
            r.profiles@.len() == 0,
    {
        Data {
            version: DATA_VERSION,
            tasks: Vec::new(),
            settings: Settings::default(),
            notices: Vec::new(),
            account: None,
            last_account: None,
            pending: Vec::new(),
            remote_ids: Vec::new(),
            last_sync: None,
            groups: Vec::new(),
            profiles: Vec::new(),
        }
    }
}

/// An upload queue entry that a sync turn finished with (sent, found stale or rejected).
pub struct Sent {
    pub op: PendingOp,
    /// The task as it was sent (`Upsert` only).
    pub snapshot: Option<Task>,
    /// The server has the task now (an accepted or stale `Upsert`).
    pub uploaded: bool,
}

/// What the task form edits. `reminder` is (next trigger, repeat).
pub struct TaskDraft {
    pub title: String,
    pub description: String,
    pub priority: Priority,
    pub status: Status,
    pub due_date: Option<Millis>,
    pub reminder: Option<(Millis, Repeat)>,
    pub tags: Vec<String>,
    pub subtasks: Vec<SubTask>,
    pub group_id: Option<Id>,
    pub assignee_id: Option<Id>,
    pub recurrence: Option<Recurrence>,
}

/// What a draft holds, as plain values.
#[verifier::ext_equal]
pub struct DraftView {
    pub title: Seq<char>,
    pub description: Seq<char>,
    pub priority: Priority,
    pub status: Status,
    pub due_date: Option<Millis>,
    pub reminder: Option<(Millis, Repeat)>,
    pub tags: Seq<Seq<char>>,
    pub subtasks: Seq<SubTaskView>,
    pub group_id: Option<Id>,
    pub assignee_id: Option<Id>,
    pub recurrence: Option<RecurrenceView>,
}

impl View for TaskDraft {
    type V = DraftView;

    open spec fn view(&self) -> DraftView {
        DraftView {
            title: self.title@,
            description: self.description@,
            priority: self.priority,
            status: self.status,
            due_date: self.due_date,
            reminder: self.reminder,
            tags: string_views(self.tags@),
            subtasks: subtask_views(self.subtasks@),
            group_id: self.group_id,
            assignee_id: self.assignee_id,
            recurrence: recurrence_view(self.recurrence),
        }
    }
}

impl Default for TaskDraft {
    fn default() -> (r: TaskDraft)
        ensures
            r.title@.len() == 0,
            r.description@.len() == 0,
            r.priority == Priority::Low,
            r.status == Status::Pending,
            r.due_date is None,
            r.reminder is None,
            r.tags@.len() == 0,
            r.subtasks@.len() == 0,
            r.group_id is None,
            r.assignee_id is None,
            r.recurrence is None,
    {
        TaskDraft {
            title: String::new(),
            description: String::new(),
            priority: Priority::Low,
            status: Status::Pending,
            due_date: None,
            reminder: None,
            tags: Vec::new(),
            subtasks: Vec::new(),
            group_id: None,
            assignee_id: None,
            recurrence: None,
        }
    }
}

/// The form's view of a task: its enabled reminder only, as (next trigger, repeat).
pub open spec fn draft_reminder_of(r: Option<Reminder>) -> Option<(Millis, Repeat)> {
    match r {
        Some(r) => if r.enabled {
            Some((r.next_trigger, r.repeat))
        } else {
            None
        },
        None => None,
    }
}

impl TaskDraft {
    pub fn from_task(t: &Task) -> (r: TaskDraft)
        ensures
            r.title@ == t.title@,
            r.description@ == t.description@,
            r.priority == t.priority,
            r.status == t.status,
            r.due_date == t.due_date,
            r.reminder == draft_reminder_of(t.reminder),
            string_views(r.tags@) == string_views(t.tags@),
            subtask_views(r.subtasks@) == subtask_views(t.subtasks@),
            r.group_id == t.group_id,
            r.assignee_id == t.assignee_id,
            recurrence_view(r.recurrence) == recurrence_view(t.recurrence),
    {
        TaskDraft {
            title: t.title.clone(),
            description: t.description.clone(),
            priority: t.priority,
            status: t.status,
            due_date: t.due_date,
            reminder: match t.reminder {
                Some(r) => if r.enabled {
                    Some((r.next_trigger, r.repeat))
                } else {
                    None
                },
                None => None,
            },
            tags: clone_strings(&t.tags),
            subtasks: clone_subtasks(&t.subtasks),
            group_id: t.group_id,
            assignee_id: t.assignee_id,
            recurrence: match &t.recurrence {
                None => None,
                Some(r) => Some(r.clone()),
            },
        }
    }
}

#[derive(Clone, Copy, Debug, PartialEq, Eq, Structural)]
pub enum DataError {
    EmptyTitle,
    NotFound,
}

impl DataError {
    pub open spec fn spec_message(self) -> Seq<char> {
        match self {
            DataError::EmptyTitle => "Başlık boş olamaz"@,
            DataError::NotFound => "Görev bulunamadı"@,
        }
    }

    /// The message shown to the user.
    pub fn message(self) -> (r: &'static str)
        ensures
            r@ == self.spec_message(),
    {
        match self {
            DataError::EmptyTitle => "Başlık boş olamaz",
            DataError::NotFound => "Görev bulunamadı",
        }
    }
}

// ----- task lookup -----

/// A task title as stored: the given text without surrounding whitespace, which must not
/// be empty.
pub fn clean_title(title: &str) -> (r: Result<String, DataError>)
    ensures
        spec_trim(title@).len() == 0 <==> r == Err::<String, DataError>(DataError::EmptyTitle),
        r matches Ok(t) ==> t@ == spec_trim(title@),
        r matches Err(e) ==> e == DataError::EmptyTitle,
{
    let t = owned(trim(title));
    if t.as_str().is_empty() {
        Err(DataError::EmptyTitle)
    } else {
        Ok(t)
    }
}

/// `i` is the first position of a task with id `id`.
pub open spec fn first_with_id(tasks: Seq<Task>, id: Id, i: int) -> bool {
    &&& 0 <= i < tasks.len()
    &&& tasks[i].id == id
    &&& forall|j: int| 0 <= j < i ==> tasks[j].id != id
}

pub open spec fn has_id(tasks: Seq<Task>, id: Id) -> bool {
    exists|i: int| 0 <= i < tasks.len() && tasks[i].id == id
}

pub fn find_task(tasks: &Vec<Task>, id: Id) -> (r: Option<usize>)
    ensures
        match r {
            Some(i) => first_with_id(tasks@, id, i as int),
            None => !has_id(tasks@, id),
        },
{
    let mut i: usize = 0;
    while i < tasks.len()
        invariant
            i <= tasks.len(),
            forall|j: int| 0 <= j < i ==> tasks@[j].id != id,
        decreases tasks.len() - i,
    {
        if tasks[i].id == id {
            return Some(i);
        }
        i += 1;
    }
    None
}

/// The new task's reminder: enabled, first and next trigger at `at`.
pub open spec fn spec_new_reminder(at: Millis, repeat: Repeat) -> Reminder {
    Reminder { date_time: at, repeat, enabled: true, next_trigger: at }
}

fn new_reminder(at: Millis, repeat: Repeat) -> (r: Reminder)
    ensures
        r == spec_new_reminder(at, repeat),
{
    Reminder { date_time: at, repeat, enabled: true, next_trigger: at }
}

/// Tags trimmed, without empty ones and duplicates (first occurrence wins).
pub open spec fn spec_clean_tags(tags: Seq<Seq<char>>) -> Seq<Seq<char>>
    decreases tags.len(),
{
    if tags.len() == 0 {
        Seq::empty()
    } else {
        let kept = spec_clean_tags(tags.drop_last());
        let tag = spec_trim(tags.last());
        if tag.len() > 0 && !kept.contains(tag) {
            kept.push(tag)
        } else {
            kept
        }
    }
}

/// Cleaned tags are non-empty, trimmed and unique.
pub proof fn lemma_clean_tags(tags: Seq<Seq<char>>)
    ensures
        spec_clean_tags(tags).no_duplicates(),
        forall|i: int| 0 <= i < spec_clean_tags(tags).len() ==> #[trigger] spec_clean_tags(tags)[i].len() > 0,
    decreases tags.len(),
{
    if tags.len() > 0 {
        lemma_clean_tags(tags.drop_last());
    }
}

pub fn contains_string(v: &Vec<String>, s: &String) -> (r: bool)
    ensures
        r == string_views(v@).contains(s@),
{
    let mut i: usize = 0;
    while i < v.len()
        invariant
            i <= v.len(),
            forall|j: int| 0 <= j < i ==> v@[j]@ != s@,
        decreases v.len() - i,
    {
        if v[i] == *s {
            assert(string_views(v@)[i as int] == s@);
            return true;
        }
        i += 1;
    }
    proof {
        if string_views(v@).contains(s@) {
            let k = choose|k: int| 0 <= k < string_views(v@).len() && string_views(v@)[k] == s@;
            assert(v@[k]@ == s@);
        }
    }
    false
}

/// Trims tags and drops empty ones and duplicates (first occurrence wins).
pub fn clean_tags(tags: Vec<String>) -> (r: Vec<String>)
    ensures
        string_views(r@) == spec_clean_tags(string_views(tags@)),
{
    let mut out: Vec<String> = Vec::new();
    let mut i: usize = 0;
    while i < tags.len()
        invariant
            i <= tags.len(),
            string_views(out@) == spec_clean_tags(string_views(tags@).subrange(0, i as int)),
        decreases tags.len() - i,
    {
        let tag = owned(trim(tags[i].as_str()));
        let ghost prefix = string_views(tags@).subrange(0, i as int + 1);
        assert(prefix.drop_last() =~= string_views(tags@).subrange(0, i as int));
        assert(prefix.last() == tags@[i as int]@);
        if !tag.as_str().is_empty() && !contains_string(&out, &tag) {
            out.push(tag);
            assert(string_views(out@) =~= spec_clean_tags(prefix));
        }
        i += 1;
    }
    assert(string_views(tags@).subrange(0, tags.len() as int) =~= string_views(tags@));
    out
}

/// Position of a new task: one past the largest order in use, or 0 when there are no tasks.
pub open spec fn next_order(tasks: Seq<Task>) -> int
    decreases tasks.len(),
{
    if tasks.len() == 0 {
        0
    } else if tasks.len() == 1 {
        tasks[0].order + 1
    } else {
        let rest = next_order(tasks.drop_last());
        let own = tasks.last().order + 1;
        if own > rest {
            own
        } else {
            rest
        }
    }
}

pub open spec fn orders_below_max(tasks: Seq<Task>) -> bool {
    forall|i: int| 0 <= i < tasks.len() ==> #[trigger] tasks[i].order < i64::MAX
}

proof fn lemma_next_order_bounds(tasks: Seq<Task>)
    requires
        orders_below_max(tasks),
    ensures
        i64::MIN < next_order(tasks) <= i64::MAX,
        forall|i: int| 0 <= i < tasks.len() ==> #[trigger] tasks[i].order < next_order(tasks),
        tasks.len() == 0 ==> next_order(tasks) == 0,
        tasks.len() > 0 ==> exists|i: int| 0 <= i < tasks.len() && next_order(tasks) == #[trigger] tasks[i].order + 1,
    decreases tasks.len(),
{
    if tasks.len() == 1 {
        assert(next_order(tasks) == tasks[0].order + 1);
    } else if tasks.len() > 1 {
        let init = tasks.drop_last();
        lemma_next_order_bounds(init);
        assert forall|i: int| 0 <= i < tasks.len() implies #[trigger] tasks[i].order < next_order(tasks) by {
            if i < tasks.len() - 1 {
                assert(init[i] == tasks[i]);
            }
        }
        let k = choose|k: int| 0 <= k < init.len() && next_order(init) == #[trigger] init[k].order + 1;
        assert(tasks[k] == init[k]);
        assert(tasks[tasks.len() - 1] == tasks.last());
    }
}

/// The assignee kept with a draft: only a group task has one.
pub open spec fn kept_assignee(group: Option<Id>, assignee: Option<Id>) -> Option<Id> {
    if group is Some {
        assignee
    } else {
        None
    }
}

/// The task `add_task` creates from `d`.
pub open spec fn drafted_task(id: Id, d: DraftView, order: int, now: Millis) -> TaskView {
    TaskView {
        id,
        title: spec_trim(d.title),
        description: d.description,
        priority: d.priority,
        status: d.status,
        reminder: match d.reminder {
            None => None,
            Some((at, repeat)) => Some(spec_new_reminder(at, repeat)),
        },
        subtasks: d.subtasks,
        tags: spec_clean_tags(d.tags),
        order: order as i64,
        due_date: d.due_date,
        created_at: now,
        updated_at: now,
        owner_id: None,
        group_id: d.group_id,
        assignee_id: kept_assignee(d.group_id, d.assignee_id),
        recurrence: d.recurrence,
    }
}

/// The reminder an edit leaves: none, the old one when the form did not change it, or a new one.
pub open spec fn edited_reminder(old: Option<Reminder>, drafted: Option<(Millis, Repeat)>) -> Option<
    Reminder,
> {
    match drafted {
        None => None,
        Some((at, repeat)) => match old {
            Some(r) => if r.enabled && r.next_trigger == at && r.repeat == repeat {
                Some(r)
            } else {
                Some(spec_new_reminder(at, repeat))
            },
            None => Some(spec_new_reminder(at, repeat)),
        },
    }
}

/// `t` after `update_task` applied `d` at `now`: identity, position, creation time and owner stay.
pub open spec fn edited_task(t: TaskView, d: DraftView, now: Millis) -> TaskView {
    TaskView {
        id: t.id,
        title: spec_trim(d.title),
        description: d.description,
        priority: d.priority,
        status: d.status,
        reminder: edited_reminder(t.reminder, d.reminder),
        subtasks: d.subtasks,
        tags: spec_clean_tags(d.tags),
        order: t.order,
        due_date: d.due_date,
        created_at: t.created_at,
        updated_at: now,
        owner_id: t.owner_id,
        group_id: d.group_id,
        assignee_id: kept_assignee(d.group_id, d.assignee_id),
        recurrence: d.recurrence,
    }
}

/// The tasks after moving the one at `from` to position `to`, renumbered by position.
pub open spec fn moved(tasks: Seq<TaskView>, from: int, to: int) -> Seq<TaskView> {
    let m = tasks.remove(from).insert(to, tasks[from]);
    Seq::new(m.len(), |i: int| TaskView { order: i as i64, ..m[i] })
}

/// Number of unread notices.
pub open spec fn unread_count(notices: Seq<Notice>) -> nat
    decreases notices.len(),
{
    if notices.len() == 0 {
        0
    } else {
        unread_count(notices.drop_last()) + if notices.last().read {
            0nat
        } else {
            1nat
        }
    }
}

pub open spec fn notice_views(s: Seq<Notice>) -> Seq<NoticeView> {
    s.map_values(|n: Notice| n@)
}

/// Everything but the tasks is unchanged.
pub open spec fn same_but_tasks(a: &Data, b: &Data) -> bool {
    &&& a.version == b.version
    &&& a.settings == b.settings
    &&& a.notices == b.notices
    &&& a.account == b.account
    &&& a.last_account == b.last_account
    &&& a.pending == b.pending
    &&& a.remote_ids == b.remote_ids
    &&& a.last_sync == b.last_sync
    &&& a.groups == b.groups
    &&& a.profiles == b.profiles
}

/// Everything but the notices is unchanged.
pub open spec fn same_but_notices(a: &Data, b: &Data) -> bool {
    &&& a.version == b.version
    &&& a.tasks == b.tasks
    &&& a.settings == b.settings
    &&& a.account == b.account
    &&& a.last_account == b.last_account
    &&& a.pending == b.pending
    &&& a.remote_ids == b.remote_ids
    &&& a.last_sync == b.last_sync
    &&& a.groups == b.groups
    &&& a.profiles == b.profiles
}

/// The first profile with id `id`.
pub open spec fn first_profile(ps: Seq<Profile>, id: Id) -> Option<Profile>
    decreases ps.len(),
{
    if ps.len() == 0 {
        None
    } else if ps[0].id == id {
        Some(ps[0])
    } else {
        first_profile(ps.drop_first(), id)
    }
}

impl Data {
    pub fn task(&self, id: Id) -> (r: Option<&Task>)
        ensures
            match r {
                Some(t) => exists|i: int| first_with_id(self.tasks@, id, i) && *t == self.tasks@[i],
                None => !has_id(self.tasks@, id),
            },
    {
        match find_task(&self.tasks, id) {
            Some(i) => Some(&self.tasks[i]),
            None => None,
        }
    }

    pub open spec fn spec_me(&self) -> Option<Id> {
        match self.account {
            Some(a) => Some(a.id),
            None => None,
        }
    }

    /// The signed-in account's id.
    pub fn me(&self) -> (r: Option<Id>)
        ensures
            r == self.spec_me(),
    {
        match &self.account {
            Some(a) => Some(a.id),
            None => None,
        }
    }

    pub fn group(&self, id: Id) -> (r: Option<&Group>)
        ensures
            match r {
                Some(g) => exists|i: int|
                    0 <= i < self.groups@.len() && *g == self.groups@[i] && g.id == id && forall|j: int|
                        0 <= j < i ==> #[trigger] self.groups@[j].id != id,
                None => forall|i: int| 0 <= i < self.groups@.len() ==> #[trigger] self.groups@[i].id != id,
            },
    {
        let mut i: usize = 0;
        while i < self.groups.len()
            invariant
                i <= self.groups.len(),
                forall|j: int| 0 <= j < i ==> #[trigger] self.groups@[j].id != id,
            decreases self.groups.len() - i,
        {
            if self.groups[i].id == id {
                return Some(&self.groups[i]);
            }
            i += 1;
        }
        None
    }

    /// The profile of `id`: the account itself, or the first of the known people with that id.
    pub open spec fn spec_profile(&self, id: Id) -> Option<Profile> {
        if self.account matches Some(a) && a.id == id {
            self.account
        } else {
            first_profile(self.profiles@, id)
        }
    }

    /// Name and avatar of a user: the account itself or someone sharing a group with it.
    pub fn profile(&self, id: Id) -> (r: Option<&Profile>)
        ensures
            match r {
                Some(p) => Some(*p) == self.spec_profile(id) && p.id == id,
                None => self.spec_profile(id) is None,
            },
    {
        if let Some(a) = &self.account {
            if a.id == id {
                return Some(a);
            }
        }
        let ghost all = self.profiles@;
        assert(all.subrange(0, all.len() as int) =~= all);
        let mut i: usize = 0;
        while i < self.profiles.len()
            invariant
                i <= self.profiles.len(),
                all == self.profiles@,
                first_profile(all, id) == first_profile(all.subrange(i as int, all.len() as int), id),
                !(self.account matches Some(a) && a.id == id),
            decreases self.profiles.len() - i,
        {
            let ghost rest = all.subrange(i as int, all.len() as int);
            assert(rest.drop_first() =~= all.subrange(i as int + 1, all.len() as int));
            if self.profiles[i].id == id {
                return Some(&self.profiles[i]);
            }
            i += 1;
        }
        None
    }

    /// Adds a task at the end of the list and returns its id.
    pub fn add_task(&mut self, draft: TaskDraft, now: Millis) -> (r: Result<Id, DataError>)
        requires
            orders_below_max(old(self).tasks@),
        ensures
            spec_trim(draft.title@).len() == 0 <==> r == Err::<Id, DataError>(DataError::EmptyTitle),
            r is Ok <==> spec_trim(draft.title@).len() > 0,
            r is Err ==> *final(self) == *old(self),
            in_display_order(old(self).tasks@) ==> in_display_order(final(self).tasks@),
            r matches Ok(id) ==> {
                let t = final(self).tasks@[old(self).tasks@.len() as int]@;
                &&& final(self).tasks@.len() == old(self).tasks@.len() + 1
                &&& forall|k: int| 0 <= k < old(self).tasks@.len() ==> #[trigger] final(self).tasks@[k]@ == old(self).tasks@[k]@
                &&& t.id == id
                &&& t.title == spec_trim(draft.title@)
                &&& t.description == draft.description@
                &&& t.priority == draft.priority
                &&& t.status == draft.status
                &&& t.due_date == draft.due_date
                &&& t.subtasks == subtask_views(draft.subtasks@)
                &&& t.tags == spec_clean_tags(string_views(draft.tags@))
                &&& t.group_id == draft.group_id
                &&& t.assignee_id == (if draft.group_id is Some { draft.assignee_id } else { None })
                &&& t.recurrence == recurrence_view(draft.recurrence)
                &&& t.updated_at == now
                &&& t.created_at == now
                &&& t.owner_id is None
                &&& t.order == next_order(old(self).tasks@)
                &&& t.reminder == (match draft.reminder {
                    None => None,
                    Some((at, repeat)) => Some(Reminder { date_time: at, repeat, enabled: true, next_trigger: at }),
                })
            },
            r matches Ok(id) ==> {
                &&& task_views(final(self).tasks@) == task_views(old(self).tasks@).push(
                    drafted_task(id, draft@, next_order(old(self).tasks@), now),
                )
                &&& same_but_tasks(final(self), old(self))
            },
    {
        let title = match clean_title(draft.title.as_str()) {
            Ok(t) => t,
            Err(e) => return Err(e),
        };
        let order = self.next_order();
        let reminder = match draft.reminder {
            Some((at, repeat)) => Some(new_reminder(at, repeat)),
            None => None,
        };
        let assignee_id = if draft.group_id.is_some() {
            draft.assignee_id
        } else {
            None
        };
        let task = Task {
            id: new_id(),
            title,
            description: draft.description,
            priority: draft.priority,
            status: draft.status,
            reminder,
            subtasks: draft.subtasks,
            tags: clean_tags(draft.tags),
            order,
            due_date: draft.due_date,
            created_at: now,
            updated_at: now,
            owner_id: None,
            group_id: draft.group_id,
            assignee_id,
            recurrence: draft.recurrence,
        };
        let id = task.id;
        self.tasks.push(task);
        assert(task_views(self.tasks@) =~= task_views(old(self).tasks@).push(
            drafted_task(id, draft@, next_order(old(self).tasks@), now),
        ));
        proof {
            law_new_task_goes_last(old(self).tasks@);
            let v = task_views(old(self).tasks@);
            if sorted_by_order(v) {
                assert forall|k: int| 0 <= k < v.len() implies #[trigger] v[k].order <= next_order(
                    old(self).tasks@,
                ) as i64 by {
                    assert(v[k] == old(self).tasks@[k]@);
                }
                lemma_push_in_order(v, drafted_task(id, draft@, next_order(old(self).tasks@), now));
            }
        }
        Ok(id)
    }

    fn next_order(&self) -> (r: i64)
        requires
            orders_below_max(self.tasks@),
        ensures
            r == next_order(self.tasks@),
    {
        if self.tasks.len() == 0 {
            return 0;
        }
        assert(self.tasks@[0].order < i64::MAX);
        let mut best: i64 = self.tasks[0].order + 1;
        let mut i: usize = 1;
        assert(self.tasks@.subrange(0, 1).len() == 1);
        while i < self.tasks.len()
            invariant
                1 <= i <= self.tasks.len(),
                orders_below_max(self.tasks@),
                best == next_order(self.tasks@.subrange(0, i as int)),
            decreases self.tasks.len() - i,
        {
            let ghost prefix = self.tasks@.subrange(0, i as int + 1);
            assert(prefix.drop_last() =~= self.tasks@.subrange(0, i as int));
            assert(prefix.last() == self.tasks@[i as int]);
            assert(self.tasks@[i as int].order < i64::MAX);
            let own = self.tasks[i].order + 1;
            if own > best {
                best = own;
            }
            i += 1;
        }
        assert(self.tasks@.subrange(0, self.tasks.len() as int) =~= self.tasks@);
        best
    }

    pub fn update_task(&mut self, id: Id, draft: TaskDraft, now: Millis) -> (r: Result<(), DataError>)
        ensures
            r == Err::<(), DataError>(DataError::EmptyTitle) <==> spec_trim(draft.title@).len() == 0,
            r == Err::<(), DataError>(DataError::NotFound) <==> (spec_trim(draft.title@).len() > 0
                && !has_id(old(self).tasks@, id)),
            r is Err ==> *final(self) == *old(self),
            r is Ok ==> exists|i: int|
                first_with_id(old(self).tasks@, id, i) && task_views(final(self).tasks@) == task_views(
                    old(self).tasks@,
                ).update(i, edited_task(old(self).tasks@[i]@, draft@, now)),
            r is Ok ==> exists|i: int| #[trigger] first_with_id(old(self).tasks@, id, i) && {
                let t = final(self).tasks@[i]@;
                let before = old(self).tasks@[i]@;
                &&& final(self).tasks@.len() == old(self).tasks@.len()
                &&& forall|k: int| 0 <= k < old(self).tasks@.len() && k != i ==> #[trigger] final(self).tasks@[k]@ == old(self).tasks@[k]@
                &&& t.id == id
                &&& t.title == spec_trim(draft.title@)
                &&& t.description == draft.description@
                &&& t.priority == draft.priority
                &&& t.status == draft.status
                &&& t.due_date == draft.due_date
                &&& t.subtasks == subtask_views(draft.subtasks@)
                &&& t.tags == spec_clean_tags(string_views(draft.tags@))
                &&& t.group_id == draft.group_id
                &&& t.assignee_id == (if draft.group_id is Some { draft.assignee_id } else { None })
                &&& t.recurrence == recurrence_view(draft.recurrence)
                &&& t.updated_at == now
                &&& t.created_at == before.created_at
                &&& t.owner_id == before.owner_id
                &&& t.order == before.order
                &&& t.reminder == (match draft.reminder {
                    None => None,
                    Some((at, repeat)) => if (before.reminder matches Some(r) && r.enabled && r.next_trigger == at
                        && r.repeat == repeat) {
                        before.reminder
                    } else {
                        Some(Reminder { date_time: at, repeat, enabled: true, next_trigger: at })
                    },
                })
            },
            in_display_order(old(self).tasks@) ==> in_display_order(final(self).tasks@),

            same_but_tasks(final(self), old(self)),
    {
        let title = match clean_title(draft.title.as_str()) {
            Ok(t) => t,
            Err(e) => return Err(e),
        };
        let i = match find_task(&self.tasks, id) {
            Some(i) => i,
            None => return Err(DataError::NotFound),
        };
        let reminder = match draft.reminder {
            None => None,
            Some((at, repeat)) => match self.tasks[i].reminder {
                Some(r) => if r.enabled && r.next_trigger == at && r.repeat == repeat {
                    Some(r)
                } else {
                    Some(new_reminder(at, repeat))
                },
                None => Some(new_reminder(at, repeat)),
            },
        };
        let assignee_id = if draft.group_id.is_some() {
            draft.assignee_id
        } else {
            None
        };
        let old_task = &self.tasks[i];
        let task = Task {
            id: old_task.id,
            title,
            description: draft.description,
            priority: draft.priority,
            status: draft.status,
            reminder,
            subtasks: draft.subtasks,
            tags: clean_tags(draft.tags),
            order: old_task.order,
            due_date: draft.due_date,
            created_at: old_task.created_at,
            updated_at: now,
            owner_id: old_task.owner_id,
            group_id: draft.group_id,
            assignee_id,
            recurrence: draft.recurrence,
        };
        self.tasks.set(i, task);
        assert(task_views(self.tasks@) =~= task_views(old(self).tasks@).update(
            i as int,
            edited_task(old(self).tasks@[i as int]@, draft@, now),
        ));
        proof {
            if in_display_order(old(self).tasks@) {
                lemma_update_in_order(
                    task_views(old(self).tasks@),
                    i as int,
                    edited_task(old(self).tasks@[i as int]@, draft@, now),
                );
            }
        }
        Ok(())
    }

    pub fn set_status(&mut self, id: Id, status: Status, now: Millis) -> (r: Result<(), DataError>)
        ensures
            r is Err <==> !has_id(old(self).tasks@, id),
            r is Err ==> r == Err::<(), DataError>(DataError::NotFound) && *final(self) == *old(self),
            r is Ok ==> exists|i: int|
                first_with_id(old(self).tasks@, id, i) && task_views(final(self).tasks@) == task_views(
                    old(self).tasks@,
                ).update(
                    i,
                    if old(self).tasks@[i].status == status {
                        old(self).tasks@[i]@
                    } else {
                        TaskView { status, updated_at: now, ..old(self).tasks@[i]@ }
                    },
                ),
            in_display_order(old(self).tasks@) ==> in_display_order(final(self).tasks@),
            same_but_tasks(final(self), old(self)),
    {
        let i = match find_task(&self.tasks, id) {
            Some(i) => i,
            None => return Err(DataError::NotFound),
        };
        if self.tasks[i].status != status {
            let mut task = self.tasks[i].clone();
            task.status = status;
            task.updated_at = now;
            self.tasks.set(i, task);
            assert(task_views(self.tasks@) =~= task_views(old(self).tasks@).update(
                i as int,
                TaskView { status, updated_at: now, ..old(self).tasks@[i as int]@ },
            ));
        } else {
            assert(task_views(self.tasks@) =~= task_views(old(self).tasks@).update(
                i as int,
                old(self).tasks@[i as int]@,
            ));
        }
        proof {
            if in_display_order(old(self).tasks@) {
                let t = old(self).tasks@[i as int]@;
                let y = if t.status == status {
                    t
                } else {
                    TaskView { status, updated_at: now, ..t }
                };
                lemma_update_in_order(task_views(old(self).tasks@), i as int, y);
            }
        }
        Ok(())
    }

    /// Sets a task's priority; `updated_at` moves only when the priority changes.
    pub fn set_priority(&mut self, id: Id, priority: Priority, now: Millis) -> (r: Result<(), DataError>)
        ensures
            r is Err <==> !has_id(old(self).tasks@, id),
            r is Err ==> r == Err::<(), DataError>(DataError::NotFound) && *final(self) == *old(self),
            r is Ok ==> exists|i: int|
                first_with_id(old(self).tasks@, id, i) && task_views(final(self).tasks@) == task_views(
                    old(self).tasks@,
                ).update(
                    i,
                    if old(self).tasks@[i].priority == priority {
                        old(self).tasks@[i]@
                    } else {
                        TaskView { priority, updated_at: now, ..old(self).tasks@[i]@ }
                    },
                ),
            in_display_order(old(self).tasks@) ==> in_display_order(final(self).tasks@),
            same_but_tasks(final(self), old(self)),
    {
        let i = match find_task(&self.tasks, id) {
            Some(i) => i,
            None => return Err(DataError::NotFound),
        };
        if self.tasks[i].priority != priority {
            let mut task = self.tasks[i].clone();
            task.priority = priority;
            task.updated_at = now;
            self.tasks.set(i, task);
            assert(task_views(self.tasks@) =~= task_views(old(self).tasks@).update(
                i as int,
                TaskView { priority, updated_at: now, ..old(self).tasks@[i as int]@ },
            ));
        } else {
            assert(task_views(self.tasks@) =~= task_views(old(self).tasks@).update(
                i as int,
                old(self).tasks@[i as int]@,
            ));
        }
        proof {
            if in_display_order(old(self).tasks@) {
                let t = old(self).tasks@[i as int]@;
                let y = if t.priority == priority {
                    t
                } else {
                    TaskView { priority, updated_at: now, ..t }
                };
                lemma_update_in_order(task_views(old(self).tasks@), i as int, y);
            }
        }
        Ok(())
    }

    /// Removes every task with id `id`.
    pub fn delete_task(&mut self, id: Id) -> (r: Result<(), DataError>)
        ensures
            r is Err <==> !has_id(old(self).tasks@, id),
            r is Err ==> r == Err::<(), DataError>(DataError::NotFound),
            task_views(final(self).tasks@) == task_views(old(self).tasks@).filter(
                |t: TaskView| t.id != id,
            ),
            !has_id(final(self).tasks@, id),
            in_display_order(old(self).tasks@) ==> in_display_order(final(self).tasks@),
            same_but_tasks(final(self), old(self)),
    {
        let before = self.tasks.len();
        let ghost old_views = task_views(self.tasks@);
        let mut kept: Vec<Task> = Vec::new();
        let mut i: usize = 0;
        while i < self.tasks.len()
            invariant
                i <= self.tasks.len(),
                self.tasks == old(self).tasks,
                old_views == task_views(self.tasks@),
                task_views(kept@) == old_views.subrange(0, i as int).filter(|t: TaskView| t.id != id),
                forall|j: int| 0 <= j < kept@.len() ==> #[trigger] kept@[j].id != id,
            decreases self.tasks.len() - i,
        {
            let ghost prefix = old_views.subrange(0, i as int + 1);
            assert(prefix.drop_last() =~= old_views.subrange(0, i as int));
            reveal(Seq::filter);
            if self.tasks[i].id != id {
                kept.push(self.tasks[i].clone());
                assert(task_views(kept@) =~= prefix.filter(|t: TaskView| t.id != id));
            } else {
                assert(prefix.filter(|t: TaskView| t.id != id) == old_views.subrange(0, i as int).filter(
                    |t: TaskView| t.id != id,
                ));
            }
            i += 1;
        }
        assert(old_views.subrange(0, self.tasks.len() as int) =~= old_views);
        let removed = kept.len() != before;
        self.tasks = kept;
        proof {
            if sorted_by_order(old_views) {
                lemma_filter_in_order(old_views, |t: TaskView| t.id != id);
            }
        }
        proof {
            if removed {
                assert(has_id(old(self).tasks@, id)) by {
                    if !has_id(old(self).tasks@, id) {
                        assert(old_views.filter(|t: TaskView| t.id != id) == old_views) by {
                            lemma_filter_all(old_views, |t: TaskView| t.id != id);
                        }
                    }
                }
            } else {
                if has_id(old(self).tasks@, id) {
                    let k = choose|k: int| 0 <= k < old(self).tasks@.len() && old(self).tasks@[k].id == id;
                    lemma_filter_shorter(old_views, |t: TaskView| t.id != id, k);
                }
            }
        }
        if removed {
            Ok(())
        } else {
            Err(DataError::NotFound)
        }
    }

    /// Drag & drop: `id` takes the position of `target` and `order` is renumbered.
    pub fn move_to(&mut self, id: Id, target: Id) -> (r: Result<(), DataError>)
        requires
            old(self).tasks@.len() <= i64::MAX,
        ensures
            r is Err <==> !has_id(old(self).tasks@, id) || !has_id(old(self).tasks@, target),
            r is Err ==> r == Err::<(), DataError>(DataError::NotFound) && *final(self) == *old(self),
            r is Ok ==> exists|from: int, to: int|
                first_with_id(old(self).tasks@, id, from) && first_with_id(old(self).tasks@, target, to)
                    && task_views(final(self).tasks@) == moved(task_views(old(self).tasks@), from, to),
            r is Ok ==> in_display_order(final(self).tasks@),
            in_display_order(old(self).tasks@) ==> in_display_order(final(self).tasks@),
            same_but_tasks(final(self), old(self)),
    {
        let from = match find_task(&self.tasks, id) {
            Some(i) => i,
            None => return Err(DataError::NotFound),
        };
        let to = match find_task(&self.tasks, target) {
            Some(i) => i,
            None => return Err(DataError::NotFound),
        };
        let ghost m = task_views(old(self).tasks@).remove(from as int).insert(
            to as int,
            task_views(old(self).tasks@)[from as int],
        );
        let task = self.tasks.remove(from);
        self.tasks.insert(to, task);
        assert(task_views(self.tasks@) =~= m);
        let mut i: usize = 0;
        while i < self.tasks.len()
            invariant
                i <= self.tasks.len(),
                self.tasks@.len() == m.len(),
                m.len() == old(self).tasks@.len(),
                m.len() <= i64::MAX,
                forall|j: int|
                    0 <= j < i ==> #[trigger] self.tasks@[j]@ == (TaskView { order: j as i64, ..m[j] }),
                forall|j: int| i <= j < m.len() ==> #[trigger] self.tasks@[j]@ == m[j],
                same_but_tasks(self, old(self)),
            decreases self.tasks.len() - i,
        {
            let mut t = self.tasks[i].clone();
            t.order = i as i64;
            self.tasks.set(i, t);
            i += 1;
        }
        assert(task_views(self.tasks@) =~= moved(task_views(old(self).tasks@), from as int, to as int));
        proof {
            law_move_keeps_tasks_and_numbers_them(task_views(old(self).tasks@), from as int, to as int);
        }
        Ok(())
    }

    /// Adds a notice at the top of the history, dropping the oldest beyond `MAX_NOTICES`.
    pub fn record_notice(&mut self, notice: Notice)
        ensures
            final(self).notices@ == old(self).notices@.insert(0, notice).take(
                if old(self).notices@.len() + 1 > MAX_NOTICES {
                    MAX_NOTICES as int
                } else {
                    old(self).notices@.len() + 1int
                },
            ),
            final(self).notices@.len() <= MAX_NOTICES,
            final(self).notices@[0] == notice,
            same_but_notices(final(self), old(self)),
    {
        self.notices.insert(0, notice);
        self.notices.truncate(MAX_NOTICES);
        assert(self.notices@ =~= old(self).notices@.insert(0, notice).take(
            if old(self).notices@.len() + 1 > MAX_NOTICES {
                MAX_NOTICES as int
            } else {
                old(self).notices@.len() + 1int
            },
        ));
    }

    /// Marks the first notice with id `id` read.
    pub fn mark_notice_read(&mut self, id: Id)
        ensures
            final(self).notices@.len() == old(self).notices@.len(),
            forall|i: int|
                0 <= i < old(self).notices@.len() ==> #[trigger] final(self).notices@[i]@ == if (
                old(self).notices@[i].id == id && forall|j: int|
                    0 <= j < i ==> old(self).notices@[j].id != id) {
                    NoticeView { read: true, ..old(self).notices@[i]@ }
                } else {
                    old(self).notices@[i]@
                },
            same_but_notices(final(self), old(self)),
    {
        let mut i: usize = 0;
        while i < self.notices.len()
            invariant
                i <= self.notices.len(),
                self.notices == old(self).notices,
                forall|j: int| 0 <= j < i ==> old(self).notices@[j].id != id,
                same_but_notices(self, old(self)),
            decreases self.notices.len() - i,
        {
            if self.notices[i].id == id {
                let mut n = self.notices[i].clone();
                n.read = true;
                self.notices.set(i, n);
                return ;
            }
            i += 1;
        }
    }

    pub fn mark_all_notices_read(&mut self)
        ensures
            final(self).notices@.len() == old(self).notices@.len(),
            forall|i: int|
                0 <= i < old(self).notices@.len() ==> #[trigger] final(self).notices@[i]@ == (NoticeView {
                    read: true,
                    ..old(self).notices@[i]@
                }),
            unread_count(final(self).notices@) == 0,
            same_but_notices(final(self), old(self)),
    {
        let mut i: usize = 0;
        while i < self.notices.len()
            invariant
                i <= self.notices.len(),
                self.notices@.len() == old(self).notices@.len(),
                forall|j: int|
                    0 <= j < i ==> #[trigger] self.notices@[j]@ == (NoticeView {
                        read: true,
                        ..old(self).notices@[j]@
                    }),
                forall|j: int| i <= j < self.notices@.len() ==> #[trigger] self.notices@[j] == old(self).notices@[j],
                same_but_notices(self, old(self)),
            decreases self.notices.len() - i,
        {
            let mut n = self.notices[i].clone();
            n.read = true;
            self.notices.set(i, n);
            i += 1;
        }
        proof {
            assert forall|j: int| 0 <= j < self.notices@.len() implies #[trigger] self.notices@[j].read by {
                assert(self.notices@[j]@.read);
            }
            lemma_all_read(self.notices@);
        }
    }

    pub fn clear_notices(&mut self)
        ensures
            final(self).notices@.len() == 0,
            same_but_notices(final(self), old(self)),
    {
        self.notices.clear();
    }

    pub fn unread_notices(&self) -> (r: usize)
        ensures
            r == unread_count(self.notices@),
    {
        let mut count: usize = 0;
        let mut i: usize = 0;
        while i < self.notices.len()
            invariant
                i <= self.notices.len(),
                count == unread_count(self.notices@.subrange(0, i as int)),
                count <= i,
            decreases self.notices.len() - i,
        {
            let ghost prefix = self.notices@.subrange(0, i as int + 1);
            assert(prefix.drop_last() =~= self.notices@.subrange(0, i as int));
            if !self.notices[i].read {
                count += 1;
            }
            i += 1;
        }
        assert(self.notices@.subrange(0, self.notices.len() as int) =~= self.notices@);
        count
    }
}


// ----- reminders -----

/// Reminders ring for the task's owner and assignee only; without an account, for every task.
pub open spec fn spec_reminds_me(me: Option<Id>, t: TaskView) -> bool {
    match me {
        None => true,
        Some(me) => (t.owner_id is None || t.owner_id == Some(me)) || t.assignee_id == Some(me),
    }
}

/// The first task with id `id` exists and reminds the account.
pub open spec fn reminds_id(tasks: Seq<Task>, me: Option<Id>, id: Id) -> bool {
    exists|i: int| first_with_id(tasks, id, i) && spec_reminds_me(me, tasks[i]@)
}

/// Due reminders that ring for the account, by task id in list order.
pub open spec fn spec_due_reminders(tasks: Seq<Task>, me: Option<Id>, now: int) -> Seq<Id> {
    reminders::due_ids(task_views(tasks), now).filter(|id: Id| reminds_id(tasks, me, id))
}

pub open spec fn reminders_in_range(tasks: Seq<Task>) -> bool {
    forall|i: int|
        0 <= i < tasks.len() ==> (#[trigger] tasks[i].reminder matches Some(r) ==> valid_instant(
            r.next_trigger as int,
        ))
}

/// A task's reminder after `fire_due_reminders` at `now`, given the ids that fired.
pub open spec fn fired_reminder(r: Option<Reminder>, fired: bool, now: int) -> Option<Reminder> {
    match r {
        Some(r) => if fired {
            Some(reminders::spec_advance(r, now))
        } else {
            Some(r)
        },
        None => None,
    }
}

// ----- upload queue -----

pub open spec fn spec_queue_upsert(pending: Seq<PendingOp>, id: Id) -> Seq<PendingOp> {
    if pending.contains(PendingOp::Upsert(id)) {
        pending
    } else {
        pending.push(PendingOp::Upsert(id))
    }
}

/// The queue after asking for an upload of each of `ids` in turn.
pub open spec fn queue_upserts(pending: Seq<PendingOp>, ids: Seq<Id>) -> Seq<PendingOp>
    decreases ids.len(),
{
    if ids.len() == 0 {
        pending
    } else {
        spec_queue_upsert(queue_upserts(pending, ids.drop_last()), ids.last())
    }
}

/// The queue after the task `gone` was deleted here: its upload is dropped, and a delete is
/// queued if the server has it (once).
pub open spec fn forget_gone(pending: Seq<PendingOp>, remote: Seq<Id>, gone: Id) -> Seq<PendingOp> {
    let kept = pending.filter(|op: PendingOp| op != PendingOp::Upsert(gone));
    if remote.contains(gone) && !kept.contains(PendingOp::Delete(gone)) {
        kept.push(PendingOp::Delete(gone))
    } else {
        kept
    }
}

pub open spec fn forget_all_gone(pending: Seq<PendingOp>, remote: Seq<Id>, gone: Seq<Id>) -> Seq<
    PendingOp,
>
    decreases gone.len(),
{
    if gone.len() == 0 {
        pending
    } else {
        forget_gone(forget_all_gone(pending, remote, gone.drop_last()), remote, gone.last())
    }
}

/// `i` is the last position of a task with id `id` (the one a map built from the list keeps).
pub open spec fn last_with_id(tasks: Seq<Task>, id: Id, i: int) -> bool {
    &&& 0 <= i < tasks.len()
    &&& tasks[i].id == id
    &&& forall|j: int| i < j < tasks.len() ==> tasks[j].id != id
}

/// The task that had id `id` before a change (the last one listed with it).
pub open spec fn previous(before: Seq<Task>, id: Id) -> Option<TaskView> {
    if exists|i: int| last_with_id(before, id, i) {
        Some(before[choose|i: int| last_with_id(before, id, i)]@)
    } else {
        None
    }
}

/// The task changed since `before` (it is new or differs from its previous version).
pub open spec fn is_changed(t: TaskView, before: Seq<Task>) -> bool {
    previous(before, t.id) != Some(t)
}

/// A changed task whose `updated_at` did not move gets a newer one.
pub open spec fn bumped(t: TaskView, before: Seq<Task>, now: Millis) -> TaskView {
    match previous(before, t.id) {
        Some(p) => if p != t && t.updated_at <= p.updated_at {
            TaskView { updated_at: if now > p.updated_at + 1 { now } else { (p.updated_at + 1) as i64 }, ..t }
        } else {
            t
        },
        None => t,
    }
}

pub open spec fn changed_ids(tasks: Seq<Task>, before: Seq<Task>) -> Seq<Id> {
    tasks.filter(|t: Task| is_changed(t@, before)).map_values(|t: Task| t.id)
}

/// Ids, in the old list's order, of the tasks that are no longer there.
pub open spec fn gone_ids(tasks: Seq<Task>, before: Seq<Task>) -> Seq<Id> {
    before.filter(|t: Task| !has_id(tasks, t.id)).map_values(|t: Task| t.id)
}

pub open spec fn updated_at_in_range(tasks: Seq<Task>) -> bool {
    forall|i: int| 0 <= i < tasks.len() ==> #[trigger] tasks[i].updated_at < i64::MAX
}

/// Everything but the tasks and the upload queue is unchanged.
pub open spec fn same_but_tasks_and_queue(a: &Data, b: &Data) -> bool {
    &&& a.version == b.version
    &&& a.settings == b.settings
    &&& a.notices == b.notices
    &&& a.account == b.account
    &&& a.last_account == b.last_account
    &&& a.remote_ids == b.remote_ids
    &&& a.last_sync == b.last_sync
    &&& a.groups == b.groups
    &&& a.profiles == b.profiles
}

fn queue_upsert(pending: &mut Vec<PendingOp>, id: Id)
    ensures
        final(pending)@ == spec_queue_upsert(old(pending)@, id),
{
    if !contains_op(pending, PendingOp::Upsert(id)) {
        pending.push(PendingOp::Upsert(id));
    }
}

fn contains_op(pending: &Vec<PendingOp>, op: PendingOp) -> (r: bool)
    ensures
        r == pending@.contains(op),
{
    let mut i: usize = 0;
    while i < pending.len()
        invariant
            i <= pending.len(),
            forall|j: int| 0 <= j < i ==> pending@[j] != op,
        decreases pending.len() - i,
    {
        if pending[i] == op {
            return true;
        }
        i += 1;
    }
    false
}

fn contains_id(ids: &Vec<Id>, id: Id) -> (r: bool)
    ensures
        r == ids@.contains(id),
{
    let mut i: usize = 0;
    while i < ids.len()
        invariant
            i <= ids.len(),
            forall|j: int| 0 <= j < i ==> ids@[j] != id,
        decreases ids.len() - i,
    {
        if ids[i] == id {
            return true;
        }
        i += 1;
    }
    false
}

/// The queue without every copy of `op`.
fn remove_op(pending: &mut Vec<PendingOp>, op: PendingOp)
    ensures
        final(pending)@ == old(pending)@.filter(|o: PendingOp| o != op),
{
    let ghost before = pending@;
    let mut kept: Vec<PendingOp> = Vec::new();
    let mut i: usize = 0;
    while i < pending.len()
        invariant
            i <= pending.len(),
            pending@ == before,
            kept@ == before.subrange(0, i as int).filter(|o: PendingOp| o != op),
        decreases pending.len() - i,
    {
        let ghost prefix = before.subrange(0, i as int + 1);
        assert(prefix.drop_last() =~= before.subrange(0, i as int));
        reveal(Seq::filter);
        if pending[i] != op {
            kept.push(pending[i]);
        }
        i += 1;
    }
    assert(before.subrange(0, before.len() as int) =~= before);
    *pending = kept;
}

fn remove_id(ids: &mut Vec<Id>, id: Id)
    ensures
        final(ids)@ == old(ids)@.filter(|x: Id| x != id),
{
    let ghost before = ids@;
    let mut kept: Vec<Id> = Vec::new();
    let mut i: usize = 0;
    while i < ids.len()
        invariant
            i <= ids.len(),
            ids@ == before,
            kept@ == before.subrange(0, i as int).filter(|x: Id| x != id),
        decreases ids.len() - i,
    {
        let ghost prefix = before.subrange(0, i as int + 1);
        assert(prefix.drop_last() =~= before.subrange(0, i as int));
        reveal(Seq::filter);
        if ids[i] != id {
            kept.push(ids[i]);
        }
        i += 1;
    }
    assert(before.subrange(0, before.len() as int) =~= before);
    *ids = kept;
}

/// Last position of a task with id `id`.
fn find_last(tasks: &[Task], id: Id) -> (r: Option<usize>)
    ensures
        match r {
            Some(i) => last_with_id(tasks@, id, i as int),
            None => !has_id(tasks@, id),
        },
{
    let mut i: usize = tasks.len();
    while i > 0
        invariant
            i <= tasks.len(),
            forall|j: int| i <= j < tasks.len() ==> tasks@[j].id != id,
        decreases i,
    {
        i -= 1;
        if tasks[i].id == id {
            return Some(i);
        }
    }
    None
}

proof fn lemma_previous(before: Seq<Task>, id: Id, i: int)
    requires
        last_with_id(before, id, i),
    ensures
        previous(before, id) == Some(before[i]@),
{
    let k = choose|k: int| last_with_id(before, id, k);
    assert(k == i);
}


impl Data {
    /// Due reminders that ring for the account (see `spec_reminds_me`).
    fn due_reminders(&self, now: Millis) -> (r: Vec<Id>)
        ensures
            r@ == spec_due_reminders(self.tasks@, self.spec_me(), now as int),
    {
        let due = reminders::due_now(self.tasks.as_slice(), now);
        let me = self.me();
        let ghost all = due@;
        let mut out: Vec<Id> = Vec::new();
        let mut i: usize = 0;
        while i < due.len()
            invariant
                i <= due.len(),
                all == due@,
                me == self.spec_me(),
                out@ == all.subrange(0, i as int).filter(|id: Id| reminds_id(self.tasks@, me, id)),
            decreases due.len() - i,
        {
            let id = due[i];
            let ghost prefix = all.subrange(0, i as int + 1);
            assert(prefix.drop_last() =~= all.subrange(0, i as int));
            reveal(Seq::filter);
            let keep = match find_task(&self.tasks, id) {
                Some(k) => {
                    let t = &self.tasks[k];
                    let mine = match me {
                        None => true,
                        Some(m) => {
                            let own = match t.owner_id {
                                None => true,
                                Some(o) => o == m,
                            };
                            own || t.assignee_id == Some(m)
                        },
                    };
                    proof {
                        if mine {
                            assert(reminds_id(self.tasks@, me, id));
                        } else {
                            if reminds_id(self.tasks@, me, id) {
                                let j = choose|j: int| first_with_id(self.tasks@, id, j) && spec_reminds_me(me, self.tasks@[j]@);
                                assert(j == k);
                            }
                        }
                    }
                    mine
                },
                None => false,
            };
            if keep {
                out.push(id);
            }
            i += 1;
        }
        assert(all.subrange(0, all.len() as int) =~= all);
        out
    }

    /// Cheap check so the reminder loop only saves when something fires.
    pub fn has_due_reminders(&self, now: Millis) -> (r: bool)
        ensures
            r == (spec_due_reminders(self.tasks@, self.spec_me(), now as int).len() > 0),
    {
        self.due_reminders(now).len() > 0
    }

    /// Advances every due reminder and returns snapshots (taken before advancing) of the tasks
    /// to notify about.
    pub fn fire_due_reminders(&mut self, now: Millis) -> (r: Vec<Task>)
        requires
            reminders_in_range(old(self).tasks@),
            valid_instant(now as int),
            now <= MAX_INSTANT - reminders::MILLIS_PER_WEEK,
        ensures
            ({
                let due = spec_due_reminders(old(self).tasks@, old(self).spec_me(), now as int);
                &&& task_views(r@) == task_views(old(self).tasks@).filter(|t: TaskView| due.contains(t.id))
                &&& final(self).tasks@.len() == old(self).tasks@.len()
                &&& forall|i: int|
                    0 <= i < old(self).tasks@.len() ==> #[trigger] final(self).tasks@[i]@ == (TaskView {
                        reminder: fired_reminder(old(self).tasks@[i].reminder, due.contains(old(self).tasks@[i].id), now as int),
                        ..old(self).tasks@[i]@
                    })
            }),
            reminders_in_range(final(self).tasks@),
            in_display_order(old(self).tasks@) ==> in_display_order(final(self).tasks@),
            same_but_tasks(final(self), old(self)),
    {
        let due = self.due_reminders(now);
        let ghost views = task_views(old(self).tasks@);
        let ghost pred = |t: TaskView| due@.contains(t.id);
        let mut fired: Vec<Task> = Vec::new();
        let mut i: usize = 0;
        while i < self.tasks.len()
            invariant
                i <= self.tasks.len(),
                self.tasks@.len() == old(self).tasks@.len(),
                views == task_views(old(self).tasks@),
                pred == (|t: TaskView| due@.contains(t.id)),
                reminders_in_range(old(self).tasks@),
                valid_instant(now as int),
                now <= MAX_INSTANT - reminders::MILLIS_PER_WEEK,
                task_views(fired@) == views.subrange(0, i as int).filter(pred),
                forall|j: int|
                    0 <= j < i ==> #[trigger] self.tasks@[j]@ == (TaskView {
                        reminder: fired_reminder(old(self).tasks@[j].reminder, due@.contains(old(self).tasks@[j].id), now as int),
                        ..old(self).tasks@[j]@
                    }),
                forall|j: int| 0 <= j < i ==> (#[trigger] self.tasks@[j].reminder matches Some(r) ==> valid_instant(r.next_trigger as int)),
                forall|j: int| i <= j < self.tasks@.len() ==> #[trigger] self.tasks@[j] == old(self).tasks@[j],
                same_but_tasks(self, old(self)),
            decreases self.tasks.len() - i,
        {
            let ghost prefix = views.subrange(0, i as int + 1);
            assert(prefix.drop_last() =~= views.subrange(0, i as int));
            reveal(Seq::filter);
            let id = self.tasks[i].id;
            if contains_id(&due, id) {
                fired.push(self.tasks[i].clone());
                let mut t = self.tasks[i].clone();
                assert(old(self).tasks@[i as int].reminder matches Some(r) ==> valid_instant(r.next_trigger as int));
                if let Some(mut reminder) = t.reminder {
                    reminders::advance(&mut reminder, now);
                    t.reminder = Some(reminder);
                }
                self.tasks.set(i, t);
            }
            i += 1;
        }
        assert(views.subrange(0, views.len() as int) =~= views);
        proof {
            if sorted_by_order(views) {
                let w = task_views(self.tasks@);
                assert forall|k: int| 0 <= k < views.len() implies #[trigger] w[k].order == views[k].order by {
                    assert(self.tasks@[k]@ == (TaskView {
                        reminder: fired_reminder(old(self).tasks@[k].reminder, due@.contains(old(self).tasks@[k].id), now as int),
                        ..old(self).tasks@[k]@
                    }));
                }
                lemma_same_orders(views, w);
            }
        }
        fired
    }

    /// Queues how the tasks changed since `before` for upload, once the device is bound to an
    /// account. A changed task whose `updated_at` did not move gets a newer one, so the server's
    /// last-write-wins accepts it. Returns whether anything was queued.
    pub fn track_changes(&mut self, before: &[Task], now: Millis) -> (r: bool)
        requires
            updated_at_in_range(before@),
        ensures
            old(self).last_account is None ==> !r && *final(self) == *old(self),
            old(self).last_account is Some ==> {
                let changed = changed_ids(old(self).tasks@, before@);
                let gone = gone_ids(old(self).tasks@, before@);
                &&& task_views(final(self).tasks@) == task_views(old(self).tasks@).map_values(
                    |t: TaskView| bumped(t, before@, now),
                )
                &&& final(self).pending@ == forget_all_gone(
                    queue_upserts(old(self).pending@, changed),
                    old(self).remote_ids@,
                    gone,
                )
                &&& r == (changed.len() > 0 || gone.len() > 0)
            },
            in_display_order(old(self).tasks@) ==> in_display_order(final(self).tasks@),
            same_but_tasks_and_queue(final(self), old(self)),
    {
        if self.last_account.is_none() {
            return false;
        }
        let ghost old_tasks = self.tasks@;
        let mut queued = false;
        let mut i: usize = 0;
        while i < self.tasks.len()
            invariant
                i <= self.tasks.len(),
                self.tasks@.len() == old_tasks.len(),
                old_tasks == old(self).tasks@,
                updated_at_in_range(before@),
                forall|j: int| 0 <= j < i ==> #[trigger] self.tasks@[j]@ == bumped(old_tasks[j]@, before@, now),
                forall|j: int| i <= j < self.tasks@.len() ==> #[trigger] self.tasks@[j] == old_tasks[j],
                self.pending@ == queue_upserts(old(self).pending@, changed_ids(old_tasks.subrange(0, i as int), before@)),
                queued == (changed_ids(old_tasks.subrange(0, i as int), before@).len() > 0),
                same_but_tasks_and_queue(self, old(self)),
            decreases self.tasks.len() - i,
        {
            let ghost prefix = old_tasks.subrange(0, i as int + 1);
            assert(prefix.drop_last() =~= old_tasks.subrange(0, i as int));
            let ghost pred = |t: Task| is_changed(t@, before@);
            proof {
                reveal(Seq::filter);
                lemma_filter_map_push(old_tasks.subrange(0, i as int), old_tasks[i as int], pred);
                assert(prefix =~= old_tasks.subrange(0, i as int).push(old_tasks[i as int]));
            }
            let id = self.tasks[i].id;
            let prev = find_last(before, id);
            let unchanged = match prev {
                Some(p) => before[p].same_as(&self.tasks[i]),
                None => false,
            };
            proof {
                match prev {
                    Some(p) => lemma_previous(before@, id, p as int),
                    None => {},
                }
            }
            let ghost prev_ids = changed_ids(old_tasks.subrange(0, i as int), before@);
            if unchanged {
                assert(bumped(old_tasks[i as int]@, before@, now) == old_tasks[i as int]@);
                assert(!is_changed(old_tasks[i as int]@, before@));
                assert(changed_ids(prefix, before@) == prev_ids);
            } else {
                proof {
                    if prev is None {
                        assert(!(exists|j: int| last_with_id(before@, id, j)));
                    }
                    assert(is_changed(old_tasks[i as int]@, before@));
                    assert(changed_ids(prefix, before@) == prev_ids.push(id));
                    assert(prev_ids.push(id).drop_last() =~= prev_ids);
                }
                if let Some(p) = prev {
                    if self.tasks[i].updated_at <= before[p].updated_at {
                        let newer = before[p].updated_at + 1;
                        let mut t = self.tasks[i].clone();
                        t.updated_at = if now > newer {
                            now
                        } else {
                            newer
                        };
                        self.tasks.set(i, t);
                    }
                }
                assert(self.tasks@[i as int]@ == bumped(old_tasks[i as int]@, before@, now));
                queue_upsert(&mut self.pending, id);
                queued = true;
            }
            i += 1;
        }
        assert(old_tasks.subrange(0, old_tasks.len() as int) =~= old_tasks);
        assert(task_views(self.tasks@) =~= task_views(old_tasks).map_values(|t: TaskView| bumped(t, before@, now)));
        assert forall|j: int| 0 <= j < self.tasks@.len() implies #[trigger] self.tasks@[j].id == old_tasks[j].id by {
            assert(self.tasks@[j]@ == bumped(old_tasks[j]@, before@, now));
        }
        let ghost upserted = self.pending@;
        let ghost old_before = before@;
        let mut k: usize = 0;
        while k < before.len()
            invariant
                k <= before.len(),
                old_before == before@,
                self.tasks@.len() == old_tasks.len(),
                forall|j: int| 0 <= j < self.tasks@.len() ==> #[trigger] self.tasks@[j].id == old_tasks[j].id,
                task_views(self.tasks@) == task_views(old_tasks).map_values(|t: TaskView| bumped(t, before@, now)),
                self.pending@ == forget_all_gone(upserted, old(self).remote_ids@, gone_ids(old_tasks, old_before.subrange(0, k as int))),
                queued == (changed_ids(old_tasks, before@).len() > 0 || gone_ids(old_tasks, old_before.subrange(0, k as int)).len() > 0),
                same_but_tasks_and_queue(self, old(self)),
            decreases before.len() - k,
        {
            let ghost prefix = old_before.subrange(0, k as int + 1);
            let ghost pred = |t: Task| !has_id(old_tasks, t.id);
            proof {
                reveal(Seq::filter);
                assert(prefix =~= old_before.subrange(0, k as int).push(old_before[k as int]));
                lemma_filter_map_push(old_before.subrange(0, k as int), old_before[k as int], pred);
            }
            let id = before[k].id;
            let present = find_task(&self.tasks, id).is_some();
            proof {
                if has_id(old_tasks, id) {
                    let j = choose|j: int| 0 <= j < old_tasks.len() && old_tasks[j].id == id;
                    assert(self.tasks@[j].id == id);
                }
                if has_id(self.tasks@, id) {
                    let j = choose|j: int| 0 <= j < self.tasks@.len() && self.tasks@[j].id == id;
                    assert(old_tasks[j].id == id);
                }
            }
            let ghost prev_gone = gone_ids(old_tasks, old_before.subrange(0, k as int));
            proof {
                if present {
                    assert(gone_ids(old_tasks, prefix) == prev_gone);
                } else {
                    assert(gone_ids(old_tasks, prefix) == prev_gone.push(id));
                    assert(prev_gone.push(id).drop_last() =~= prev_gone);
                }
            }
            if !present {
                remove_op(&mut self.pending, PendingOp::Upsert(id));
                if contains_id(&self.remote_ids, id) && !contains_op(&self.pending, PendingOp::Delete(id)) {
                    self.pending.push(PendingOp::Delete(id));
                }
                queued = true;
            }
            k += 1;
        }
        assert(old_before.subrange(0, before.len() as int) =~= old_before);
        proof {
            let v = task_views(old_tasks);
            let w = task_views(self.tasks@);
            if sorted_by_order(v) {
                assert forall|k: int| 0 <= k < v.len() implies #[trigger] w[k].order == v[k].order by {
                    assert(w[k] == bumped(v[k], before@, now));
                }
                lemma_same_orders(v, w);
            }
        }
        queued
    }
}


// ----- accounts -----

/// Ids of tasks another account owns.
pub open spec fn is_others(tasks: Seq<Task>, owner: Option<Id>, id: Id) -> bool {
    exists|i: int|
        0 <= i < tasks.len() && tasks[i].id == id && tasks[i].owner_id is Some && tasks[i].owner_id
            != owner
}

/// Some task with id `id` belongs to an account other than `owner`.
fn owned_by_other(tasks: &Vec<Task>, owner: Option<Id>, id: Id) -> (r: bool)
    ensures
        r == is_others(tasks@, owner, id),
{
    let mut i: usize = 0;
    while i < tasks.len()
        invariant
            i <= tasks.len(),
            forall|j: int|
                0 <= j < i ==> !(tasks@[j].id == id && tasks@[j].owner_id is Some && tasks@[j].owner_id
                    != owner),
        decreases tasks.len() - i,
    {
        if tasks[i].id == id && tasks[i].owner_id.is_some() && tasks[i].owner_id != owner {
            return true;
        }
        i += 1;
    }
    false
}

impl Data {
    /// `id` signed in. The first account on this device gets every local task uploaded; the same
    /// account again just carries on; another account waits for `adopt_local_tasks`, unless there
    /// is nothing local to decide about.
    pub fn bind_account(&mut self, id: Id)
        ensures
            old(self).last_account == Some(id) ==> *final(self) == *old(self),
            old(self).last_account is None ==> {
                &&& final(self).last_account == Some(id)
                &&& final(self).pending@ == queue_upserts(
                    old(self).pending@,
                    old(self).tasks@.map_values(|t: Task| t.id),
                )
                &&& final(self).tasks == old(self).tasks
                &&& final(self).remote_ids == old(self).remote_ids
                &&& final(self).last_sync == old(self).last_sync
            },
            old(self).last_account matches Some(last) && last != id ==> if old(self).tasks@.len()
                == 0 {
                &&& final(self).last_account == Some(id)
                &&& final(self).pending@.len() == 0
                &&& final(self).remote_ids@.len() == 0
                &&& final(self).last_sync is None
                &&& final(self).tasks == old(self).tasks
            } else {
                *final(self) == *old(self)
            },
            final(self).tasks == old(self).tasks,
            final(self).account == old(self).account,
            final(self).notices == old(self).notices,
            final(self).groups == old(self).groups,
            final(self).profiles == old(self).profiles,
            final(self).settings == old(self).settings,
            final(self).version == old(self).version,
    {
        match self.last_account {
            Some(last) => {
                if last != id && self.tasks.len() == 0 {
                    self.start_over(id);
                }
            },
            None => {
                self.last_account = Some(id);
                let ghost ids = self.tasks@.map_values(|t: Task| t.id);
                let mut i: usize = 0;
                while i < self.tasks.len()
                    invariant
                        i <= self.tasks.len(),
                        ids == self.tasks@.map_values(|t: Task| t.id),
                        self.tasks == old(self).tasks,
                        self.pending@ == queue_upserts(old(self).pending@, ids.subrange(0, i as int)),
                        self.last_account == Some(id),
                        self.account == old(self).account,
                        self.notices == old(self).notices,
                        self.groups == old(self).groups,
                        self.profiles == old(self).profiles,
                        self.settings == old(self).settings,
                        self.version == old(self).version,
                        self.remote_ids == old(self).remote_ids,
                        self.last_sync == old(self).last_sync,
                    decreases self.tasks.len() - i,
                {
                    let tid = self.tasks[i].id;
                    assert(ids.subrange(0, i as int + 1).drop_last() =~= ids.subrange(0, i as int));
                    queue_upsert(&mut self.pending, tid);
                    i += 1;
                }
                assert(ids.subrange(0, ids.len() as int) =~= ids);
            },
        }
    }

    pub open spec fn spec_needs_account_choice(&self) -> bool {
        match (self.account, self.last_account) {
            (Some(a), Some(last)) => a.id != last,
            _ => false,
        }
    }

    /// The signed-in account differs from the one this device's tasks belong to.
    pub fn needs_account_choice(&self) -> (r: bool)
        ensures
            r == self.spec_needs_account_choice(),
    {
        match (&self.account, self.last_account) {
            (Some(a), Some(last)) => a.id != last,
            _ => false,
        }
    }

    fn start_over(&mut self, account: Id)
        ensures
            final(self).last_account == Some(account),
            final(self).pending@.len() == 0,
            final(self).remote_ids@.len() == 0,
            final(self).last_sync is None,
            final(self).tasks == old(self).tasks,
            final(self).account == old(self).account,
            final(self).notices == old(self).notices,
            final(self).groups == old(self).groups,
            final(self).profiles == old(self).profiles,
            final(self).settings == old(self).settings,
            final(self).version == old(self).version,
    {
        self.last_account = Some(account);
        self.pending.clear();
        self.remote_ids.clear();
        self.last_sync = None;
    }

    /// Drops other accounts' tasks, with their waiting uploads and server records.
    fn keep_only_tasks_of(&mut self, owner: Option<Id>)
        ensures
            ({
                let others = |id: Id| is_others(old(self).tasks@, owner, id);
                &&& task_views(final(self).tasks@) == task_views(old(self).tasks@).filter(|t: TaskView| !others(t.id))
                &&& final(self).pending@ == old(self).pending@.filter(|op: PendingOp| !others(op.spec_id()))
                &&& final(self).remote_ids@ == old(self).remote_ids@.filter(|id: Id| !others(id))
            }),
            in_display_order(old(self).tasks@) ==> in_display_order(final(self).tasks@),
            final(self).account == old(self).account,
            final(self).last_account == old(self).last_account,
            final(self).last_sync == old(self).last_sync,
            final(self).notices == old(self).notices,
            final(self).groups == old(self).groups,
            final(self).profiles == old(self).profiles,
            final(self).settings == old(self).settings,
            final(self).version == old(self).version,
    {
        let ghost tasks0 = self.tasks@;
        let ghost others = |id: Id| is_others(tasks0, owner, id);
        // queue
        let ghost pending0 = self.pending@;
        let mut ops: Vec<PendingOp> = Vec::new();
        let mut k: usize = 0;
        while k < self.pending.len()
            invariant
                k <= self.pending.len(),
                self.pending@ == pending0,
                self.tasks@ == tasks0,
                others == (|id: Id| is_others(tasks0, owner, id)),
                ops@ == pending0.subrange(0, k as int).filter(|op: PendingOp| !others(op.spec_id())),
            decreases self.pending.len() - k,
        {
            let ghost prefix = pending0.subrange(0, k as int + 1);
            assert(prefix.drop_last() =~= pending0.subrange(0, k as int));
            reveal(Seq::filter);
            if !owned_by_other(&self.tasks, owner, self.pending[k].id()) {
                ops.push(self.pending[k]);
            }
            k += 1;
        }
        assert(pending0.subrange(0, pending0.len() as int) =~= pending0);
        self.pending = ops;
        // server records
        let ghost remote0 = self.remote_ids@;
        let mut ids: Vec<Id> = Vec::new();
        let mut k: usize = 0;
        while k < self.remote_ids.len()
            invariant
                k <= self.remote_ids.len(),
                self.remote_ids@ == remote0,
                self.tasks@ == tasks0,
                others == (|id: Id| is_others(tasks0, owner, id)),
                ids@ == remote0.subrange(0, k as int).filter(|id: Id| !others(id)),
            decreases self.remote_ids.len() - k,
        {
            let ghost prefix = remote0.subrange(0, k as int + 1);
            assert(prefix.drop_last() =~= remote0.subrange(0, k as int));
            reveal(Seq::filter);
            if !owned_by_other(&self.tasks, owner, self.remote_ids[k]) {
                ids.push(self.remote_ids[k]);
            }
            k += 1;
        }
        assert(remote0.subrange(0, remote0.len() as int) =~= remote0);
        self.remote_ids = ids;
        // tasks
        let mut kept: Vec<Task> = Vec::new();
        let ghost views = task_views(tasks0);
        let mut k: usize = 0;
        while k < self.tasks.len()
            invariant
                k <= self.tasks.len(),
                self.tasks@ == tasks0,
                views == task_views(tasks0),
                others == (|id: Id| is_others(tasks0, owner, id)),
                task_views(kept@) == views.subrange(0, k as int).filter(|t: TaskView| !others(t.id)),
            decreases self.tasks.len() - k,
        {
            let ghost prefix = views.subrange(0, k as int + 1);
            assert(prefix.drop_last() =~= views.subrange(0, k as int));
            reveal(Seq::filter);
            if !owned_by_other(&self.tasks, owner, self.tasks[k].id) {
                kept.push(self.tasks[k].clone());
                assert(task_views(kept@) =~= prefix.filter(|t: TaskView| !others(t.id)));
            }
            k += 1;
        }
        assert(views.subrange(0, views.len() as int) =~= views);
        proof {
            if sorted_by_order(views) {
                lemma_filter_in_order(views, |t: TaskView| !others(t.id));
            }
        }
        self.tasks = kept;
    }

    /// After signing out: keeps the account's own tasks (and their waiting uploads) for the next
    /// sign-in; other people's group tasks and the group directory go.
    pub fn forget_account(&mut self)
        ensures
            ({
                let mine = match old(self).spec_me() {
                    Some(me) => Some(me),
                    None => old(self).last_account,
                };
                let others = |id: Id| is_others(old(self).tasks@, mine, id);
                &&& task_views(final(self).tasks@) == task_views(old(self).tasks@).filter(|t: TaskView| !others(t.id))
                &&& final(self).pending@ == old(self).pending@.filter(|op: PendingOp| !others(op.spec_id()))
                &&& final(self).remote_ids@ == old(self).remote_ids@.filter(|id: Id| !others(id))
            }),
            final(self).account is None,
            final(self).groups@.len() == 0,
            final(self).profiles@.len() == 0,
            in_display_order(old(self).tasks@) ==> in_display_order(final(self).tasks@),
            final(self).last_account == old(self).last_account,
            final(self).last_sync == old(self).last_sync,
            final(self).notices == old(self).notices,
            final(self).settings == old(self).settings,
            final(self).version == old(self).version,
    {
        let mine = match self.me() {
            Some(me) => Some(me),
            None => self.last_account,
        };
        self.account = None;
        self.keep_only_tasks_of(mine);
        self.groups.clear();
        self.profiles.clear();
    }

    /// Answers `needs_account_choice`: copy the local tasks into the signed-in account (with new
    /// ids, so they do not collide with the other account's copies) or remove them from this device.
    pub fn adopt_local_tasks(&mut self, copy: bool)
        ensures
            old(self).account is None ==> *final(self) == *old(self),
            old(self).account matches Some(a) ==> {
                let others = |id: Id| is_others(old(self).tasks@, old(self).last_account, id);
                let kept = task_views(old(self).tasks@).filter(|t: TaskView| !others(t.id));
                &&& final(self).last_account == Some(a.id)
                &&& final(self).remote_ids@.len() == 0
                &&& final(self).last_sync is None
                &&& final(self).groups@.len() == 0
                &&& final(self).profiles@.len() == 0
                &&& !copy ==> final(self).tasks@.len() == 0 && final(self).pending@.len() == 0
                &&& copy ==> {
                    &&& final(self).tasks@.len() == kept.len()
                    &&& final(self).pending@.len() == kept.len()
                    &&& forall|i: int| 0 <= i < kept.len() ==> #[trigger] final(self).tasks@[i]@ == (TaskView {
                        id: final(self).tasks@[i].id,
                        owner_id: None,
                        group_id: None,
                        assignee_id: None,
                        ..kept[i]
                    })
                    &&& forall|i: int| 0 <= i < kept.len() ==> #[trigger] final(self).pending@[i] == PendingOp::Upsert(final(self).tasks@[i].id)
                }
                &&& !final(self).spec_needs_account_choice()
            },
            in_display_order(old(self).tasks@) ==> in_display_order(final(self).tasks@),
            final(self).account == old(self).account,
            final(self).notices == old(self).notices,
            final(self).settings == old(self).settings,
            final(self).version == old(self).version,
    {
        let id = match self.me() {
            Some(id) => id,
            None => return ,
        };
        let last = self.last_account;
        self.keep_only_tasks_of(last);
        self.groups.clear();
        self.profiles.clear();
        self.start_over(id);
        if !copy {
            self.tasks.clear();
            return ;
        }
        let ghost kept = self.tasks@;
        let mut i: usize = 0;
        while i < self.tasks.len()
            invariant
                i <= self.tasks.len(),
                self.tasks@.len() == kept.len(),
                self.pending@.len() == i,
                forall|j: int| i <= j < kept.len() ==> #[trigger] self.tasks@[j] == kept[j],
                forall|j: int| 0 <= j < i ==> #[trigger] self.tasks@[j]@ == (TaskView {
                    id: self.tasks@[j].id,
                    owner_id: None,
                    group_id: None,
                    assignee_id: None,
                    ..kept[j]@
                }),
                forall|j: int| 0 <= j < i ==> #[trigger] self.pending@[j] == PendingOp::Upsert(self.tasks@[j].id),
                self.last_account == Some(id),
                self.account == old(self).account,
                self.account matches Some(a) && a.id == id,
                self.notices == old(self).notices,
                self.settings == old(self).settings,
                self.version == old(self).version,
                self.remote_ids@.len() == 0,
                self.last_sync is None,
                self.groups@.len() == 0,
                self.profiles@.len() == 0,
            decreases self.tasks.len() - i,
        {
            let mut t = self.tasks[i].clone();
            t.id = new_id();
            t.owner_id = None;
            t.group_id = None;
            t.assignee_id = None;
            let new = t.id;
            self.tasks.set(i, t);
            self.pending.push(PendingOp::Upsert(new));
            i += 1;
        }
        assert(task_views(kept).len() == kept.len());
        proof {
            let v = task_views(kept);
            let w = task_views(self.tasks@);
            if sorted_by_order(v) {
                assert forall|k: int| 0 <= k < v.len() implies #[trigger] w[k].order == v[k].order by {
                    assert(self.tasks@[k]@ == (TaskView {
                        id: self.tasks@[k].id,
                        owner_id: None,
                        group_id: None,
                        assignee_id: None,
                        ..kept[k]@
                    }));
                }
                lemma_same_orders(v, w);
            }
        }
    }
}


// ----- merging a sync turn -----

pub struct SentView {
    pub op: PendingOp,
    pub snapshot: Option<TaskView>,
    pub uploaded: bool,
}

/// The view of an optional task.
pub open spec fn snapshot_view(t: Option<Task>) -> Option<TaskView> {
    match t {
        Some(t) => Some(t@),
        None => None,
    }
}

impl View for Sent {
    type V = SentView;

    open spec fn view(&self) -> SentView {
        SentView { op: self.op, snapshot: snapshot_view(self.snapshot), uploaded: self.uploaded }
    }
}

/// The first task with id `id`, if any.
pub open spec fn first_view(tasks: Seq<Task>, id: Id) -> Option<TaskView> {
    if exists|i: int| first_with_id(tasks, id, i) {
        Some(tasks[choose|i: int| first_with_id(tasks, id, i)]@)
    } else {
        None
    }
}

proof fn lemma_first_view(tasks: Seq<Task>, id: Id, i: int)
    requires
        first_with_id(tasks, id, i),
    ensures
        first_view(tasks, id) == Some(tasks[i]@),
{
    let k = choose|k: int| first_with_id(tasks, id, k);
    assert(k == i);
}

proof fn lemma_first_view_none(tasks: Seq<Task>, id: Id)
    requires
        !has_id(tasks, id),
    ensures
        first_view(tasks, id) is None,
{
}

/// The upload queue and the server's task ids after one finished queue entry: a sent upload
/// leaves the queue unless the task changed meanwhile; an uploaded task is on the server (and is
/// deleted there too if it was deleted here meanwhile); a sent delete leaves both.
pub open spec fn apply_sent(tasks: Seq<Task>, state: (Seq<PendingOp>, Seq<Id>), done: SentView) -> (
    Seq<PendingOp>,
    Seq<Id>,
) {
    match done.op {
        PendingOp::Upsert(id) => {
            let current = first_view(tasks, id);
            let gone = current is None;
            let p1 = if gone || current == done.snapshot {
                state.0.filter(|op: PendingOp| op != done.op)
            } else {
                state.0
            };
            if done.uploaded {
                let r1 = if state.1.contains(id) {
                    state.1
                } else {
                    state.1.push(id)
                };
                let p2 = if gone && !p1.contains(PendingOp::Delete(id)) {
                    p1.push(PendingOp::Delete(id))
                } else {
                    p1
                };
                (p2, r1)
            } else {
                (p1, state.1)
            }
        },
        PendingOp::Delete(id) => (
            state.0.filter(|op: PendingOp| op != done.op),
            state.1.filter(|r: Id| r != id),
        ),
    }
}

pub open spec fn apply_all_sent(tasks: Seq<Task>, state: (Seq<PendingOp>, Seq<Id>), sent: Seq<SentView>) -> (
    Seq<PendingOp>,
    Seq<Id>,
)
    decreases sent.len(),
{
    if sent.len() == 0 {
        state
    } else {
        apply_sent(tasks, apply_all_sent(tasks, state, sent.drop_last()), sent.last())
    }
}

pub open spec fn sent_views(sent: Seq<Sent>) -> Seq<SentView> {
    sent.map_values(|s: Sent| s@)
}

pub open spec fn is_waiting(pending: Seq<PendingOp>, id: Id) -> bool {
    exists|k: int| 0 <= k < pending.len() && pending[k].spec_id() == id
}

pub open spec fn on_server(remote: Seq<Task>, id: Id) -> bool {
    has_id(remote, id)
}

/// `i` is the first position of id `id` in a list of task views.
pub open spec fn first_in_views(s: Seq<TaskView>, id: Id, i: int) -> bool {
    &&& 0 <= i < s.len()
    &&& s[i].id == id
    &&& forall|j: int| 0 <= j < i ==> s[j].id != id
}

/// One server task applied to the local list (unless an upload of it waits): it replaces the
/// first local task with its id or joins the list; it is reported when someone else newly
/// assigned it to the account (not on the first pull).
pub open spec fn merge_one(
    state: (Seq<TaskView>, Seq<Id>),
    r: TaskView,
    pending: Seq<PendingOp>,
    me: Option<Id>,
    first_pull: bool,
) -> (Seq<TaskView>, Seq<Id>) {
    let cur = state.0;
    if is_waiting(pending, r.id) {
        state
    } else {
        let found = exists|i: int| first_in_views(cur, r.id, i);
        let i = choose|i: int| first_in_views(cur, r.id, i);
        let newly_mine = me is Some && r.assignee_id == me && (!found || cur[i].assignee_id != me);
        let assigned = if newly_mine && !first_pull && r.owner_id != me {
            state.1.push(r.id)
        } else {
            state.1
        };
        if found {
            (cur.update(i, r), assigned)
        } else {
            (cur.push(r), assigned)
        }
    }
}

pub open spec fn merge_all(
    state: (Seq<TaskView>, Seq<Id>),
    remote: Seq<TaskView>,
    pending: Seq<PendingOp>,
    me: Option<Id>,
    first_pull: bool,
) -> (Seq<TaskView>, Seq<Id>)
    decreases remote.len(),
{
    if remote.len() == 0 {
        state
    } else {
        merge_one(merge_all(state, remote.drop_last(), pending, me, first_pull), remote.last(), pending, me, first_pull)
    }
}

/// Stable insertion of `x` into a list sorted by order: after every task with order at most
/// `x`'s.
pub open spec fn insert_by_order(s: Seq<TaskView>, x: TaskView) -> Seq<TaskView>
    decreases s.len(),
{
    if s.len() == 0 {
        seq![x]
    } else if s.last().order <= x.order {
        s.push(x)
    } else {
        insert_by_order(s.drop_last(), x).push(s.last())
    }
}

/// Stable sort by `order` (tasks with equal order keep their relative order).
pub open spec fn sort_by_order(s: Seq<TaskView>) -> Seq<TaskView>
    decreases s.len(),
{
    if s.len() == 0 {
        s
    } else {
        insert_by_order(sort_by_order(s.drop_last()), s.last())
    }
}

pub open spec fn sorted_by_order(s: Seq<TaskView>) -> bool {
    forall|i: int, j: int| 0 <= i < j < s.len() ==> s[i].order <= s[j].order
}

/// The tasks are in display order: sorted by `order`.
pub open spec fn in_display_order(tasks: Seq<Task>) -> bool {
    sorted_by_order(task_views(tasks))
}

/// A list whose orders are those of a sorted list, place by place, is sorted.
proof fn lemma_same_orders(v: Seq<TaskView>, w: Seq<TaskView>)
    requires
        sorted_by_order(v),
        w.len() == v.len(),
        forall|i: int| 0 <= i < v.len() ==> #[trigger] w[i].order == v[i].order,
    ensures
        sorted_by_order(w),
{
    assert forall|i: int, j: int| 0 <= i < j < w.len() implies w[i].order <= w[j].order by {
        assert(w[i].order == v[i].order);
        assert(w[j].order == v[j].order);
    }
}

/// Changing one task but its order keeps a sorted list sorted.
proof fn lemma_update_in_order(v: Seq<TaskView>, i: int, y: TaskView)
    requires
        sorted_by_order(v),
        0 <= i < v.len(),
        y.order == v[i].order,
    ensures
        sorted_by_order(v.update(i, y)),
{
    let w = v.update(i, y);
    assert forall|k: int| 0 <= k < v.len() implies #[trigger] w[k].order == v[k].order by {}
    lemma_same_orders(v, w);
}

/// A task whose order is at least every order in a sorted list can go at its end.
proof fn lemma_push_in_order(v: Seq<TaskView>, x: TaskView)
    requires
        sorted_by_order(v),
        forall|k: int| 0 <= k < v.len() ==> #[trigger] v[k].order <= x.order,
    ensures
        sorted_by_order(v.push(x)),
{
    let w = v.push(x);
    assert forall|i: int, j: int| 0 <= i < j < w.len() implies w[i].order <= w[j].order by {
        assert(w[i] == v[i]);
        if j < v.len() {
            assert(w[j] == v[j]);
        }
    }
}

/// Leaving tasks out keeps a sorted list sorted.
proof fn lemma_filter_in_order(v: Seq<TaskView>, p: spec_fn(TaskView) -> bool)
    requires
        sorted_by_order(v),
    ensures
        sorted_by_order(v.filter(p)),
    decreases v.len(),
{
    reveal(Seq::filter);
    if v.len() > 0 {
        let init = v.drop_last();
        assert(sorted_by_order(init));
        lemma_filter_in_order(init, p);
        let f = init.filter(p);
        if p(v.last()) {
            assert(v.filter(p) == f.push(v.last()));
            assert forall|i: int, j: int| 0 <= i < j < f.len() + 1 implies #[trigger] f.push(v.last())[i].order
                <= #[trigger] f.push(v.last())[j].order by {
                if j == f.len() {
                    assert(f.contains(f[i]));
                    init.lemma_filter_contains_rev(p, f[i]);
                    let k = choose|k: int| 0 <= k < init.len() && init[k] == f[i];
                    assert(v[k] == f[i]);
                }
            }
        } else {
            assert(v.filter(p) == f);
        }
    }
}

pub open spec fn strictly_increasing(s: Seq<Id>) -> bool {
    forall|i: int, j: int| 0 <= i < j < s.len() ==> s[i] < s[j]
}

proof fn lemma_insert_by_order(s: Seq<TaskView>, x: TaskView, j: int)
    requires
        0 <= j <= s.len(),
        forall|k: int| j <= k < s.len() ==> #[trigger] s[k].order > x.order,
        j == 0 || s[j - 1].order <= x.order,
    ensures
        insert_by_order(s, x) == s.insert(j, x),
    decreases s.len(),
{
    if s.len() == 0 {
        assert(s.insert(j, x) =~= seq![x]);
    } else if s.last().order <= x.order {
        assert(j == s.len());
        assert(s.insert(j, x) =~= s.push(x));
    } else {
        lemma_insert_by_order(s.drop_last(), x, j);
        assert(s.drop_last().insert(j, x).push(s.last()) =~= s.insert(j, x));
    }
}

/// `sort_by_order` orders by `order` and keeps every task.
pub proof fn lemma_sort_by_order(s: Seq<TaskView>)
    ensures
        sorted_by_order(sort_by_order(s)),
        sort_by_order(s).to_multiset() == s.to_multiset(),
    decreases s.len(),
{
    broadcast use vstd::seq_lib::group_to_multiset_ensures;
    if s.len() > 0 {
        let t = sort_by_order(s.drop_last());
        lemma_sort_by_order(s.drop_last());
        lemma_insert_sorted(t, s.last());
        assert(s.drop_last().push(s.last()) =~= s);
    }
}

proof fn lemma_insert_sorted(s: Seq<TaskView>, x: TaskView)
    requires
        sorted_by_order(s),
    ensures
        sorted_by_order(insert_by_order(s, x)),
        insert_by_order(s, x).to_multiset() == s.to_multiset().insert(x),
        insert_by_order(s, x).len() == s.len() + 1,
    decreases s.len(),
{
    broadcast use vstd::seq_lib::group_to_multiset_ensures;
    if s.len() == 0 {
        assert(seq![x] =~= Seq::<TaskView>::empty().push(x));
    } else if s.last().order <= x.order {
    } else {
        let init = s.drop_last();
        lemma_insert_sorted(init, x);
        let r = insert_by_order(init, x);
        assert forall|i: int, j: int| 0 <= i < j < r.len() + 1 implies r.push(s.last())[i].order <= r.push(s.last())[j].order by {
            if j == r.len() {
                // every element of r is an element of s (or x), all at most s.last()
                assert(r.to_multiset().contains(r[i]));
                assert(init.to_multiset().insert(x).contains(r[i]));
                if r[i] != x {
                    assert(init.to_multiset().contains(r[i]));
                    assert(init.contains(r[i]));
                    let k = choose|k: int| 0 <= k < init.len() && init[k] == r[i];
                    assert(s[k] == init[k]);
                }
            }
        }
        assert(init.push(s.last()) =~= s);
    }
}


fn waiting_for(pending: &Vec<PendingOp>, id: Id) -> (r: bool)
    ensures
        r == is_waiting(pending@, id),
{
    let mut i: usize = 0;
    while i < pending.len()
        invariant
            i <= pending.len(),
            forall|j: int| 0 <= j < i ==> pending@[j].spec_id() != id,
        decreases pending.len() - i,
    {
        if pending[i].id() == id {
            return true;
        }
        i += 1;
    }
    false
}

proof fn lemma_first_in_views(tasks: Seq<Task>, id: Id, i: int)
    requires
        first_with_id(tasks, id, i),
    ensures
        first_in_views(task_views(tasks), id, i),
        forall|k: int| first_in_views(task_views(tasks), id, k) ==> k == i,
{
    assert forall|k: int| first_in_views(task_views(tasks), id, k) implies k == i by {
        if k < i {
            assert(task_views(tasks)[k].id == tasks[k].id);
        }
        if k > i {
            assert(task_views(tasks)[i].id == tasks[i].id);
        }
    }
}

proof fn lemma_no_first_in_views(tasks: Seq<Task>, id: Id)
    requires
        !has_id(tasks, id),
    ensures
        !(exists|k: int| first_in_views(task_views(tasks), id, k)),
{
    if exists|k: int| first_in_views(task_views(tasks), id, k) {
        let k = choose|k: int| first_in_views(task_views(tasks), id, k);
        assert(tasks[k].id == id);
    }
}

/// The tasks sorted by order, stably.
pub fn sort_tasks_by_order(tasks: Vec<Task>) -> (r: Vec<Task>)
    ensures
        task_views(r@) == sort_by_order(task_views(tasks@)),
{
    let ghost views = task_views(tasks@);
    let mut sorted: Vec<Task> = Vec::new();
    let mut i: usize = 0;
    while i < tasks.len()
        invariant
            i <= tasks.len(),
            views == task_views(tasks@),
            task_views(sorted@) == sort_by_order(views.subrange(0, i as int)),
            sorted@.len() == i,
        decreases tasks.len() - i,
    {
        let t = tasks[i].clone();
        let mut j: usize = sorted.len();
        while j > 0 && sorted[j - 1].order > t.order
            invariant
                j <= sorted.len(),
                forall|k: int| j <= k < sorted@.len() ==> #[trigger] sorted@[k].order > t.order,
            decreases j,
        {
            j -= 1;
        }
        let ghost before = task_views(sorted@);
        proof {
            lemma_insert_by_order(before, t@, j as int);
            let prefix = views.subrange(0, i as int + 1);
            assert(prefix.drop_last() =~= views.subrange(0, i as int));
            assert(prefix.last() == t@);
        }
        sorted.insert(j, t);
        assert(task_views(sorted@) =~= before.insert(j as int, t@));
        i += 1;
    }
    assert(views.subrange(0, views.len() as int) =~= views);
    sorted
}

/// The distinct ids of `tasks`, ascending.
fn sorted_ids(tasks: &Vec<Task>) -> (r: Vec<Id>)
    ensures
        strictly_increasing(r@),
        forall|id: Id| r@.contains(id) <==> has_id(tasks@, id),
{
    let mut ids: Vec<Id> = Vec::new();
    let mut i: usize = 0;
    while i < tasks.len()
        invariant
            i <= tasks.len(),
            strictly_increasing(ids@),
            forall|id: Id| ids@.contains(id) <==> exists|j: int| 0 <= j < i && tasks@[j].id == id,
        decreases tasks.len() - i,
    {
        let id = tasks[i].id;
        let mut p: usize = 0;
        while p < ids.len() && ids[p] < id
            invariant
                p <= ids.len(),
                forall|k: int| 0 <= k < p ==> ids@[k] < id,
            decreases ids.len() - p,
        {
            p += 1;
        }
        let ghost before = ids@;
        if p < ids.len() && ids[p] == id {
            assert forall|x: Id| ids@.contains(x) <==> exists|j: int| 0 <= j < i + 1 && tasks@[j].id == x by {
                if x == id {
                    assert(ids@[p as int] == id);
                }
            }
        } else {
            ids.insert(p, id);
            assert(ids@ =~= before.insert(p as int, id));
            assert forall|x: Id| ids@.contains(x) <==> exists|j: int| 0 <= j < i + 1 && tasks@[j].id == x by {
                if x == id {
                    assert(ids@[p as int] == id);
                } else {
                    if before.contains(x) {
                        let k = choose|k: int| 0 <= k < before.len() && before[k] == x;
                        if k < p {
                            assert(ids@[k] == x);
                        } else {
                            assert(ids@[k + 1] == x);
                        }
                    }
                    if ids@.contains(x) {
                        let k = choose|k: int| 0 <= k < ids@.len() && ids@[k] == x;
                        if k < p {
                            assert(before[k] == x);
                        } else {
                            assert(before[k - 1] == x);
                        }
                    }
                }
            }
        }
        i += 1;
    }
    ids
}

/// `new` is `old` after a sync turn merged: the replies `sent` settle the upload queue and the
/// known server tasks; with a pull (`remote`), the server's tasks are merged in and tasks deleted
/// on the server go, and `assigned` are the tasks someone else newly assigned to the account.
pub open spec fn merged(
    old: &Data,
    sent: Seq<SentView>,
    remote: Option<Vec<Task>>,
    now: Millis,
    new: &Data,
    assigned: Seq<Id>,
) -> bool {
    let s1 = apply_all_sent(old.tasks@, (old.pending@, old.remote_ids@), sent);
    &&& new.pending@ == s1.0
    &&& remote is None ==> {
        &&& new.remote_ids@ == s1.1
        &&& new.tasks == old.tasks
        &&& new.last_sync == old.last_sync
        &&& assigned.len() == 0
    }
    &&& remote matches Some(rs) ==> {
        let kept = task_views(old.tasks@).filter(
            |t: TaskView| on_server(rs@, t.id) || is_waiting(s1.0, t.id) || !s1.1.contains(t.id),
        );
        let m = merge_all((kept, Seq::empty()), task_views(rs@), s1.0, old.spec_me(), old.last_sync is None);
        &&& task_views(new.tasks@) == sort_by_order(m.0)
        &&& assigned == m.1
        &&& strictly_increasing(new.remote_ids@)
        &&& forall|id: Id| new.remote_ids@.contains(id) <==> on_server(rs@, id)
        &&& new.last_sync == Some(now)
    }
    &&& new.account == old.account
    &&& new.last_account == old.last_account
    &&& new.notices == old.notices
    &&& new.groups == old.groups
    &&& new.profiles == old.profiles
    &&& new.settings == old.settings
    &&& new.version == old.version
}

impl Data {
    /// Applies a sync turn: finished uploads leave the queue (unless the task changed again
    /// during the turn), then the server's tasks replace local ones that have nothing waiting,
    /// and tasks deleted on the server go away here too. `remote` is `None` when the pull did not
    /// get through. Returns the tasks someone else newly assigned to the account (none on the
    /// first pull).
    pub fn merge_sync(&mut self, sent: &[Sent], remote: Option<Vec<Task>>, now: Millis) -> (r: Vec<Id>)
        ensures
            merged(old(self), sent_views(sent@), remote, now, final(self), r@),
            remote is Some ==> in_display_order(final(self).tasks@),
            in_display_order(old(self).tasks@) ==> in_display_order(final(self).tasks@),
    {
        let ghost sv = sent_views(sent@);
        let mut i: usize = 0;
        while i < sent.len()
            invariant
                i <= sent.len(),
                sv == sent_views(sent@),
                (self.pending@, self.remote_ids@) == apply_all_sent(
                    old(self).tasks@,
                    (old(self).pending@, old(self).remote_ids@),
                    sv.subrange(0, i as int),
                ),
                self.tasks == old(self).tasks,
                self.last_sync == old(self).last_sync,
                self.account == old(self).account,
                self.last_account == old(self).last_account,
                self.notices == old(self).notices,
                self.groups == old(self).groups,
                self.profiles == old(self).profiles,
                self.settings == old(self).settings,
                self.version == old(self).version,
            decreases sent.len() - i,
        {
            let ghost prefix = sv.subrange(0, i as int + 1);
            assert(prefix.drop_last() =~= sv.subrange(0, i as int));
            assert(prefix.last() == sent@[i as int]@);
            let done = &sent[i];
            match done.op {
                PendingOp::Upsert(id) => {
                    let cur = find_task(&self.tasks, id);
                    let gone = cur.is_none();
                    let same = match (cur, &done.snapshot) {
                        (Some(k), Some(snap)) => self.tasks[k].same_as(snap),
                        _ => false,
                    };
                    proof {
                        match cur {
                            Some(k) => lemma_first_view(self.tasks@, id, k as int),
                            None => lemma_first_view_none(self.tasks@, id),
                        }
                    }
                    if gone || same {
                        remove_op(&mut self.pending, done.op);
                    }
                    if done.uploaded {
                        if !contains_id(&self.remote_ids, id) {
                            self.remote_ids.push(id);
                        }
                        if gone && !contains_op(&self.pending, PendingOp::Delete(id)) {
                            self.pending.push(PendingOp::Delete(id));
                        }
                    }
                },
                PendingOp::Delete(id) => {
                    remove_op(&mut self.pending, done.op);
                    remove_id(&mut self.remote_ids, id);
                },
            }
            i += 1;
        }
        assert(sv.subrange(0, sv.len() as int) =~= sv);
        let remote = match remote {
            Some(remote) => remote,
            None => return Vec::new(),
        };
        let me = self.me();
        let first_pull = self.last_sync.is_none();
        // tasks deleted on the server (known there, gone from the pull, nothing waiting) go
        let ghost views = task_views(self.tasks@);
        let ghost keep = |t: TaskView| on_server(remote@, t.id) || is_waiting(self.pending@, t.id) || !self.remote_ids@.contains(t.id);
        let mut kept: Vec<Task> = Vec::new();
        let mut k: usize = 0;
        while k < self.tasks.len()
            invariant
                k <= self.tasks.len(),
                views == task_views(self.tasks@),
                keep == (|t: TaskView| on_server(remote@, t.id) || is_waiting(self.pending@, t.id) || !self.remote_ids@.contains(t.id)),
                task_views(kept@) == views.subrange(0, k as int).filter(keep),
            decreases self.tasks.len() - k,
        {
            let ghost prefix = views.subrange(0, k as int + 1);
            assert(prefix.drop_last() =~= views.subrange(0, k as int));
            reveal(Seq::filter);
            let id = self.tasks[k].id;
            if find_task(&remote, id).is_some() || waiting_for(&self.pending, id) || !contains_id(&self.remote_ids, id) {
                kept.push(self.tasks[k].clone());
                assert(task_views(kept@) =~= prefix.filter(keep));
            }
            k += 1;
        }
        assert(views.subrange(0, views.len() as int) =~= views);
        let ghost rv = task_views(remote@);
        let ghost start = (task_views(kept@), Seq::<Id>::empty());
        let mut assigned: Vec<Id> = Vec::new();
        let mut k: usize = 0;
        while k < remote.len()
            invariant
                k <= remote.len(),
                rv == task_views(remote@),
                (task_views(kept@), assigned@) == merge_all(start, rv.subrange(0, k as int), self.pending@, me, first_pull),
            decreases remote.len() - k,
        {
            let ghost prefix = rv.subrange(0, k as int + 1);
            assert(prefix.drop_last() =~= rv.subrange(0, k as int));
            assert(prefix.last() == remote@[k as int]@);
            let r = &remote[k];
            if !waiting_for(&self.pending, r.id) {
                let local = find_task(&kept, r.id);
                proof {
                    match local {
                        Some(j) => lemma_first_in_views(kept@, r.id, j as int),
                        None => lemma_no_first_in_views(kept@, r.id),
                    }
                }
                let newly_mine = me.is_some() && r.assignee_id == me && match local {
                    None => true,
                    Some(j) => kept[j].assignee_id != me,
                };
                if newly_mine && !first_pull && r.owner_id != me {
                    assigned.push(r.id);
                }
                let ghost cur = task_views(kept@);
                match local {
                    Some(j) => {
                        kept.set(j, r.clone());
                        assert(task_views(kept@) =~= cur.update(j as int, r@));
                    },
                    None => {
                        kept.push(r.clone());
                        assert(task_views(kept@) =~= cur.push(r@));
                    },
                }
            }
            k += 1;
        }
        assert(rv.subrange(0, rv.len() as int) =~= rv);
        self.tasks = sort_tasks_by_order(kept);
        proof {
            lemma_sort_by_order(task_views(kept@));
        }
        self.remote_ids = sorted_ids(&remote);
        self.last_sync = Some(now);
        assigned
    }
}

proof fn lemma_filter_map_push<A>(s: Seq<A>, x: A, p: spec_fn(A) -> bool)
    ensures
        s.push(x).filter(p) == if p(x) {
            s.filter(p).push(x)
        } else {
            s.filter(p)
        },
        forall|f: spec_fn(A) -> Id| #[trigger] s.push(x).filter(p).map_values(f) == if p(x) {
            s.filter(p).map_values(f).push(f(x))
        } else {
            s.filter(p).map_values(f)
        },
{
    reveal(Seq::filter);
    assert(s.push(x).drop_last() =~= s);
    assert forall|f: spec_fn(A) -> Id| #[trigger] s.push(x).filter(p).map_values(f) == if p(x) {
        s.filter(p).map_values(f).push(f(x))
    } else {
        s.filter(p).map_values(f)
    } by {
        if p(x) {
            assert(s.filter(p).push(x).map_values(f) =~= s.filter(p).map_values(f).push(f(x)));
        }
    }
}

proof fn lemma_all_read(s: Seq<Notice>)
    requires
        forall|i: int| 0 <= i < s.len() ==> #[trigger] s[i].read,
    ensures
        unread_count(s) == 0,
    decreases s.len(),
{
    if s.len() > 0 {
        lemma_all_read(s.drop_last());
    }
}

proof fn lemma_filter_all<A>(s: Seq<A>, p: spec_fn(A) -> bool)
    requires
        forall|i: int| 0 <= i < s.len() ==> p(#[trigger] s[i]),
    ensures
        s.filter(p) == s,
    decreases s.len(),
{
    reveal(Seq::filter);
    if s.len() > 0 {
        lemma_filter_all(s.drop_last(), p);
        assert(s.drop_last().push(s.last()) =~= s);
    }
}

proof fn lemma_filter_shorter<A>(s: Seq<A>, p: spec_fn(A) -> bool, k: int)
    requires
        0 <= k < s.len(),
        !p(s[k]),
    ensures
        s.filter(p).len() < s.len(),
    decreases s.len(),
{
    reveal(Seq::filter);
    if k < s.len() - 1 {
        lemma_filter_shorter(s.drop_last(), p, k);
    } else {
        s.drop_last().lemma_filter_len(p);
    }
}

} // verus!

verus! {

// ----- laws -----

/// A new task goes after every task: its order is one past the largest order in use (0 when
/// there is none).
pub proof fn law_new_task_goes_last(tasks: Seq<Task>)
    requires
        orders_below_max(tasks),
    ensures
        forall|i: int| 0 <= i < tasks.len() ==> #[trigger] tasks[i].order < next_order(tasks),
        i64::MIN < next_order(tasks) <= i64::MAX,
        tasks.len() == 0 ==> next_order(tasks) == 0,
        tasks.len() > 0 ==> exists|i: int| 0 <= i < tasks.len() && next_order(tasks) == #[trigger] tasks[i].order + 1,
{
    lemma_next_order_bounds(tasks);
}

/// Moving a task keeps every task (as a multiset of ids) and numbers the orders by position.
pub proof fn law_move_keeps_tasks_and_numbers_them(tasks: Seq<TaskView>, from: int, to: int)
    requires
        0 <= from < tasks.len(),
        0 <= to < tasks.len(),
        tasks.len() <= i64::MAX,
    ensures
        moved(tasks, from, to).len() == tasks.len(),
        moved(tasks, from, to).map_values(|t: TaskView| t.id).to_multiset() == tasks.map_values(
            |t: TaskView| t.id,
        ).to_multiset(),
        forall|i: int| 0 <= i < tasks.len() ==> #[trigger] moved(tasks, from, to)[i].order == i,
        moved(tasks, from, to)[to].id == tasks[from].id,
        sorted_by_order(moved(tasks, from, to)),
{
    broadcast use vstd::seq_lib::group_to_multiset_ensures;
    let ids = tasks.map_values(|t: TaskView| t.id);
    let m = tasks.remove(from).insert(to, tasks[from]);
    let r = moved(tasks, from, to);
    assert(r.map_values(|t: TaskView| t.id) =~= ids.remove(from).insert(to, ids[from]));
    let removed = ids.remove(from);
    assert(removed.insert(to, ids[from]) =~= removed.subrange(0, to).push(ids[from]) + removed.subrange(to, removed.len() as int));
    assert(removed =~= removed.subrange(0, to) + removed.subrange(to, removed.len() as int));
    vstd::seq_lib::lemma_multiset_commutative(removed.subrange(0, to).push(ids[from]), removed.subrange(to, removed.len() as int));
    vstd::seq_lib::lemma_multiset_commutative(removed.subrange(0, to), removed.subrange(to, removed.len() as int));
    assert(removed.to_multiset() == ids.to_multiset().remove(ids[from]));
    assert(ids.to_multiset().remove(ids[from]).insert(ids[from]) =~= ids.to_multiset());
}

/// The upload queue holds at most one `Upsert` per task.
pub open spec fn one_upsert_per_task(pending: Seq<PendingOp>) -> bool {
    forall|i: int, j: int|
        0 <= i < j < pending.len() ==> !(pending[i] == pending[j] && pending[i] is Upsert)
}

proof fn lemma_filter_keeps_one_upsert(pending: Seq<PendingOp>, p: spec_fn(PendingOp) -> bool)
    requires
        one_upsert_per_task(pending),
    ensures
        one_upsert_per_task(pending.filter(p)),
    decreases pending.len(),
{
    reveal(Seq::filter);
    if pending.len() > 0 {
        let init = pending.drop_last();
        assert(one_upsert_per_task(init)) by {
            assert forall|i: int, j: int| 0 <= i < j < init.len() implies !(init[i] == init[j] && init[i] is Upsert) by {
                assert(init[i] == pending[i] && init[j] == pending[j]);
            }
        }
        lemma_filter_keeps_one_upsert(init, p);
        let f = init.filter(p);
        if p(pending.last()) {
            assert forall|i: int, j: int| 0 <= i < j < f.len() + 1 implies !(f.push(pending.last())[i] == f.push(pending.last())[j] && f.push(pending.last())[i] is Upsert) by {
                if j == f.len() && f[i] == pending.last() && f[i] is Upsert {
                    assert(f.contains(f[i]));
                    init.lemma_filter_contains_rev(p, f[i]);
                    let k = choose|k: int| 0 <= k < init.len() && init[k] == f[i];
                    assert(pending[k] == pending[pending.len() - 1]);
                }
            }
        }
    }
}

/// Every queueing step keeps at most one `Upsert` per task.
pub proof fn law_queue_keeps_one_upsert_per_task(pending: Seq<PendingOp>, ids: Seq<Id>, remote: Seq<Id>, gone: Seq<Id>)
    requires
        one_upsert_per_task(pending),
    ensures
        one_upsert_per_task(queue_upserts(pending, ids)),
        one_upsert_per_task(forget_all_gone(queue_upserts(pending, ids), remote, gone)),
    decreases ids.len() + gone.len(),
{
    if gone.len() > 0 {
        law_queue_keeps_one_upsert_per_task(pending, ids, remote, gone.drop_last());
        let before = forget_all_gone(queue_upserts(pending, ids), remote, gone.drop_last());
        let g = gone.last();
        let kept = before.filter(|op: PendingOp| op != PendingOp::Upsert(g));
        lemma_filter_keeps_one_upsert(before, |op: PendingOp| op != PendingOp::Upsert(g));
    } else if ids.len() > 0 {
        law_queue_keeps_one_upsert_per_task(pending, ids.drop_last(), remote, gone);
        let before = queue_upserts(pending, ids.drop_last());
        let id = ids.last();
        if !before.contains(PendingOp::Upsert(id)) {
            assert forall|i: int, j: int| 0 <= i < j < before.len() + 1 implies !(before.push(PendingOp::Upsert(id))[i] == before.push(PendingOp::Upsert(id))[j] && before.push(PendingOp::Upsert(id))[i] is Upsert) by {
                if j == before.len() && before[i] == PendingOp::Upsert(id) {
                    assert(before.contains(PendingOp::Upsert(id)));
                }
            }
        }
    }
}

proof fn lemma_queue_upserts_contains(pending: Seq<PendingOp>, ids: Seq<Id>, op: PendingOp)
    ensures
        queue_upserts(pending, ids).contains(op) <==> (pending.contains(op) || (op is Upsert && ids.contains(op.spec_id()))),
    decreases ids.len(),
{
    if ids.len() > 0 {
        lemma_queue_upserts_contains(pending, ids.drop_last(), op);
        let before = queue_upserts(pending, ids.drop_last());
        let id = ids.last();
        if ids.drop_last().contains(op.spec_id()) {
            let k = choose|k: int| 0 <= k < ids.drop_last().len() && ids.drop_last()[k] == op.spec_id();
            assert(ids[k] == op.spec_id());
        }
        if ids.contains(op.spec_id()) && op.spec_id() != id {
            let k = choose|k: int| 0 <= k < ids.len() && ids[k] == op.spec_id();
            assert(ids.drop_last()[k] == op.spec_id());
        }
        if !before.contains(PendingOp::Upsert(id)) {
            if before.push(PendingOp::Upsert(id)).contains(op) && op != PendingOp::Upsert(id) {
                let k = choose|k: int| 0 <= k < before.len() + 1 && before.push(PendingOp::Upsert(id))[k] == op;
                assert(before[k] == op);
            }
            if before.contains(op) {
                let k = choose|k: int| 0 <= k < before.len() && before[k] == op;
                assert(before.push(PendingOp::Upsert(id))[k] == op);
            }
            assert(before.push(PendingOp::Upsert(id))[before.len() as int] == PendingOp::Upsert(id));
            assert(ids[ids.len() - 1] == id);
        } else {
            assert(ids[ids.len() - 1] == id);
        }
    }
}

proof fn lemma_forget_all_gone_contains(pending: Seq<PendingOp>, remote: Seq<Id>, gone: Seq<Id>, op: PendingOp)
    ensures
        forget_all_gone(pending, remote, gone).contains(op) <==> (
            (pending.contains(op) && !(op is Upsert && gone.contains(op.spec_id())))
            || (op is Delete && gone.contains(op.spec_id()) && remote.contains(op.spec_id()))),
    decreases gone.len(),
{
    if gone.len() > 0 {
        let init = gone.drop_last();
        let g = gone.last();
        lemma_forget_all_gone_contains(pending, remote, init, op);
        let before = forget_all_gone(pending, remote, init);
        let p = |o: PendingOp| o != PendingOp::Upsert(g);
        let kept = before.filter(p);
        if before.contains(op) && p(op) {
            let k = choose|k: int| 0 <= k < before.len() && before[k] == op;
            before.lemma_filter_contains(p, k);
        }
        if kept.contains(op) {
            before.lemma_filter_contains_rev(p, op);
        }
        if kept.push(PendingOp::Delete(g)).contains(op) && op != PendingOp::Delete(g) {
            let k = choose|k: int| 0 <= k < kept.len() + 1 && kept.push(PendingOp::Delete(g))[k] == op;
            assert(kept[k] == op);
        }
        if kept.contains(op) {
            let k = choose|k: int| 0 <= k < kept.len() && kept[k] == op;
            assert(kept.push(PendingOp::Delete(g))[k] == op);
        }
        assert(kept.push(PendingOp::Delete(g))[kept.len() as int] == PendingOp::Delete(g));
        assert(gone[gone.len() - 1] == g);
        if init.contains(op.spec_id()) {
            let k = choose|k: int| 0 <= k < init.len() && init[k] == op.spec_id();
            assert(gone[k] == op.spec_id());
        }
        if gone.contains(op.spec_id()) && op.spec_id() != g {
            let k = choose|k: int| 0 <= k < gone.len() && gone[k] == op.spec_id();
            assert(init[k] == op.spec_id());
        }
    }
}

/// After tracking changes, every changed task waits for an upload, a task deleted here waits for
/// no upload, and one the server knows waits for a delete there; nothing else is added.
pub proof fn law_tracked_changes_are_queued(tasks: Seq<Task>, before: Seq<Task>, pending: Seq<PendingOp>, remote: Seq<Id>)
    ensures
        ({
            let out = forget_all_gone(queue_upserts(pending, changed_ids(tasks, before)), remote, gone_ids(tasks, before));
            &&& forall|i: int| 0 <= i < tasks.len() && is_changed(#[trigger] tasks[i]@, before) ==> out.contains(PendingOp::Upsert(tasks[i].id))
            &&& forall|i: int| 0 <= i < before.len() && !has_id(tasks, #[trigger] before[i].id) ==> !out.contains(PendingOp::Upsert(before[i].id))
            &&& forall|i: int| 0 <= i < before.len() && !has_id(tasks, #[trigger] before[i].id) && remote.contains(before[i].id) ==> out.contains(PendingOp::Delete(before[i].id))
        }),
{
    let changed = changed_ids(tasks, before);
    let gone = gone_ids(tasks, before);
    let queued = queue_upserts(pending, changed);
    let pc = |t: Task| is_changed(t@, before);
    let pg = |t: Task| !has_id(tasks, t.id);
    assert forall|i: int| 0 <= i < tasks.len() && is_changed(#[trigger] tasks[i]@, before) implies forget_all_gone(queued, remote, gone).contains(PendingOp::Upsert(tasks[i].id)) by {
        let id = tasks[i].id;
        tasks.lemma_filter_contains(pc, i);
        let k = choose|k: int| 0 <= k < tasks.filter(pc).len() && tasks.filter(pc)[k] == tasks[i];
        assert(changed[k] == id);
        lemma_queue_upserts_contains(pending, changed, PendingOp::Upsert(id));
        lemma_forget_all_gone_contains(queued, remote, gone, PendingOp::Upsert(id));
        if gone.contains(id) {
            let j = choose|j: int| 0 <= j < gone.len() && gone[j] == id;
            assert(pg(before.filter(pg)[j]));
            assert(tasks[i].id == id);
        }
    }
    assert forall|i: int| 0 <= i < before.len() && !has_id(tasks, #[trigger] before[i].id) implies !forget_all_gone(queued, remote, gone).contains(PendingOp::Upsert(before[i].id)) && (remote.contains(before[i].id) ==> forget_all_gone(queued, remote, gone).contains(PendingOp::Delete(before[i].id))) by {
        let id = before[i].id;
        before.lemma_filter_contains(pg, i);
        let k = choose|k: int| 0 <= k < before.filter(pg).len() && before.filter(pg)[k] == before[i];
        assert(gone[k] == id);
        lemma_forget_all_gone_contains(queued, remote, gone, PendingOp::Upsert(id));
        lemma_forget_all_gone_contains(queued, remote, gone, PendingOp::Delete(id));
    }
}

/// Tracking changes, from a queue with at most one upload per task: every changed task waits for
/// exactly one upload, a task deleted here for none; the server's copy of a deleted task waits
/// for a delete; and a changed task that had an earlier version gets an `updated_at` later than
/// that version's, nothing else about it changing.
pub proof fn law_each_change_queued_once(
    tasks: Seq<Task>,
    before: Seq<Task>,
    pending: Seq<PendingOp>,
    remote: Seq<Id>,
    now: Millis,
)
    requires
        one_upsert_per_task(pending),
        updated_at_in_range(before),
    ensures
        ({
            let out = forget_all_gone(queue_upserts(pending, changed_ids(tasks, before)), remote, gone_ids(tasks, before));
            &&& one_upsert_per_task(out)
            &&& forall|i: int| 0 <= i < tasks.len() && is_changed(#[trigger] tasks[i]@, before) ==> exists|k: int|
                0 <= k < out.len() && out[k] == PendingOp::Upsert(tasks[i].id) && forall|j: int|
                    0 <= j < out.len() && j != k ==> out[j] != PendingOp::Upsert(tasks[i].id)
            &&& forall|i: int| 0 <= i < before.len() && !has_id(tasks, #[trigger] before[i].id) ==> !out.contains(
                PendingOp::Upsert(before[i].id),
            ) && (remote.contains(before[i].id) ==> out.contains(PendingOp::Delete(before[i].id)))
            &&& forall|i: int| 0 <= i < tasks.len() && (#[trigger] previous(before, tasks[i].id)) is Some && is_changed(
                tasks[i]@,
                before,
            ) ==> bumped(tasks[i]@, before, now).updated_at > previous(before, tasks[i].id)->0.updated_at
            &&& forall|i: int| 0 <= i < tasks.len() ==> bumped(#[trigger] tasks[i]@, before, now) == (TaskView {
                updated_at: bumped(tasks[i]@, before, now).updated_at,
                ..tasks[i]@
            })
        }),
{
    let out = forget_all_gone(queue_upserts(pending, changed_ids(tasks, before)), remote, gone_ids(tasks, before));
    law_queue_keeps_one_upsert_per_task(pending, changed_ids(tasks, before), remote, gone_ids(tasks, before));
    law_tracked_changes_are_queued(tasks, before, pending, remote);
    assert forall|i: int| 0 <= i < tasks.len() && (#[trigger] previous(before, tasks[i].id)) is Some && is_changed(
        tasks[i]@,
        before,
    ) implies bumped(tasks[i]@, before, now).updated_at > previous(before, tasks[i].id)->0.updated_at by {
        let t = tasks[i]@;
        assert(t.id == tasks[i].id);
        let p = previous(before, t.id)->0;
        let j = choose|j: int| last_with_id(before, t.id, j);
        assert(before[j].updated_at < i64::MAX);
        if t.updated_at <= p.updated_at {
            assert(p != t);
        }
    }
    assert forall|i: int| 0 <= i < tasks.len() implies bumped(#[trigger] tasks[i]@, before, now) == (TaskView {
        updated_at: bumped(tasks[i]@, before, now).updated_at,
        ..tasks[i]@
    }) by {}
    assert forall|i: int| 0 <= i < tasks.len() && is_changed(#[trigger] tasks[i]@, before) implies exists|k: int|
        0 <= k < out.len() && out[k] == PendingOp::Upsert(tasks[i].id) && forall|j: int|
            0 <= j < out.len() && j != k ==> out[j] != PendingOp::Upsert(tasks[i].id) by {
        assert(out.contains(PendingOp::Upsert(tasks[i].id)));
        let k = choose|k: int| 0 <= k < out.len() && out[k] == PendingOp::Upsert(tasks[i].id);
        assert forall|j: int| 0 <= j < out.len() && j != k implies out[j] != PendingOp::Upsert(tasks[i].id) by {
            if j < k {
                assert(!(out[j] == out[k] && out[j] is Upsert));
            } else {
                assert(!(out[k] == out[j] && out[k] is Upsert));
            }
        }
    }
}

/// A merge never touches a local task whose upload is still waiting.
pub proof fn law_waiting_tasks_survive_merge(
    state: (Seq<TaskView>, Seq<Id>),
    remote: Seq<TaskView>,
    pending: Seq<PendingOp>,
    me: Option<Id>,
    first_pull: bool,
    i: int,
)
    requires
        0 <= i < state.0.len(),
        is_waiting(pending, state.0[i].id),
    ensures
        merge_all(state, remote, pending, me, first_pull).0.len() >= state.0.len(),
        merge_all(state, remote, pending, me, first_pull).0[i] == state.0[i],
    decreases remote.len(),
{
    if remote.len() > 0 {
        law_waiting_tasks_survive_merge(state, remote.drop_last(), pending, me, first_pull, i);
        let mid = merge_all(state, remote.drop_last(), pending, me, first_pull);
        let r = remote.last();
        if !is_waiting(pending, r.id) && exists|j: int| first_in_views(mid.0, r.id, j) {
            let j = choose|j: int| first_in_views(mid.0, r.id, j);
            assert(j != i);
        }
    }
}

/// After a merge, every server task without a waiting upload has a local copy.
pub proof fn law_server_tasks_arrive(
    state: (Seq<TaskView>, Seq<Id>),
    remote: Seq<TaskView>,
    pending: Seq<PendingOp>,
    me: Option<Id>,
    first_pull: bool,
)
    ensures
        forall|k: int| 0 <= k < remote.len() && !is_waiting(pending, #[trigger] remote[k].id) ==> exists|j: int|
            0 <= j < merge_all(state, remote, pending, me, first_pull).0.len()
                && merge_all(state, remote, pending, me, first_pull).0[j].id == remote[k].id,
    decreases remote.len(),
{
    if remote.len() > 0 {
        let init = remote.drop_last();
        law_server_tasks_arrive(state, init, pending, me, first_pull);
        let mid = merge_all(state, init, pending, me, first_pull);
        let out = merge_all(state, remote, pending, me, first_pull);
        let r = remote.last();
        assert forall|k: int| 0 <= k < remote.len() && !is_waiting(pending, #[trigger] remote[k].id) implies exists|j: int|
            0 <= j < out.0.len() && out.0[j].id == remote[k].id by {
            if k == remote.len() - 1 {
                if exists|j: int| first_in_views(mid.0, r.id, j) {
                    let j = choose|j: int| first_in_views(mid.0, r.id, j);
                    assert(out.0[j].id == r.id);
                } else {
                    assert(out.0[mid.0.len() as int].id == r.id);
                }
            } else {
                assert(init[k] == remote[k]);
                let j = choose|j: int| 0 <= j < mid.0.len() && mid.0[j].id == remote[k].id;
                if !is_waiting(pending, r.id) {
                    if exists|x: int| first_in_views(mid.0, r.id, x) {
                        let x = choose|x: int| first_in_views(mid.0, r.id, x);
                        if x == j {
                            assert(out.0[x].id == r.id);
                            assert(r.id == remote[k].id);
                        } else {
                            assert(out.0[j] == mid.0[j]);
                        }
                    } else {
                        assert(out.0[j] == mid.0[j]);
                    }
                }
            }
        }
    }
}

/// No two tasks share an id.
pub open spec fn distinct_ids(s: Seq<TaskView>) -> bool {
    forall|i: int, j: int| 0 <= i < j < s.len() ==> s[i].id != s[j].id
}

pub open spec fn has_view_id(s: Seq<TaskView>, id: Id) -> bool {
    exists|k: int| 0 <= k < s.len() && s[k].id == id
}

/// The server task `t` is newly assigned to `me` by someone else: nothing waits for it here, it is
/// assigned to `me`, not owned by `me`, and the local copy (the first with its id, if any) was not
/// assigned to `me`.
pub open spec fn newly_assigned(local: Seq<TaskView>, t: TaskView, pending: Seq<PendingOp>, me: Option<Id>) -> bool {
    &&& !is_waiting(pending, t.id)
    &&& me is Some
    &&& t.assignee_id == me
    &&& t.owner_id != me
    &&& !(exists|i: int| first_in_views(local, t.id, i) && local[i].assignee_id == me)
}

/// The ids, in the server's order, of the server tasks newly assigned to `me`.
pub open spec fn assigned_ids(local: Seq<TaskView>, remote: Seq<TaskView>, pending: Seq<PendingOp>, me: Option<Id>) -> Seq<Id>
    decreases remote.len(),
{
    if remote.len() == 0 {
        Seq::empty()
    } else {
        let rest = assigned_ids(local, remote.drop_last(), pending, me);
        if newly_assigned(local, remote.last(), pending, me) {
            rest.push(remote.last().id)
        } else {
            rest
        }
    }
}

proof fn lemma_first_exists(s: Seq<TaskView>, id: Id, j: int)
    requires
        0 <= j < s.len(),
        s[j].id == id,
    ensures
        exists|i: int| first_in_views(s, id, i),
    decreases j,
{
    if exists|k: int| 0 <= k < j && s[k].id == id {
        let k = choose|k: int| 0 <= k < j && s[k].id == id;
        lemma_first_exists(s, id, k);
    } else {
        assert(first_in_views(s, id, j));
    }
}

/// What merging the server's tasks into a local list with distinct ids does, for distinct
/// server ids: the ids stay distinct; every task after it was local or from the server; every
/// server task without a waiting upload is there, alone with its id; and a local task whose id
/// the server does not have stays exactly.
proof fn lemma_merge_all(
    state: (Seq<TaskView>, Seq<Id>),
    remote: Seq<TaskView>,
    pending: Seq<PendingOp>,
    me: Option<Id>,
    first_pull: bool,
)
    requires
        distinct_ids(state.0),
        distinct_ids(remote),
    ensures
        ({
            let out = merge_all(state, remote, pending, me, first_pull);
            &&& distinct_ids(out.0)
            &&& forall|x: TaskView| #[trigger] out.0.contains(x) ==> state.0.contains(x) || remote.contains(x)
            &&& forall|k: int| 0 <= k < remote.len() && !is_waiting(pending, #[trigger] remote[k].id) ==> out.0.contains(remote[k])
            &&& forall|k: int, j: int| 0 <= k < remote.len() && !is_waiting(pending, remote[k].id) && 0 <= j < out.0.len()
                && #[trigger] out.0[j].id == #[trigger] remote[k].id ==> out.0[j] == remote[k]
            &&& forall|x: TaskView| !has_view_id(remote, x.id) ==> (#[trigger] out.0.contains(x) <==> state.0.contains(x))
        }),
    decreases remote.len(),
{
    if remote.len() > 0 {
        let init = remote.drop_last();
        let r = remote.last();
        assert(distinct_ids(init));
        lemma_merge_all(state, init, pending, me, first_pull);
        let mid = merge_all(state, init, pending, me, first_pull);
        let out = merge_all(state, remote, pending, me, first_pull);
        assert(out == merge_one(mid, r, pending, me, first_pull));
        assert forall|k: int| 0 <= k < init.len() implies #[trigger] init[k].id != r.id by {
            assert(remote[k] == init[k]);
        }
        assert forall|x: TaskView| has_view_id(init, x.id) implies has_view_id(remote, x.id) by {
            let k = choose|k: int| 0 <= k < init.len() && init[k].id == x.id;
            assert(remote[k] == init[k]);
        }
        assert forall|x: TaskView| init.contains(x) implies remote.contains(x) by {
            let k = choose|k: int| 0 <= k < init.len() && init[k] == x;
            assert(remote[k] == init[k]);
        }
        // the local elements with r's id are the state's
        assert forall|x: TaskView| x.id == r.id implies (mid.0.contains(x) <==> state.0.contains(x)) by {
            if has_view_id(init, x.id) {
                let k = choose|k: int| 0 <= k < init.len() && init[k].id == x.id;
            }
        }
        if is_waiting(pending, r.id) {
            assert(out == mid);
            assert forall|k: int| 0 <= k < remote.len() && !is_waiting(pending, #[trigger] remote[k].id) implies out.0.contains(remote[k]) by {
                assert(k < init.len());
                assert(init[k] == remote[k]);
            }
            assert forall|k: int, j: int| 0 <= k < remote.len() && !is_waiting(pending, remote[k].id) && 0 <= j < out.0.len()
                && #[trigger] out.0[j].id == #[trigger] remote[k].id implies out.0[j] == remote[k] by {
                assert(k < init.len());
                assert(init[k] == remote[k]);
            }
        } else {
            let found = exists|i: int| first_in_views(mid.0, r.id, i);
            if found {
                let i = choose|i: int| first_in_views(mid.0, r.id, i);
                assert(out.0 == mid.0.update(i, r));
                assert forall|x: TaskView| #[trigger] out.0.contains(x) implies state.0.contains(x) || remote.contains(x) by {
                    let j = choose|j: int| 0 <= j < out.0.len() && out.0[j] == x;
                    if j != i {
                        assert(mid.0.contains(mid.0[j]));
                    }
                }
                assert forall|k: int| 0 <= k < remote.len() && !is_waiting(pending, #[trigger] remote[k].id) implies out.0.contains(remote[k]) by {
                    if k == remote.len() - 1 {
                        assert(out.0[i] == r);
                    } else {
                        assert(init[k] == remote[k]);
                        let j = choose|j: int| 0 <= j < mid.0.len() && mid.0[j] == remote[k];
                        assert(out.0[j] == mid.0[j]);
                    }
                }
                assert forall|k: int, j: int| 0 <= k < remote.len() && !is_waiting(pending, remote[k].id) && 0 <= j < out.0.len()
                    && #[trigger] out.0[j].id == #[trigger] remote[k].id implies out.0[j] == remote[k] by {
                    if k == remote.len() - 1 {
                        if j != i {
                            assert(mid.0[j].id == mid.0[i].id);
                        }
                    } else {
                        assert(init[k] == remote[k]);
                        assert(j != i);
                        assert(mid.0[j] == out.0[j]);
                    }
                }
                assert forall|x: TaskView| !has_view_id(remote, x.id) implies (#[trigger] out.0.contains(x) <==> state.0.contains(x)) by {
                    assert(!has_view_id(init, x.id)) by {
                        if has_view_id(init, x.id) {
                            let k = choose|k: int| 0 <= k < init.len() && init[k].id == x.id;
                            assert(remote[k] == init[k]);
                        }
                    }
                    assert(x.id != r.id) by {
                        assert(remote[remote.len() - 1] == r);
                    }
                    if out.0.contains(x) {
                        let j = choose|j: int| 0 <= j < out.0.len() && out.0[j] == x;
                        assert(mid.0[j] == x);
                    }
                    if mid.0.contains(x) {
                        let j = choose|j: int| 0 <= j < mid.0.len() && mid.0[j] == x;
                        assert(out.0[j] == x);
                    }
                }
            } else {
                assert(out.0 == mid.0.push(r));
                assert forall|j: int| 0 <= j < mid.0.len() implies #[trigger] mid.0[j].id != r.id by {
                    if mid.0[j].id == r.id {
                        lemma_first_exists(mid.0, r.id, j);
                    }
                }
                assert forall|x: TaskView| #[trigger] out.0.contains(x) implies state.0.contains(x) || remote.contains(x) by {
                    let j = choose|j: int| 0 <= j < out.0.len() && out.0[j] == x;
                    if j < mid.0.len() {
                        assert(mid.0.contains(mid.0[j]));
                    } else {
                        assert(remote[remote.len() - 1] == x);
                    }
                }
                assert forall|k: int| 0 <= k < remote.len() && !is_waiting(pending, #[trigger] remote[k].id) implies out.0.contains(remote[k]) by {
                    if k == remote.len() - 1 {
                        assert(out.0[mid.0.len() as int] == r);
                    } else {
                        assert(init[k] == remote[k]);
                        let j = choose|j: int| 0 <= j < mid.0.len() && mid.0[j] == remote[k];
                        assert(out.0[j] == mid.0[j]);
                    }
                }
                assert forall|k: int, j: int| 0 <= k < remote.len() && !is_waiting(pending, remote[k].id) && 0 <= j < out.0.len()
                    && #[trigger] out.0[j].id == #[trigger] remote[k].id implies out.0[j] == remote[k] by {
                    if k == remote.len() - 1 {
                        if j < mid.0.len() {
                            assert(mid.0[j].id != r.id);
                        }
                    } else {
                        assert(init[k] == remote[k]);
                        if j < mid.0.len() {
                            assert(mid.0[j] == out.0[j]);
                        } else {
                            assert(out.0[j] == r);
                        }
                    }
                }
                assert forall|x: TaskView| !has_view_id(remote, x.id) implies (#[trigger] out.0.contains(x) <==> state.0.contains(x)) by {
                    assert(!has_view_id(init, x.id)) by {
                        if has_view_id(init, x.id) {
                            let k = choose|k: int| 0 <= k < init.len() && init[k].id == x.id;
                            assert(remote[k] == init[k]);
                        }
                    }
                    assert(x.id != r.id) by {
                        assert(remote[remote.len() - 1] == r);
                    }
                    if out.0.contains(x) {
                        let j = choose|j: int| 0 <= j < out.0.len() && out.0[j] == x;
                        assert(j < mid.0.len());
                        assert(mid.0[j] == x);
                    }
                    if mid.0.contains(x) {
                        let j = choose|j: int| 0 <= j < mid.0.len() && mid.0[j] == x;
                        assert(out.0[j] == x);
                    }
                }
            }
        }
    }
}

/// Leaving tasks out keeps their ids distinct.
proof fn lemma_filter_distinct(v: Seq<TaskView>, p: spec_fn(TaskView) -> bool)
    requires
        distinct_ids(v),
    ensures
        distinct_ids(v.filter(p)),
    decreases v.len(),
{
    reveal(Seq::filter);
    if v.len() > 0 {
        let init = v.drop_last();
        lemma_filter_distinct(init, p);
        let f = init.filter(p);
        if p(v.last()) {
            assert(v.filter(p) == f.push(v.last()));
            assert forall|i: int, j: int| 0 <= i < j < f.len() + 1 implies #[trigger] f.push(v.last())[i].id
                != #[trigger] f.push(v.last())[j].id by {
                if j == f.len() {
                    assert(f.contains(f[i]));
                    init.lemma_filter_contains_rev(p, f[i]);
                    let k = choose|k: int| 0 <= k < init.len() && init[k] == f[i];
                    assert(v[k] == f[i]);
                }
            }
        } else {
            assert(v.filter(p) == f);
        }
    }
}

proof fn lemma_assigned_same(a: Seq<TaskView>, b: Seq<TaskView>, remote: Seq<TaskView>, pending: Seq<PendingOp>, me: Option<Id>)
    requires
        forall|k: int| 0 <= k < remote.len() ==> newly_assigned(a, #[trigger] remote[k], pending, me) == newly_assigned(b, remote[k], pending, me),
    ensures
        assigned_ids(a, remote, pending, me) == assigned_ids(b, remote, pending, me),
    decreases remote.len(),
{
    if remote.len() > 0 {
        let init = remote.drop_last();
        assert forall|k: int| 0 <= k < init.len() implies newly_assigned(a, #[trigger] init[k], pending, me) == newly_assigned(b, init[k], pending, me) by {
            assert(remote[k] == init[k]);
        }
        lemma_assigned_same(a, b, init, pending, me);
        assert(remote[remote.len() - 1] == remote.last());
    }
}

/// Two first positions of an id are the same.
proof fn lemma_first_unique(s: Seq<TaskView>, id: Id, i: int, j: int)
    requires
        first_in_views(s, id, i),
        first_in_views(s, id, j),
    ensures
        i == j,
{
    if i < j {
        assert(s[i].id == id);
    } else if j < i {
        assert(s[j].id == id);
    }
}

/// Merging keeps the local positions in place (a position changes only when its id comes from
/// the server, and keeps its id), adds only server ids after them, and reports the newly
/// assigned tasks (for distinct server ids).
proof fn lemma_merge_positions(
    state: (Seq<TaskView>, Seq<Id>),
    remote: Seq<TaskView>,
    pending: Seq<PendingOp>,
    me: Option<Id>,
    first_pull: bool,
)
    requires
        distinct_ids(remote),
    ensures
        ({
            let out = merge_all(state, remote, pending, me, first_pull);
            &&& out.0.len() >= state.0.len()
            &&& forall|j: int| 0 <= j < state.0.len() ==> (#[trigger] out.0[j]).id == state.0[j].id
            &&& forall|j: int| 0 <= j < state.0.len() && !has_view_id(remote, state.0[j].id) ==> #[trigger] out.0[j] == state.0[j]
            &&& forall|j: int| state.0.len() <= j < out.0.len() ==> has_view_id(remote, (#[trigger] out.0[j]).id)
            &&& out.1 == (if first_pull { state.1 } else { state.1 + assigned_ids(state.0, remote, pending, me) })
        }),
    decreases remote.len(),
{
    if remote.len() == 0 {
        assert(state.1 + Seq::<Id>::empty() =~= state.1);
    } else {
        let init = remote.drop_last();
        let r = remote.last();
        assert(distinct_ids(init));
        lemma_merge_positions(state, init, pending, me, first_pull);
        let mid = merge_all(state, init, pending, me, first_pull);
        let out = merge_all(state, remote, pending, me, first_pull);
        assert(out == merge_one(mid, r, pending, me, first_pull));
        assert forall|k: int| 0 <= k < init.len() implies #[trigger] init[k].id != r.id by {
            assert(remote[k] == init[k]);
        }
        assert forall|x: Id| has_view_id(init, x) implies has_view_id(remote, x) by {
            let k = choose|k: int| 0 <= k < init.len() && init[k].id == x;
            assert(remote[k] == init[k]);
        }
        assert(has_view_id(remote, r.id)) by {
            assert(remote[remote.len() - 1] == r);
        }
        assert(!has_view_id(init, r.id));
        // the first position of r's id is the same in `mid` and in the state
        assert forall|i: int| first_in_views(mid.0, r.id, i) <==> first_in_views(state.0, r.id, i) by {
            if first_in_views(mid.0, r.id, i) {
                if i >= state.0.len() {
                    assert(has_view_id(init, mid.0[i].id));
                } else {
                    assert forall|k: int| 0 <= k < i implies state.0[k].id != r.id by {
                        assert(mid.0[k].id == state.0[k].id);
                    }
                }
            }
            if first_in_views(state.0, r.id, i) {
                assert forall|k: int| 0 <= k < i implies mid.0[k].id != r.id by {
                    assert(mid.0[k].id == state.0[k].id);
                }
                assert(mid.0[i].id == state.0[i].id);
            }
        }
        assert forall|i: int| first_in_views(state.0, r.id, i) implies mid.0[i] == state.0[i] by {
            assert(!has_view_id(init, state.0[i].id));
        }
        if is_waiting(pending, r.id) {
            assert(out == mid);
            assert(!newly_assigned(state.0, r, pending, me));
        } else {
            let found = exists|i: int| first_in_views(mid.0, r.id, i);
            let i = choose|i: int| first_in_views(mid.0, r.id, i);
            let newly_mine = me is Some && r.assignee_id == me && (!found || mid.0[i].assignee_id != me);
            assert((newly_mine && !first_pull && r.owner_id != me) == (!first_pull && newly_assigned(state.0, r, pending, me))) by {
                if exists|j: int| first_in_views(state.0, r.id, j) && state.0[j].assignee_id == me {
                    let j = choose|j: int| first_in_views(state.0, r.id, j) && state.0[j].assignee_id == me;
                    assert(first_in_views(mid.0, r.id, j));
                    lemma_first_unique(mid.0, r.id, i, j);
                }
                if found {
                    assert(first_in_views(state.0, r.id, i));
                }
            }
            if !first_pull {
                assert(state.1 + assigned_ids(state.0, remote, pending, me) =~= if newly_assigned(state.0, r, pending, me) {
                    (state.1 + assigned_ids(state.0, init, pending, me)).push(r.id)
                } else {
                    state.1 + assigned_ids(state.0, init, pending, me)
                });
            }
            if found {
                assert(out.0 == mid.0.update(i, r));
                assert forall|j: int| 0 <= j < state.0.len() && !has_view_id(remote, state.0[j].id) implies #[trigger] out.0[j] == state.0[j] by {
                    assert(!has_view_id(init, state.0[j].id));
                    if j == i {
                        assert(mid.0[j].id == r.id);
                    }
                }
                assert forall|j: int| state.0.len() <= j < out.0.len() implies has_view_id(remote, (#[trigger] out.0[j]).id) by {
                    if j != i {
                        assert(out.0[j] == mid.0[j]);
                    }
                }
            } else {
                assert(out.0 == mid.0.push(r));
                assert forall|j: int| 0 <= j < state.0.len() && !has_view_id(remote, state.0[j].id) implies #[trigger] out.0[j] == state.0[j] by {
                    assert(!has_view_id(init, state.0[j].id));
                    assert(out.0[j] == mid.0[j]);
                }
                assert forall|j: int| 0 <= j < state.0.len() implies (#[trigger] out.0[j]).id == state.0[j].id by {
                    assert(out.0[j] == mid.0[j]);
                }
                assert forall|j: int| state.0.len() <= j < out.0.len() implies has_view_id(remote, (#[trigger] out.0[j]).id) by {
                    if j < mid.0.len() {
                        assert(out.0[j] == mid.0[j]);
                    }
                }
            }
        }
    }
}

/// Keeping every task with the id `x` keeps the first of them first.
#[verifier::spinoff_prover]
#[verifier::rlimit(50)]
proof fn lemma_first_kept(v: Seq<TaskView>, p: spec_fn(TaskView) -> bool, x: Id)
    requires
        forall|k: int| 0 <= k < v.len() && (#[trigger] v[k]).id == x ==> p(v[k]),
    ensures
        forall|i: int| first_in_views(v, x, i) ==> exists|j: int| first_in_views(v.filter(p), x, j) && v.filter(p)[j] == v[i],
        forall|j: int| first_in_views(v.filter(p), x, j) ==> exists|i: int| first_in_views(v, x, i) && v.filter(p)[j] == v[i],
    decreases v.len(),
{
    reveal(Seq::filter);
    if v.len() > 0 {
        let init = v.drop_last();
        assert forall|k: int| 0 <= k < init.len() && (#[trigger] init[k]).id == x implies p(init[k]) by {
            assert(v[k] == init[k]);
        }
        lemma_first_kept(init, p, x);
        let f = init.filter(p);
        let last = v.last();
        assert(v[v.len() - 1] == last);
        let vf = v.filter(p);
        assert(vf == if p(last) { f.push(last) } else { f });
        assert forall|i: int| first_in_views(v, x, i) implies exists|j: int| first_in_views(vf, x, j) && vf[j] == v[i] by {
            if i < init.len() {
                assert(first_in_views(init, x, i)) by {
                    assert forall|k: int| 0 <= k < i implies init[k].id != x by {
                        assert(v[k] == init[k]);
                    }
                    assert(v[i] == init[i]);
                }
                let j = choose|j: int| first_in_views(f, x, j) && f[j] == init[i];
                assert(vf[j] == f[j]);
                assert(first_in_views(vf, x, j));
            } else {
                assert(p(last));
                assert forall|k: int| 0 <= k < f.len() implies f[k].id != x by {
                    if f[k].id == x {
                        lemma_first_exists(f, x, k);
                        let j = choose|j: int| first_in_views(f, x, j);
                        let i2 = choose|i2: int| first_in_views(init, x, i2) && f[j] == init[i2];
                        assert(v[i2] == init[i2]);
                    }
                }
                assert(first_in_views(vf, x, f.len() as int));
            }
        }
        assert forall|j: int| first_in_views(vf, x, j) implies exists|i: int| first_in_views(v, x, i) && vf[j] == v[i] by {
            if j < f.len() {
                assert(vf[j] == f[j]);
                assert(first_in_views(f, x, j)) by {
                    assert forall|k: int| 0 <= k < j implies f[k].id != x by {
                        assert(vf[k] == f[k]);
                    }
                }
                let i = choose|i: int| first_in_views(init, x, i) && f[j] == init[i];
                assert(v[i] == init[i]);
                assert(first_in_views(v, x, i)) by {
                    assert forall|k: int| 0 <= k < i implies v[k].id != x by {
                        assert(v[k] == init[k]);
                    }
                }
            } else {
                assert(vf[j] == last);
                assert forall|k: int| 0 <= k < init.len() implies init[k].id != x by {
                    if init[k].id == x {
                        lemma_first_exists(init, x, k);
                        let i = choose|i: int| first_in_views(init, x, i);
                        let j2 = choose|j2: int| first_in_views(f, x, j2) && f[j2] == init[i];
                        assert(vf[j2] == f[j2]);
                    }
                }
                assert(first_in_views(v, x, v.len() - 1)) by {
                    assert forall|k: int| 0 <= k < v.len() - 1 implies v[k].id != x by {
                        assert(v[k] == init[k]);
                    }
                }
            }
        }
    }
}

proof fn lemma_assigned_without_account(local: Seq<TaskView>, remote: Seq<TaskView>, pending: Seq<PendingOp>)
    ensures
        assigned_ids(local, remote, pending, None).len() == 0,
    decreases remote.len(),
{
    if remote.len() > 0 {
        lemma_assigned_without_account(local, remote.drop_last(), pending);
    }
}

/// What a pull leaves, for tasks with distinct ids here and on the server: the server's ids
/// (sorted) are the known ones, the pull's time is kept and the tasks are in display order;
/// every server task without a waiting upload is here, and every task with its id is that
/// server task; every local task with a waiting upload stays as it is; a local task the server
/// does not have stays exactly when an upload of it waits or the server never had it.
pub proof fn law_pull_result(old: &Data, sent: Seq<SentView>, rs: Vec<Task>, now: Millis, new: &Data, assigned: Seq<Id>)
    requires
        merged(old, sent, Some(rs), now, new, assigned),
        distinct_ids(task_views(old.tasks@)),
        distinct_ids(task_views(rs@)),
    ensures
        ({
            let s1 = apply_all_sent(old.tasks@, (old.pending@, old.remote_ids@), sent);
            let tasks = task_views(new.tasks@);
            &&& new.last_sync == Some(now)
            &&& new.pending@ == s1.0
            &&& strictly_increasing(new.remote_ids@)
            &&& forall|id: Id| new.remote_ids@.contains(id) <==> on_server(rs@, id)
            &&& sorted_by_order(tasks)
            &&& forall|k: int| 0 <= k < rs@.len() && !is_waiting(s1.0, #[trigger] rs@[k].id) ==> tasks.contains(rs@[k]@)
                && forall|j: int| 0 <= j < tasks.len() && tasks[j].id == rs@[k].id ==> tasks[j] == rs@[k]@
            &&& forall|i: int| 0 <= i < old.tasks@.len() && is_waiting(s1.0, #[trigger] old.tasks@[i].id) ==> tasks.contains(
                old.tasks@[i]@,
            )
            &&& forall|i: int| 0 <= i < old.tasks@.len() && !on_server(rs@, #[trigger] old.tasks@[i].id) ==> (has_id(
                new.tasks@,
                old.tasks@[i].id,
            ) <==> (is_waiting(s1.0, old.tasks@[i].id) || !s1.1.contains(old.tasks@[i].id)))
        }),
{
    broadcast use vstd::seq_lib::group_to_multiset_ensures;
    let s1 = apply_all_sent(old.tasks@, (old.pending@, old.remote_ids@), sent);
    let t = task_views(old.tasks@);
    let rv = task_views(rs@);
    let keep = |x: TaskView| on_server(rs@, x.id) || is_waiting(s1.0, x.id) || !s1.1.contains(x.id);
    let kept = t.filter(keep);
    let me = old.spec_me();
    let first = old.last_sync is None;
    let m = merge_all((kept, Seq::empty()), rv, s1.0, me, first);
    let tasks = task_views(new.tasks@);
    assert(tasks == sort_by_order(m.0));
    lemma_filter_distinct(t, keep);
    lemma_merge_all((kept, Seq::empty()), rv, s1.0, me, first);
    lemma_sort_by_order(m.0);
    assert forall|x: TaskView| tasks.contains(x) <==> m.0.contains(x) by {
        assert(tasks.to_multiset().count(x) == m.0.to_multiset().count(x));
    }
    assert forall|id: Id| has_view_id(rv, id) <==> on_server(rs@, id) by {
        if has_view_id(rv, id) {
            let k = choose|k: int| 0 <= k < rv.len() && rv[k].id == id;
            assert(rs@[k].id == id);
        }
        if on_server(rs@, id) {
            let k = choose|k: int| 0 <= k < rs@.len() && rs@[k].id == id;
            assert(rv[k].id == id);
        }
    }
    assert forall|k: int| 0 <= k < rs@.len() && !is_waiting(s1.0, #[trigger] rs@[k].id) implies tasks.contains(rs@[k]@)
        && forall|j: int| 0 <= j < tasks.len() && tasks[j].id == rs@[k].id ==> tasks[j] == rs@[k]@ by {
        assert(rv[k] == rs@[k]@);
        assert(m.0.contains(rv[k]));
        assert forall|j: int| 0 <= j < tasks.len() && tasks[j].id == rs@[k].id implies tasks[j] == rs@[k]@ by {
            assert(tasks.contains(tasks[j]));
            let j2 = choose|j2: int| 0 <= j2 < m.0.len() && m.0[j2] == tasks[j];
            assert(m.0[j2].id == rv[k].id);
        }
    }
    assert forall|i: int| 0 <= i < old.tasks@.len() && is_waiting(s1.0, #[trigger] old.tasks@[i].id) implies tasks.contains(
        old.tasks@[i]@,
    ) by {
        assert(t[i] == old.tasks@[i]@);
        t.lemma_filter_contains(keep, i);
        let i2 = choose|i2: int| 0 <= i2 < kept.len() && kept[i2] == t[i];
        law_waiting_tasks_survive_merge((kept, Seq::empty()), rv, s1.0, me, first, i2);
        assert(m.0[i2] == t[i]);
        assert(m.0.contains(t[i]));
    }
    assert forall|i: int| 0 <= i < old.tasks@.len() && !on_server(rs@, #[trigger] old.tasks@[i].id) implies (has_id(
        new.tasks@,
        old.tasks@[i].id,
    ) <==> (is_waiting(s1.0, old.tasks@[i].id) || !s1.1.contains(old.tasks@[i].id))) by {
        let id = old.tasks@[i].id;
        assert(t[i] == old.tasks@[i]@);
        if is_waiting(s1.0, id) || !s1.1.contains(id) {
            t.lemma_filter_contains(keep, i);
            assert(m.0.contains(t[i]));
            assert(tasks.contains(t[i]));
            let j = choose|j: int| 0 <= j < tasks.len() && tasks[j] == t[i];
            assert(new.tasks@[j].id == id);
        }
        if has_id(new.tasks@, id) {
            let j = choose|j: int| 0 <= j < new.tasks@.len() && new.tasks@[j].id == id;
            let x = tasks[j];
            assert(tasks.contains(x));
            assert(m.0.contains(x));
            assert(!has_view_id(rv, x.id));
            assert(kept.contains(x));
            t.lemma_filter_contains_rev(keep, x);
            let i3 = choose|i3: int| 0 <= i3 < kept.len() && kept[i3] == x;
            t.lemma_filter_pred(keep, i3);
            let i2 = choose|i2: int| 0 <= i2 < t.len() && t[i2] == x;
            assert(i2 == i);
        }
    }
}

/// The ids a pull reports, for distinct ids on the server: those, in the server's order, of the
/// tasks someone else newly assigned to the account (see `newly_assigned`, against the first local
/// task with each id); none on the first pull or without an account.
pub proof fn law_pull_assigned(old: &Data, sent: Seq<SentView>, rs: Vec<Task>, now: Millis, new: &Data, assigned: Seq<Id>)
    requires
        merged(old, sent, Some(rs), now, new, assigned),
        distinct_ids(task_views(rs@)),
    ensures
        ({
            let s1 = apply_all_sent(old.tasks@, (old.pending@, old.remote_ids@), sent);
            &&& assigned == if old.last_sync is None {
                Seq::empty()
            } else {
                assigned_ids(task_views(old.tasks@), task_views(rs@), s1.0, old.spec_me())
            }
            &&& old.spec_me() is None ==> assigned.len() == 0
        }),
{
    let s1 = apply_all_sent(old.tasks@, (old.pending@, old.remote_ids@), sent);
    let t = task_views(old.tasks@);
    let rv = task_views(rs@);
    let keep = |x: TaskView| on_server(rs@, x.id) || is_waiting(s1.0, x.id) || !s1.1.contains(x.id);
    let kept = t.filter(keep);
    let me = old.spec_me();
    let first = old.last_sync is None;
    lemma_merge_positions((kept, Seq::empty()), rv, s1.0, me, first);
    assert forall|k: int| 0 <= k < rv.len() implies newly_assigned(kept, #[trigger] rv[k], s1.0, me) == newly_assigned(t, rv[k], s1.0, me) by {
        let x = rv[k].id;
        assert(rs@[k].id == x);
        assert forall|l: int| 0 <= l < t.len() && (#[trigger] t[l]).id == x implies keep(t[l]) by {
            assert(on_server(rs@, x));
        }
        lemma_first_kept(t, keep, x);
        if exists|j: int| first_in_views(kept, x, j) && kept[j].assignee_id == me {
            let j = choose|j: int| first_in_views(kept, x, j) && kept[j].assignee_id == me;
            let i = choose|i: int| first_in_views(t, x, i) && kept[j] == t[i];
        }
        if exists|i: int| first_in_views(t, x, i) && t[i].assignee_id == me {
            let i = choose|i: int| first_in_views(t, x, i) && t[i].assignee_id == me;
            let j = choose|j: int| first_in_views(kept, x, j) && kept[j] == t[i];
        }
    }
    lemma_assigned_same(kept, t, rv, s1.0, me);
    assert(Seq::<Id>::empty() + assigned_ids(kept, rv, s1.0, me) =~= assigned_ids(kept, rv, s1.0, me));
    if me is None {
        lemma_assigned_without_account(t, rv, s1.0);
    }
}

/// A new task is what the form held: its title trimmed, its tags cleaned, the assignee kept only
/// for a group task, every other edited field the draft's own; created and touched now, owned by
/// nobody yet, with a fresh enabled reminder when the draft asks for one.
pub proof fn law_new_task_is_the_draft(id: Id, d: DraftView, order: int, now: Millis)
    ensures
        ({
            let t = drafted_task(id, d, order, now);
            &&& t.id == id
            &&& t.title == spec_trim(d.title)
            &&& t.description == d.description
            &&& t.priority == d.priority
            &&& t.status == d.status
            &&& t.due_date == d.due_date
            &&& t.subtasks == d.subtasks
            &&& t.tags == spec_clean_tags(d.tags)
            &&& t.group_id == d.group_id
            &&& t.assignee_id == (if d.group_id is Some { d.assignee_id } else { None })
            &&& t.recurrence == d.recurrence
            &&& t.created_at == now && t.updated_at == now
            &&& t.owner_id is None
            &&& t.reminder == (match d.reminder {
                None => None,
                Some((at, repeat)) => Some(Reminder { date_time: at, repeat, enabled: true, next_trigger: at }),
            })
        }),
{
}

/// An edited task takes every field the form edits from the draft (title trimmed, tags cleaned,
/// the assignee only for a group task) and is touched now; its id, order, creation time and owner
/// stay.
pub proof fn law_edit_takes_the_draft(t: TaskView, d: DraftView, now: Millis)
    ensures
        ({
            let e = edited_task(t, d, now);
            &&& e.id == t.id
            &&& e.title == spec_trim(d.title)
            &&& e.description == d.description
            &&& e.priority == d.priority
            &&& e.status == d.status
            &&& e.due_date == d.due_date
            &&& e.subtasks == d.subtasks
            &&& e.tags == spec_clean_tags(d.tags)
            &&& e.group_id == d.group_id
            &&& e.assignee_id == (if d.group_id is Some { d.assignee_id } else { None })
            &&& e.recurrence == d.recurrence
            &&& e.updated_at == now
            &&& e.order == t.order && e.created_at == t.created_at && e.owner_id == t.owner_id
        }),
{
}

/// Reminders ring for the account's own tasks, for tasks nobody owns and for tasks assigned to
/// it (for every task without an account): a task (the first with its id) whose enabled reminder
/// is due and that is the account's, unowned or assigned to it is among the due reminders; and
/// every id among them is that of a task with a due reminder whose first task is the account's,
/// unowned or assigned to it.
pub proof fn law_reminders_ring_for_owner_and_assignee(tasks: Seq<Task>, me: Option<Id>, now: int)
    ensures
        forall|i: int|
            0 <= i < tasks.len() && first_with_id(tasks, #[trigger] tasks[i].id, i) && (tasks[i].reminder matches Some(
                r,
            ) && r.enabled && r.next_trigger <= now) && (me matches Some(m) ==> (tasks[i].owner_id is None
                || tasks[i].owner_id == Some(m) || tasks[i].assignee_id == Some(m))) ==> spec_due_reminders(
                tasks,
                me,
                now,
            ).contains(tasks[i].id),
        forall|id: Id|
            #[trigger] spec_due_reminders(tasks, me, now).contains(id) ==> (exists|k: int|
                0 <= k < tasks.len() && tasks[k].id == id && (tasks[k].reminder matches Some(r) && r.enabled
                    && r.next_trigger <= now)) && exists|i: int|
                first_with_id(tasks, id, i) && (me matches Some(m) ==> (tasks[i].owner_id is None
                    || tasks[i].owner_id == Some(m) || tasks[i].assignee_id == Some(m))),
{
    let views = task_views(tasks);
    let ids = reminders::due_ids(views, now);
    let pred = |id: Id| reminds_id(tasks, me, id);
    assert forall|i: int|
        0 <= i < tasks.len() && first_with_id(tasks, #[trigger] tasks[i].id, i) && (tasks[i].reminder matches Some(
            r,
        ) && r.enabled && r.next_trigger <= now) && (me matches Some(m) ==> (tasks[i].owner_id is None
            || tasks[i].owner_id == Some(m) || tasks[i].assignee_id == Some(m))) implies spec_due_reminders(
            tasks,
            me,
            now,
        ).contains(tasks[i].id) by {
        let id = tasks[i].id;
        assert(views[i] == tasks[i]@);
        assert(reminders::task_is_due(views[i], now));
        reminders::lemma_due_ids_member(views, now, id);
        let k = choose|k: int| 0 <= k < ids.len() && ids[k] == id;
        assert(pred(ids[k]));
        ids.lemma_filter_contains(pred, k);
    }
    assert forall|id: Id| #[trigger] spec_due_reminders(tasks, me, now).contains(id) implies (exists|k: int|
        0 <= k < tasks.len() && tasks[k].id == id && (tasks[k].reminder matches Some(r) && r.enabled
            && r.next_trigger <= now)) && exists|i: int|
        first_with_id(tasks, id, i) && (me matches Some(m) ==> (tasks[i].owner_id is None
            || tasks[i].owner_id == Some(m) || tasks[i].assignee_id == Some(m))) by {
        let f = ids.filter(pred);
        let j = choose|j: int| 0 <= j < f.len() && f[j] == id;
        ids.lemma_filter_pred(pred, j);
        ids.lemma_filter_contains_rev(pred, id);
        reminders::lemma_due_ids_member(views, now, id);
        let k = choose|k: int| 0 <= k < views.len() && views[k].id == id && reminders::task_is_due(#[trigger] views[k], now);
        assert(views[k] == tasks[k]@);
        let i = choose|i: int| first_with_id(tasks, id, i) && spec_reminds_me(me, tasks[i]@);
    }
}

/// A merge adds only server tasks: every task id after it was local or on the server.
pub proof fn law_merge_adds_only_server_tasks(
    state: (Seq<TaskView>, Seq<Id>),
    remote: Seq<TaskView>,
    pending: Seq<PendingOp>,
    me: Option<Id>,
    first_pull: bool,
)
    ensures
        forall|j: int| 0 <= j < merge_all(state, remote, pending, me, first_pull).0.len() ==> ({
            let id = #[trigger] merge_all(state, remote, pending, me, first_pull).0[j].id;
            (exists|i: int| 0 <= i < state.0.len() && state.0[i].id == id) || (exists|k: int| 0 <= k < remote.len() && remote[k].id == id)
        }),
    decreases remote.len(),
{
    if remote.len() > 0 {
        let init = remote.drop_last();
        law_merge_adds_only_server_tasks(state, init, pending, me, first_pull);
        let mid = merge_all(state, init, pending, me, first_pull);
        let out = merge_all(state, remote, pending, me, first_pull);
        assert forall|j: int| 0 <= j < out.0.len() implies ({
            let id = #[trigger] out.0[j].id;
            (exists|i: int| 0 <= i < state.0.len() && state.0[i].id == id) || (exists|k: int| 0 <= k < remote.len() && remote[k].id == id)
        }) by {
            let id = out.0[j].id;
            if j < mid.0.len() && out.0[j] == mid.0[j] {
                let _ = mid.0[j].id;
                if exists|k: int| 0 <= k < init.len() && init[k].id == id {
                    let k = choose|k: int| 0 <= k < init.len() && init[k].id == id;
                    assert(remote[k].id == id);
                }
            } else {
                assert(remote[remote.len() - 1].id == id);
            }
        }
    }
}

} // verus!
