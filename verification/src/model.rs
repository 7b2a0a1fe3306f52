//! Persisted data types. Ids are the 128-bit values of UUIDs; instants are milliseconds since the
//! UNIX epoch (UTC).

use vstd::prelude::*;
use crate::text::str_eq;

verus! {

/// The 128-bit value of a UUID.
pub type Id = u128;

/// An instant: milliseconds since 1970-01-01T00:00:00Z.
pub type Millis = i64;

pub const MILLIS_PER_SECOND: i64 = 1000;

pub const MILLIS_PER_DAY: i64 = 86_400_000;

pub const MILLIS_PER_WEEK: i64 = 604_800_000;

#[derive(Clone, Copy, Debug, PartialEq, Eq, Structural, Hash)]
pub enum Priority {
    High,
    Medium,
    Low,
}

impl Default for Priority {
    fn default() -> (r: Priority)
        ensures
            r == Priority::Low,
    {
        Priority::Low
    }
}

impl Priority {
    pub open spec fn spec_label(self) -> Seq<char> {
        match self {
            Priority::High => "Yüksek"@,
            Priority::Medium => "Orta"@,
            Priority::Low => "Düşük"@,
        }
    }

    pub fn label(self) -> (r: &'static str)
        ensures
            r@ == self.spec_label(),
    {
        match self {
            Priority::High => "Yüksek",
            Priority::Medium => "Orta",
            Priority::Low => "Düşük",
        }
    }

    /// The code the server and data.json store (`"high"`).
    pub open spec fn spec_code(self) -> Seq<char> {
        match self {
            Priority::High => "high"@,
            Priority::Medium => "medium"@,
            Priority::Low => "low"@,
        }
    }

    pub open spec fn spec_from_code(code: Seq<char>) -> Option<Priority> {
        if code == "high"@ {
            Some(Priority::High)
        } else if code == "medium"@ {
            Some(Priority::Medium)
        } else if code == "low"@ {
            Some(Priority::Low)
        } else {
            None
        }
    }

    /// The priority stored as `code`, if it is one.
    pub fn from_code(code: &str) -> (r: Option<Priority>)
        ensures
            r == Priority::spec_from_code(code@),
    {
        if str_eq(code, "high") {
            Some(Priority::High)
        } else if str_eq(code, "medium") {
            Some(Priority::Medium)
        } else if str_eq(code, "low") {
            Some(Priority::Low)
        } else {
            None
        }
    }
}

#[derive(Clone, Copy, Debug, PartialEq, Eq, Structural, Hash)]
pub enum Status {
    Pending,
    InProgress,
    Completed,
}

impl Default for Status {
    fn default() -> (r: Status)
        ensures
            r == Status::Pending,
    {
        Status::Pending
    }
}

impl Status {
    pub open spec fn spec_label(self) -> Seq<char> {
        match self {
            Status::Pending => "Beklemede"@,
            Status::InProgress => "Devam Ediyor"@,
            Status::Completed => "Tamamlandı"@,
        }
    }

    pub fn label(self) -> (r: &'static str)
        ensures
            r@ == self.spec_label(),
    {
        match self {
            Status::Pending => "Beklemede",
            Status::InProgress => "Devam Ediyor",
            Status::Completed => "Tamamlandı",
        }
    }

    pub open spec fn spec_next(self) -> Status {
        match self {
            Status::Pending => Status::InProgress,
            Status::InProgress => Status::Completed,
            Status::Completed => Status::Pending,
        }
    }

    /// Status after clicking the status dot on a task card.
    pub fn next(self) -> (r: Status)
        ensures
            r == self.spec_next(),
    {
        match self {
            Status::Pending => Status::InProgress,
            Status::InProgress => Status::Completed,
            Status::Completed => Status::Pending,
        }
    }

    /// The code the server and data.json store (`"in_progress"`).
    pub open spec fn spec_code(self) -> Seq<char> {
        match self {
            Status::Pending => "pending"@,
            Status::InProgress => "in_progress"@,
            Status::Completed => "completed"@,
        }
    }

    pub open spec fn spec_from_code(code: Seq<char>) -> Option<Status> {
        if code == "pending"@ {
            Some(Status::Pending)
        } else if code == "in_progress"@ {
            Some(Status::InProgress)
        } else if code == "completed"@ {
            Some(Status::Completed)
        } else {
            None
        }
    }

    /// The status stored as `code`, if it is one.
    pub fn from_code(code: &str) -> (r: Option<Status>)
        ensures
            r == Status::spec_from_code(code@),
    {
        if str_eq(code, "pending") {
            Some(Status::Pending)
        } else if str_eq(code, "in_progress") {
            Some(Status::InProgress)
        } else if str_eq(code, "completed") {
            Some(Status::Completed)
        } else {
            None
        }
    }
}

/// Clicking the status dot cycles through the three statuses: three clicks come back, and
/// fewer never do.
pub proof fn law_status_cycles(s: Status)
    ensures
        s.spec_next().spec_next().spec_next() == s,
        s.spec_next() != s,
        s.spec_next().spec_next() != s,
{
}

#[derive(Clone, Copy, Debug, PartialEq, Eq, Structural)]
pub enum Repeat {
    Once,
    Daily,
    Weekly,
}

impl Default for Repeat {
    fn default() -> (r: Repeat)
        ensures
            r == Repeat::Once,
    {
        Repeat::Once
    }
}

impl Repeat {
    pub open spec fn spec_label(self) -> Seq<char> {
        match self {
            Repeat::Once => "Bir kez"@,
            Repeat::Daily => "Günlük"@,
            Repeat::Weekly => "Haftalık"@,
        }
    }

    pub fn label(self) -> (r: &'static str)
        ensures
            r@ == self.spec_label(),
    {
        match self {
            Repeat::Once => "Bir kez",
            Repeat::Daily => "Günlük",
            Repeat::Weekly => "Haftalık",
        }
    }
}

#[derive(Clone, Copy, Debug, PartialEq, Eq, Structural)]
pub enum Theme {
    Dark,
    Light,
}

impl Default for Theme {
    fn default() -> (r: Theme)
        ensures
            r == Theme::Dark,
    {
        Theme::Dark
    }
}

/// How a task repeats when it is completed. Weekdays count from Monday (0) to Sunday (6).
#[derive(Debug, PartialEq, Eq)]
pub enum Recurrence {
    Day,
    Week { days: Vec<u8> },
    Month,
}

pub enum RecurrenceView {
    Day,
    Week(Seq<u8>),
    Month,
}

impl View for Recurrence {
    type V = RecurrenceView;

    open spec fn view(&self) -> RecurrenceView {
        match self {
            Recurrence::Day => RecurrenceView::Day,
            Recurrence::Week { days } => RecurrenceView::Week(days@),
            Recurrence::Month => RecurrenceView::Month,
        }
    }
}

impl Clone for Recurrence {
    fn clone(&self) -> (r: Self)
        ensures
            r@ == self@,
    {
        match self {
            Recurrence::Day => Recurrence::Day,
            Recurrence::Week { days } => {
                let copy = days.clone();
                assert(copy@ =~= days@);
                Recurrence::Week { days: copy }
            },
            Recurrence::Month => Recurrence::Month,
        }
    }
}

#[derive(Clone, Copy, Debug, PartialEq, Eq, Structural)]
pub struct Reminder {
    /// First trigger as chosen by the user.
    pub date_time: Millis,
    pub repeat: Repeat,
    pub enabled: bool,
    pub next_trigger: Millis,
}

#[derive(Debug, PartialEq, Eq)]
pub struct SubTask {
    pub id: Id,
    pub title: String,
    pub completed: bool,
}

#[verifier::ext_equal]
pub struct SubTaskView {
    pub id: Id,
    pub title: Seq<char>,
    pub completed: bool,
}

impl View for SubTask {
    type V = SubTaskView;

    open spec fn view(&self) -> SubTaskView {
        SubTaskView { id: self.id, title: self.title@, completed: self.completed }
    }
}

impl Clone for SubTask {
    fn clone(&self) -> (r: Self)
        ensures
            r@ == self@,
    {
        SubTask { id: self.id, title: self.title.clone(), completed: self.completed }
    }
}

pub open spec fn subtask_views(s: Seq<SubTask>) -> Seq<SubTaskView> {
    s.map_values(|t: SubTask| t@)
}

pub open spec fn string_views(s: Seq<String>) -> Seq<Seq<char>> {
    s.map_values(|t: String| t@)
}

pub fn clone_strings(v: &Vec<String>) -> (r: Vec<String>)
    ensures
        string_views(r@) == string_views(v@),
{
    let mut r: Vec<String> = Vec::new();
    let mut i: usize = 0;
    while i < v.len()
        invariant
            i <= v.len(),
            r.len() == i,
            forall|k: int| 0 <= k < i ==> r@[k]@ == v@[k]@,
        decreases v.len() - i,
    {
        r.push(v[i].clone());
        i += 1;
    }
    assert(string_views(r@) =~= string_views(v@));
    r
}

pub fn clone_subtasks(v: &Vec<SubTask>) -> (r: Vec<SubTask>)
    ensures
        subtask_views(r@) == subtask_views(v@),
{
    let mut r: Vec<SubTask> = Vec::new();
    let mut i: usize = 0;
    while i < v.len()
        invariant
            i <= v.len(),
            r.len() == i,
            forall|k: int| 0 <= k < i ==> r@[k]@ == v@[k]@,
        decreases v.len() - i,
    {
        r.push(v[i].clone());
        i += 1;
    }
    assert(subtask_views(r@) =~= subtask_views(v@));
    r
}

/// Strings compared by their characters.
pub fn same_strings(a: &Vec<String>, b: &Vec<String>) -> (r: bool)
    ensures
        r == (string_views(a@) == string_views(b@)),
{
    if a.len() != b.len() {
        assert(string_views(a@).len() != string_views(b@).len());
        return false;
    }
    let mut i: usize = 0;
    while i < a.len()
        invariant
            i <= a.len(),
            a.len() == b.len(),
            forall|k: int| 0 <= k < i ==> a@[k]@ == b@[k]@,
        decreases a.len() - i,
    {
        if a[i] != b[i] {
            assert(string_views(a@)[i as int] != string_views(b@)[i as int]);
            return false;
        }
        i += 1;
    }
    assert(string_views(a@) =~= string_views(b@));
    true
}

pub fn same_subtasks(a: &Vec<SubTask>, b: &Vec<SubTask>) -> (r: bool)
    ensures
        r == (subtask_views(a@) == subtask_views(b@)),
{
    if a.len() != b.len() {
        assert(subtask_views(a@).len() != subtask_views(b@).len());
        return false;
    }
    let mut i: usize = 0;
    while i < a.len()
        invariant
            i <= a.len(),
            a.len() == b.len(),
            forall|k: int| 0 <= k < i ==> a@[k]@ == b@[k]@,
        decreases a.len() - i,
    {
        if a[i].id != b[i].id || a[i].title != b[i].title || a[i].completed != b[i].completed {
            assert(subtask_views(a@)[i as int] != subtask_views(b@)[i as int]);
            return false;
        }
        i += 1;
    }
    assert(subtask_views(a@) =~= subtask_views(b@));
    true
}

pub open spec fn recurrence_view(r: Option<Recurrence>) -> Option<RecurrenceView> {
    match r {
        None => None,
        Some(r) => Some(r@),
    }
}

pub fn same_recurrence(a: &Option<Recurrence>, b: &Option<Recurrence>) -> (r: bool)
    ensures
        r == (recurrence_view(*a) == recurrence_view(*b)),
{
    match (a, b) {
        (None, None) => true,
        (Some(Recurrence::Day), Some(Recurrence::Day)) => true,
        (Some(Recurrence::Month), Some(Recurrence::Month)) => true,
        (Some(Recurrence::Week { days: x }), Some(Recurrence::Week { days: y })) => {
            if x.len() != y.len() {
                return false;
            }
            let mut i: usize = 0;
            while i < x.len()
                invariant
                    i <= x.len(),
                    x.len() == y.len(),
                    forall|k: int| 0 <= k < i ==> x@[k] == y@[k],
                    recurrence_view(*a) == Some(RecurrenceView::Week(x@)),
                    recurrence_view(*b) == Some(RecurrenceView::Week(y@)),
                decreases x.len() - i,
            {
                if x[i] != y[i] {
                    assert(x@[i as int] != y@[i as int]);
                    assert(x@ != y@);
                    return false;
                }
                i += 1;
            }
            assert(x@ =~= y@);
            true
        },
        _ => false,
    }
}

#[derive(Clone, Copy, Debug, PartialEq, Eq, Structural)]
pub enum NoticeKind {
    Reminder,
    Alert,
    Update,
    /// Something another member did: an assignment or a comment.
    Shared,
}

/// A notification that was shown as a pop-up, kept for the notification page.
#[derive(Debug, PartialEq, Eq)]
pub struct Notice {
    pub id: Id,
    pub kind: NoticeKind,
    pub title: String,
    pub body: String,
    pub priority: Option<Priority>,
    /// Task the notice is about; clicking the notice opens it.
    pub task_id: Option<Id>,
    pub at: Millis,
    pub read: bool,
}

#[verifier::ext_equal]
pub struct NoticeView {
    pub id: Id,
    pub kind: NoticeKind,
    pub title: Seq<char>,
    pub body: Seq<char>,
    pub priority: Option<Priority>,
    pub task_id: Option<Id>,
    pub at: Millis,
    pub read: bool,
}

impl View for Notice {
    type V = NoticeView;

    open spec fn view(&self) -> NoticeView {
        NoticeView {
            id: self.id,
            kind: self.kind,
            title: self.title@,
            body: self.body@,
            priority: self.priority,
            task_id: self.task_id,
            at: self.at,
            read: self.read,
        }
    }
}

impl Notice {
    /// A new unread notice without priority or task, under the id `id`.
    pub fn with_id(id: Id, kind: NoticeKind, title: String, body: String, at: Millis) -> (r: Notice)
        ensures
            r@ == (NoticeView {
                id,
                kind,
                title: title@,
                body: body@,
                priority: None,
                task_id: None,
                at,
                read: false,
            }),
    {
        Notice { id, kind, title, body, priority: None, task_id: None, at, read: false }
    }

    /// A new unread notice with a fresh random id.
    pub fn new(kind: NoticeKind, title: String, body: String, at: Millis) -> (r: Notice)
        ensures
            r@.kind == kind,
            r@.title == title@,
            r@.body == body@,
            r@.priority == None::<Priority>,
            r@.task_id == None::<Id>,
            r@.at == at,
            !r@.read,
    {
        Notice::with_id(new_id(), kind, title, body, at)
    }
}

impl Clone for Notice {
    fn clone(&self) -> (r: Self)
        ensures
            r@ == self@,
    {
        Notice {
            id: self.id,
            kind: self.kind,
            title: self.title.clone(),
            body: self.body.clone(),
            priority: self.priority,
            task_id: self.task_id,
            at: self.at,
            read: self.read,
        }
    }
}

/// The 128-bit value that uuid's `Uuid::parse_str` reads from a string (`None` where it fails).
pub uninterp spec fn spec_parse_uuid(s: Seq<char>) -> Option<Id>;

/// uuid's `Uuid::parse_str` (what `str::parse::<Uuid>` calls): a UUID written in one of its
/// accepted forms (hyphenated, simple, braced, URN), as its 128-bit value.
#[verifier::external_body]
pub(crate) fn parse_uuid(s: &str) -> (r: Option<Id>)
    ensures
        r == spec_parse_uuid(s@),
{
    uuid::Uuid::parse_str(s).ok().map(|u| u.as_u128())
}

/// A fresh random (version 4) UUID, as its 128-bit value. Nothing is promised of the value.
#[verifier::external_body]
pub(crate) fn new_id() -> Id {
    uuid::Uuid::new_v4().as_u128()
}

#[derive(Debug, PartialEq, Eq)]
pub struct Task {
    pub id: Id,
    pub title: String,
    /// Markdown source. Empty means none.
    pub description: String,
    pub priority: Priority,
    pub status: Status,
    pub reminder: Option<Reminder>,
    pub subtasks: Vec<SubTask>,
    pub tags: Vec<String>,
    /// Position in the list; the document keeps its tasks sorted by it.
    pub order: i64,
    pub due_date: Option<Millis>,
    pub created_at: Millis,
    pub updated_at: Millis,
    /// Account that owns the task on the server; `None` until it is first synced.
    pub owner_id: Option<Id>,
    pub group_id: Option<Id>,
    pub assignee_id: Option<Id>,
    pub recurrence: Option<Recurrence>,
}

#[verifier::ext_equal]
pub struct TaskView {
    pub id: Id,
    pub title: Seq<char>,
    pub description: Seq<char>,
    pub priority: Priority,
    pub status: Status,
    pub reminder: Option<Reminder>,
    pub subtasks: Seq<SubTaskView>,
    pub tags: Seq<Seq<char>>,
    pub order: i64,
    pub due_date: Option<Millis>,
    pub created_at: Millis,
    pub updated_at: Millis,
    pub owner_id: Option<Id>,
    pub group_id: Option<Id>,
    pub assignee_id: Option<Id>,
    pub recurrence: Option<RecurrenceView>,
}

impl View for Task {
    type V = TaskView;

    open spec fn view(&self) -> TaskView {
        TaskView {
            id: self.id,
            title: self.title@,
            description: self.description@,
            priority: self.priority,
            status: self.status,
            reminder: self.reminder,
            subtasks: subtask_views(self.subtasks@),
            tags: string_views(self.tags@),
            order: self.order,
            due_date: self.due_date,
            created_at: self.created_at,
            updated_at: self.updated_at,
            owner_id: self.owner_id,
            group_id: self.group_id,
            assignee_id: self.assignee_id,
            recurrence: recurrence_view(self.recurrence),
        }
    }
}

impl Clone for Task {
    fn clone(&self) -> (r: Self)
        ensures
            r@ == self@,
    {
        Task {
            id: self.id,
            title: self.title.clone(),
            description: self.description.clone(),
            priority: self.priority,
            status: self.status,
            reminder: self.reminder,
            subtasks: clone_subtasks(&self.subtasks),
            tags: clone_strings(&self.tags),
            order: self.order,
            due_date: self.due_date,
            created_at: self.created_at,
            updated_at: self.updated_at,
            owner_id: self.owner_id,
            group_id: self.group_id,
            assignee_id: self.assignee_id,
            recurrence: match &self.recurrence {
                None => None,
                Some(r) => Some(r.clone()),
            },
        }
    }
}

impl Task {
    /// Field by field comparison, strings and lists by their contents.
    pub fn same_as(&self, other: &Task) -> (r: bool)
        ensures
            r == (self@ == other@),
    {
        self.id == other.id && self.title == other.title && self.description == other.description
            && self.priority == other.priority && self.status == other.status && self.reminder
            == other.reminder && same_subtasks(&self.subtasks, &other.subtasks) && same_strings(
            &self.tags,
            &other.tags,
        ) && self.order == other.order && self.due_date == other.due_date && self.created_at
            == other.created_at && self.updated_at == other.updated_at && self.owner_id
            == other.owner_id && self.group_id == other.group_id && self.assignee_id
            == other.assignee_id && same_recurrence(&self.recurrence, &other.recurrence)
    }
}

pub open spec fn task_views(s: Seq<Task>) -> Seq<TaskView> {
    s.map_values(|t: Task| t@)
}

/// An entry in the upload queue. A task has at most one `Upsert` waiting.
#[derive(Clone, Copy, Debug, PartialEq, Eq, Structural)]
pub enum PendingOp {
    Upsert(Id),
    Delete(Id),
}

impl PendingOp {
    pub open spec fn spec_id(self) -> Id {
        match self {
            PendingOp::Upsert(id) => id,
            PendingOp::Delete(id) => id,
        }
    }

    pub fn id(self) -> (r: Id)
        ensures
            r == self.spec_id(),
    {
        match self {
            PendingOp::Upsert(id) => id,
            PendingOp::Delete(id) => id,
        }
    }
}

/// A shared group and the ids of its members (the owner included).
#[derive(Debug, PartialEq, Eq)]
pub struct Group {
    pub id: Id,
    pub name: String,
    pub owner_id: Id,
    pub members: Vec<Id>,
}

impl Clone for Group {
    fn clone(&self) -> (r: Self)
        ensures
            r.id == self.id,
            r.name@ == self.name@,
            r.owner_id == self.owner_id,
            r.members@ == self.members@,
    {
        Group { id: self.id, name: self.name.clone(), owner_id: self.owner_id, members: self.members.clone() }
    }
}

/// A user as shown in the app (display only, never for access checks).
#[derive(Debug, PartialEq, Eq)]
pub struct Profile {
    pub id: Id,
    pub username: String,
    pub display_name: String,
    pub avatar_url: Option<String>,
}

impl Clone for Profile {
    fn clone(&self) -> (r: Self)
        ensures
            r.id == self.id,
            r.username@ == self.username@,
            r.display_name@ == self.display_name@,
    {
        Profile {
            id: self.id,
            username: self.username.clone(),
            display_name: self.display_name.clone(),
            avatar_url: match &self.avatar_url {
                None => None,
                Some(u) => Some(u.clone()),
            },
        }
    }
}

impl Profile {
    pub open spec fn spec_name(&self) -> Seq<char> {
        if self.display_name@.len() == 0 {
            self.username@
        } else {
            self.display_name@
        }
    }

    /// The display name, or the username when there is none.
    pub fn name(&self) -> (r: &str)
        ensures
            r@ == self.spec_name(),
    {
        if self.display_name.as_str().is_empty() {
            self.username.as_str()
        } else {
            self.display_name.as_str()
        }
    }
}

#[derive(Clone, Copy, Debug, PartialEq, Eq, Structural)]
pub struct Settings {
    pub auto_launch: bool,
    pub theme: Theme,
    pub start_minimized: bool,
}

impl Default for Settings {
    fn default() -> (r: Settings)
        ensures
            r == (Settings { auto_launch: false, theme: Theme::Dark, start_minimized: false }),
    {
        Settings { auto_launch: false, theme: Theme::Dark, start_minimized: false }
    }
}

} // verus!
