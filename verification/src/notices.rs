//! The notifications the app raises (reminders, the startup alert, comments and assignments),
//! the names it shows for people, and the icon glyphs of notification kinds.

use vstd::prelude::*;
use vstd::string::StringExecFns;
use vstd::string::StrSliceExecFns;
use crate::data::Data;
use crate::model::{new_id, Id, Millis, Notice, NoticeKind, NoticeView, Priority, Profile, Status, Task, TaskView};
use crate::realtime::Comment;
use crate::text::{decimal, spec_decimal};
use crate::views::open_high_priority;

verus! {

/// Icon font glyphs (Flaticon UIcons, regular rounded).
pub const BELL: &'static str = "\u{f239}";

pub const INFO: &'static str = "\u{f80b}";

pub const REFRESH: &'static str = "\u{fb34}";

pub const USERS: &'static str = "\u{fea6}";

pub const CLOUD: &'static str = "\u{f479}";

pub const CLOUD_CHECK: &'static str = "\u{f460}";

pub const CLOUD_DISABLED: &'static str = "\u{f462}";

pub open spec fn spec_notice_glyph(kind: NoticeKind) -> Seq<char> {
    match kind {
        NoticeKind::Reminder => BELL@,
        NoticeKind::Alert => INFO@,
        NoticeKind::Update => REFRESH@,
        NoticeKind::Shared => USERS@,
    }
}

/// The icon of a notification kind (pop-ups and the notifications page).
pub fn for_notice(kind: NoticeKind) -> (r: &'static str)
    ensures
        r@ == spec_notice_glyph(kind),
{
    match kind {
        NoticeKind::Reminder => BELL,
        NoticeKind::Alert => INFO,
        NoticeKind::Update => REFRESH,
        NoticeKind::Shared => USERS,
    }
}

/// How a person is named: by their profile's name, "Discord hesabı" when it is empty, and
/// "Bilinmeyen üye" when the profile is unknown.
pub open spec fn spec_display_name(p: Option<Profile>) -> Seq<char> {
    match p {
        None => "Bilinmeyen üye"@,
        Some(p) => if p.spec_name().len() == 0 {
            "Discord hesabı"@
        } else {
            p.spec_name()
        },
    }
}

/// The name shown for the user `id`.
pub fn user_name(data: &Data, id: Id) -> (r: String)
    ensures
        r@ == spec_display_name(data.spec_profile(id)),
{
    match data.profile(id) {
        None => "Bilinmeyen üye".to_string(),
        Some(p) => {
            let name = p.name();
            if name.is_empty() {
                "Discord hesabı".to_string()
            } else {
                name.to_string()
            }
        },
    }
}

/// `n` notices of `kind` with the given texts, priority and task, unread, at `now`.
pub open spec fn notice_is(
    n: NoticeView,
    kind: NoticeKind,
    title: Seq<char>,
    body: Seq<char>,
    priority: Option<Priority>,
    task_id: Option<Id>,
    at: Millis,
) -> bool {
    &&& n.kind == kind
    &&& n.title == title
    &&& n.body == body
    &&& n.priority == priority
    &&& n.task_id == task_id
    &&& n.at == at
    &&& !n.read
}

/// The pop-up of a reminder that fired: the task's title, "<priority> öncelik".
pub fn reminder_notice(task: &Task, now: Millis) -> (r: Notice)
    ensures
        notice_is(
            r@,
            NoticeKind::Reminder,
            task.title@,
            task.priority.spec_label() + " öncelik"@,
            Some(task.priority),
            Some(task.id),
            now,
        ),
{
    let mut body = task.priority.label().to_string();
    body.append(" öncelik");
    let mut n = Notice::with_id(new_id(), NoticeKind::Reminder, task.title.clone(), body, now);
    n.priority = Some(task.priority);
    n.task_id = Some(task.id);
    n
}

/// Titles joined by ", ".
pub open spec fn join_titles(ts: Seq<TaskView>) -> Seq<char>
    decreases ts.len(),
{
    if ts.len() == 0 {
        seq![]
    } else if ts.len() == 1 {
        ts[0].title
    } else {
        join_titles(ts.drop_last()) + ", "@ + ts.last().title
    }
}

/// At startup: one pop-up listing the open high-priority tasks ("3 yüksek öncelikli görev"), if
/// there are any.
pub fn startup_alert(tasks: &[Task], now: Millis) -> (r: Option<Notice>)
    ensures
        ({
            let open = crate::model::task_views(tasks@).filter(
                |t: TaskView| t.priority == Priority::High && t.status != Status::Completed,
            );
            &&& open.len() == 0 ==> r is None
            &&& open.len() > 0 ==> (r matches Some(n) && notice_is(
                n@,
                NoticeKind::Alert,
                spec_decimal(open.len()) + " yüksek öncelikli görev"@,
                join_titles(open),
                Some(Priority::High),
                None,
                now,
            ))
        }),
{
    let open = open_high_priority(tasks);
    if open.len() == 0 {
        return None;
    }
    let ghost views = crate::views::views_of(open@);
    let mut titles = String::new();
    let mut i: usize = 0;
    while i < open.len()
        invariant
            i <= open.len(),
            views == crate::views::views_of(open@),
            titles@ == join_titles(views.subrange(0, i as int)),
        decreases open.len() - i,
    {
        let ghost prefix = views.subrange(0, i as int + 1);
        assert(prefix.drop_last() =~= views.subrange(0, i as int));
        if i > 0 {
            titles.append(", ");
        }
        titles.append(open[i].title.as_str());
        i += 1;
    }
    assert(views.subrange(0, views.len() as int) =~= views);
    let mut title = decimal(open.len() as u64);
    title.append(" yüksek öncelikli görev");
    let mut n = Notice::with_id(new_id(), NoticeKind::Alert, title, titles, now);
    n.priority = Some(Priority::High);
    Some(n)
}

/// The first `n` characters of a text.
pub open spec fn first_chars(s: Seq<char>, n: int) -> Seq<char> {
    s.take(if s.len() < n { s.len() as int } else { n })
}

/// Whether a new comment concerns the account: it owns or is assigned the task, and someone else
/// wrote the comment.
pub open spec fn comment_concerns(task: TaskView, me: Option<Id>, author: Id) -> bool {
    me is Some && (task.owner_id == me || task.assignee_id == me) && Some(author) != me
}

/// The pop-up for a new comment on a task the account owns or is assigned: "<name> yorum
/// yaptı", "<task title>: <the comment's first 80 characters>". `None` for comments that do not
/// concern the account (or on tasks it does not have).
pub fn comment_notice(data: &Data, comment: &Comment, now: Millis) -> (r: Option<Notice>)
    ensures
        r matches Some(n) ==> exists|i: int|
            crate::data::first_with_id(data.tasks@, comment.task_id, i) && comment_concerns(
                data.tasks@[i]@,
                data.spec_me(),
                comment.user_id,
            ) && notice_is(
                n@,
                NoticeKind::Shared,
                spec_display_name(data.spec_profile(comment.user_id)) + " yorum yaptı"@,
                data.tasks@[i].title@ + ": "@ + first_chars(comment.body@, 80),
                None,
                Some(comment.task_id),
                now,
            ),
        r is None ==> (!crate::data::has_id(data.tasks@, comment.task_id) || exists|i: int|
            crate::data::first_with_id(data.tasks@, comment.task_id, i) && !comment_concerns(
                data.tasks@[i]@,
                data.spec_me(),
                comment.user_id,
            )),
{
    let me = data.me();
    let task = match data.task(comment.task_id) {
        Some(t) => t,
        None => return None,
    };
    let involved = me.is_some() && (task.owner_id == me || task.assignee_id == me);
    if !involved || Some(comment.user_id) == me {
        return None;
    }
    let mut title = user_name(data, comment.user_id);
    title.append(" yorum yaptı");
    let mut body = task.title.clone();
    body.append(": ");
    let n = comment.body.as_str().unicode_len();
    let end = if n < 80 {
        n
    } else {
        80
    };
    body.append(comment.body.as_str().substring_char(0, end));
    let mut notice = Notice::with_id(new_id(), NoticeKind::Shared, title, body, now);
    notice.task_id = Some(task.id);
    Some(notice)
}

/// The pop-up for a task the sync found newly assigned to the account: "Sana bir görev atandı",
/// "<group name> · <task title>" ("Grup" when the group is unknown). `None` when the task is not
/// in the list.
pub fn assignment_notice(data: &Data, id: Id, now: Millis) -> (r: Option<Notice>)
    ensures
        r is Some <==> crate::data::has_id(data.tasks@, id),
        r matches Some(n) ==> exists|i: int, group: Seq<char>|
            crate::data::first_with_id(data.tasks@, id, i) && notice_is(
                n@,
                NoticeKind::Shared,
                "Sana bir görev atandı"@,
                group + " · "@ + data.tasks@[i].title@,
                Some(data.tasks@[i].priority),
                Some(id),
                now,
            ) && (match data.tasks@[i].group_id {
                None => group == "Grup"@,
                Some(g) => (exists|k: int|
                    0 <= k < data.groups@.len() && data.groups@[k].id == g && group == data.groups@[k].name@)
                    || (group == "Grup"@ && forall|k: int| 0 <= k < data.groups@.len() ==> #[trigger] data.groups@[k].id != g),
            }),
{
    let task = match data.task(id) {
        Some(t) => t,
        None => return None,
    };
    let mut body = match task.group_id {
        Some(g) => match data.group(g) {
            Some(group) => group.name.clone(),
            None => "Grup".to_string(),
        },
        None => "Grup".to_string(),
    };
    let ghost group = body@;
    body.append(" · ");
    body.append(task.title.as_str());
    let mut n = Notice::with_id(new_id(), NoticeKind::Shared, "Sana bir görev atandı".to_string(), body, now);
    n.priority = Some(task.priority);
    n.task_id = Some(id);
    Some(n)
}

} // verus!
