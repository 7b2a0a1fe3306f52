//! One sync turn, as decisions between network calls: what a turn takes along (the session,
//! the upload queue with a snapshot of each task), which call comes next and what each reply
//! does, and what the finished turn does to the app's data. The calls themselves are the
//! host's: it carries out each step and reports the reply.

use vstd::prelude::*;
use crate::data::{has_id, first_with_id, snapshot_view, Data, Sent, SentView};
use crate::model::{Group, Id, Millis, Notice, NoticeKind, PendingOp, Profile, Task, TaskView};
use crate::notices::assignment_notice;
use crate::supabase::{Error, Session};
use crate::sync::{after_upload, finished, SyncStatus, Turn};

verus! {

/// What a turn takes along from the app.
pub struct Job {
    pub session: Session,
    /// The upload queue, each operation with the task as it is now (`Upsert` of a task that
    /// still exists).
    pub ops: Vec<(PendingOp, Option<Task>)>,
}

/// The snapshot an upload takes of a queued operation.
pub open spec fn snapshot_of(tasks: Seq<Task>, op: PendingOp) -> Option<TaskView> {
    match op {
        PendingOp::Upsert(id) => if has_id(tasks, id) {
            Some(tasks[choose|i: int| first_with_id(tasks, id, i)]@)
        } else {
            None
        },
        PendingOp::Delete(_) => None,
    }
}

/// A turn runs only for a signed-in account whose tasks are settled (Settings asks what to do
/// with another account's tasks first).
pub fn prepare(data: &Data, session: Option<&Session>) -> (r: Option<Job>)
    ensures
        (session is None || data.spec_needs_account_choice()) ==> r is None,
        !(session is None || data.spec_needs_account_choice()) ==> (r matches Some(job) && {
            &&& job.session.user_id == session->0.user_id
            &&& job.session.access_token@ == session->0.access_token@
            &&& job.session.refresh_token@ == session->0.refresh_token@
            &&& job.session.expires_at == session->0.expires_at
            &&& job.ops@.len() == data.pending@.len()
            &&& forall|i: int|
                0 <= i < job.ops@.len() ==> (#[trigger] job.ops@[i]).0 == data.pending@[i] && snapshot_view(
                    job.ops@[i].1,
                ) == snapshot_of(data.tasks@, data.pending@[i])
        }),
{
    let session = match session {
        Some(s) => s,
        None => return None,
    };
    if data.needs_account_choice() {
        return None;
    }
    let mut ops: Vec<(PendingOp, Option<Task>)> = Vec::new();
    let mut i: usize = 0;
    while i < data.pending.len()
        invariant
            i <= data.pending.len(),
            ops@.len() == i,
            forall|k: int|
                0 <= k < i ==> (#[trigger] ops@[k]).0 == data.pending@[k] && snapshot_view(ops@[k].1)
                    == snapshot_of(data.tasks@, data.pending@[k]),
        decreases data.pending.len() - i,
    {
        let op = data.pending[i];
        let snapshot = match op {
            PendingOp::Upsert(id) => match data.task(id) {
                Some(t) => {
                    proof {
                        let j = choose|j: int| first_with_id(data.tasks@, id, j) && *t == data.tasks@[j];
                        let k = choose|k: int| first_with_id(data.tasks@, id, k);
                        assert(j == k) by {
                            if j < k {
                                assert(data.tasks@[j].id == id);
                            } else if k < j {
                                assert(data.tasks@[k].id == id);
                            }
                        }
                    }
                    Some(t.clone())
                },
                None => None,
            },
            PendingOp::Delete(_) => None,
        };
        ops.push((op, snapshot));
        i += 1;
    }
    Some(Job { session: session.clone(), ops })
}

/// What a turn found out.
pub struct Outcome {
    pub user_id: Id,
    /// Set when the session was refreshed.
    pub session: Option<Session>,
    pub profile: Option<Profile>,
    pub sent: Vec<Sent>,
    pub remote: Option<Vec<Task>>,
    /// Groups and the people in them.
    pub directory: Option<(Vec<Group>, Vec<Profile>)>,
    pub error: Option<Error>,
    /// The refresh token was rejected: the user has to sign in again.
    pub relogin: bool,
}

/// The next call of a turn.
pub enum Step {
    /// Refresh the session with this refresh token (then keep it and load the profile).
    Refresh(String),
    /// Upload the task.
    Upsert(Task),
    /// Delete the task with that id on the server.
    Delete(Id),
    FetchTasks,
    /// Fetch the groups and the profiles of their members.
    FetchDirectory,
    /// The turn is over.
    Done,
}

/// A reply to a step.
pub enum Reply {
    Refreshed(Result<(Session, Option<Profile>), Error>),
    /// The reply to an upload or a delete: done, or the error.
    Uploaded(Result<(), Error>),
    Tasks(Result<Vec<Task>, Error>),
    Directory(Result<(Vec<Group>, Vec<Profile>), Error>),
}

/// A turn under way.
pub struct Run {
    pub session: Session,
    pub ops: Vec<(PendingOp, Option<Task>)>,
    /// The queued operation whose reply is awaited (or is next).
    pub next_op: usize,
    pub out: Outcome,
}

/// The queue from `from` on, starting with `sent0` recorded: `after` has passed the queued
/// `Upsert`s whose task is gone (each recorded as sent, not uploaded) and stops at the first
/// operation that needs the server, which `r` asks for; with none left, `r` asks for the pull.
pub open spec fn queue_sent(
    ops: Seq<(PendingOp, Option<Task>)>,
    from: int,
    sent0: Seq<SentView>,
    after: Run,
    r: Step,
) -> bool {
    &&& from <= after.next_op <= ops.len()
    &&& forall|k: int| from <= k < after.next_op ==> (#[trigger] ops[k]).0 is Upsert && ops[k].1 is None
    &&& sent_views(after.out.sent@) == sent0 + Seq::new(
        (after.next_op - from) as nat,
        |k: int| SentView { op: ops[from + k].0, snapshot: None, uploaded: false },
    )
    &&& after.next_op == ops.len() ==> r is FetchTasks
    &&& after.next_op < ops.len() ==> match ops[after.next_op as int] {
        (PendingOp::Upsert(_), Some(t)) => r matches Step::Upsert(u) && u@ == t@,
        (PendingOp::Delete(id), _) => r == Step::Delete(id),
        _ => false,
    }
}

/// What a turn found out besides the sent operations is the same in both outcomes.
pub open spec fn same_findings(a: Outcome, b: Outcome) -> bool {
    &&& a.user_id == b.user_id
    &&& a.session == b.session
    &&& a.profile == b.profile
    &&& a.remote == b.remote
    &&& a.directory == b.directory
    &&& a.error == b.error
    &&& a.relogin == b.relogin
}

/// `after` is `before` gone on through its queue from `next_op` (see `queue_sent`), with the
/// same operations, session and findings.
pub open spec fn uploads_from(before: Run, after: Run, r: Step) -> bool {
    &&& queue_sent(before.ops@, before.next_op as int, sent_views(before.out.sent@), after, r)
    &&& after.ops == before.ops
    &&& after.session == before.session
    &&& same_findings(before.out, after.out)
}

/// Whether a done operation leaves the server with the task: an upload of a task does, a delete
/// does not.
pub open spec fn leaves_task(op: PendingOp, snapshot: Option<TaskView>) -> bool {
    op is Upsert && snapshot is Some
}

/// What an upload's or delete's reply records for the operation `op` sent with `snapshot`: the
/// operation as sent (uploaded when it was an upload that went through; a delete, and an error
/// that will not go away, as not uploaded), or the error worth retrying, which stops the queue.
pub open spec fn upload_reply(op: PendingOp, snapshot: Option<TaskView>, res: Result<(), Error>) -> Result<
    SentView,
    Error,
> {
    match res {
        Ok(()) => Ok(SentView { op, snapshot, uploaded: leaves_task(op, snapshot) }),
        Err(e) => if e.spec_is_temporary() {
            Err(e)
        } else {
            Ok(SentView { op, snapshot, uploaded: false })
        },
    }
}

impl Run {
    pub open spec fn wf(&self) -> bool {
        &&& self.next_op <= self.ops@.len()
        &&& self.out.user_id == self.session.user_id
    }

    /// The step for the queued operations from `next_op` on: an `Upsert` whose task is gone
    /// counts as sent without an upload and the queue goes on.
    fn next_upload(&mut self) -> (r: Step)
        requires
            old(self).wf(),
        ensures
            final(self).wf(),
            uploads_from(*old(self), *final(self), r),
    {
        let ghost start = self.next_op;
        let ghost sent0 = sent_views(self.out.sent@);
        while self.next_op < self.ops.len()
            invariant
                self.wf(),
                start == old(self).next_op,
                start <= self.next_op <= self.ops@.len(),
                self.ops == old(self).ops,
                self.session == old(self).session,
                same_findings(old(self).out, self.out),
                sent0 == sent_views(old(self).out.sent@),
                forall|k: int| start <= k < self.next_op ==> (#[trigger] self.ops@[k]).0 is Upsert && self.ops@[k].1 is None,
                sent_views(self.out.sent@) == sent0 + Seq::new(
                    (self.next_op - start) as nat,
                    |k: int| SentView { op: self.ops@[start + k].0, snapshot: None, uploaded: false },
                ),
            decreases self.ops.len() - self.next_op,
        {
            let i = self.next_op;
            match (&self.ops[i].0, &self.ops[i].1) {
                (PendingOp::Upsert(_), Some(t)) => {
                    return Step::Upsert(t.clone());
                },
                (PendingOp::Delete(id), _) => {
                    return Step::Delete(*id);
                },
                (PendingOp::Upsert(_), None) => {
                    let op = self.ops[i].0;
                    let ghost prev = self.out.sent@;
                    let ghost f = |k: int| SentView { op: self.ops@[start + k].0, snapshot: None, uploaded: false };
                    self.out.sent.push(Sent { op, snapshot: None, uploaded: false });
                    self.next_op = i + 1;
                    assert(sent_views(self.out.sent@) =~= sent_views(prev).push(
                        SentView { op, snapshot: None, uploaded: false },
                    ));
                    assert(Seq::new((self.next_op - start) as nat, f) =~= Seq::new((i - start) as nat, f).push(
                        f(i - start),
                    ));
                    assert(sent_views(self.out.sent@) =~= sent0 + Seq::new((self.next_op - start) as nat, f));
                },
            }
        }
        Step::FetchTasks
    }

    /// Starts a turn: a session about to expire is refreshed first; then the queue is sent.
    pub fn begin(job: Job, now: Millis) -> (r: (Run, Step))
        ensures
            r.0.wf(),
            r.0.out.user_id == job.session.user_id,
            r.0.out.error is None,
            r.0.out.remote is None,
            r.0.ops == job.ops,
            r.0.session == job.session,
            r.0.out.session is None && r.0.out.profile is None && r.0.out.directory is None && !r.0.out.relogin,
            job.session.spec_needs_refresh(now) ==> (r.1 matches Step::Refresh(t) && t@ == job.session.refresh_token@)
                && r.0.next_op == 0 && r.0.out.sent@.len() == 0,
            !job.session.spec_needs_refresh(now) ==> queue_sent(job.ops@, 0, Seq::empty(), r.0, r.1),
    {
        let user_id = job.session.user_id;
        let refresh = job.session.needs_refresh(now);
        let token = job.session.refresh_token.clone();
        let mut run = Run {
            session: job.session,
            ops: job.ops,
            next_op: 0,
            out: Outcome {
                user_id,
                session: None,
                profile: None,
                sent: Vec::new(),
                remote: None,
                directory: None,
                error: None,
                relogin: false,
            },
        };
        if refresh {
            return (run, Step::Refresh(token));
        }
        let ghost start = run;
        assert(sent_views(start.out.sent@) =~= Seq::<SentView>::empty());
        let step = run.next_upload();
        (run, step)
    }

    /// The next step after `reply`.
    pub fn step(&mut self, reply: Reply) -> (r: Step)
        requires
            old(self).wf(),
        ensures
            final(self).wf(),
            final(self).ops == old(self).ops,
            reply matches Reply::Refreshed(Err(e)) ==> r is Done && final(self).out.relogin
                == e.spec_is_auth_rejected() && final(self).out.error == Some(e),
            reply matches Reply::Refreshed(Ok((fresh, profile))) ==> final(self).session == fresh
                && refreshed_kept(final(self).out.session, fresh) && final(self).out.profile == profile
                && final(self).out.user_id == fresh.user_id,
            reply matches Reply::Refreshed(Ok(_)) ==> queue_sent(
                old(self).ops@,
                old(self).next_op as int,
                sent_views(old(self).out.sent@),
                *final(self),
                r,
            ) && final(self).out.error == old(self).out.error && final(self).out.remote == old(self).out.remote
                && final(self).out.directory == old(self).out.directory && final(self).out.relogin
                == old(self).out.relogin,
            reply matches Reply::Uploaded(res) ==> if old(self).next_op < old(self).ops@.len() {
                let (op, snapshot) = old(self).ops@[old(self).next_op as int];
                match upload_reply(op, crate::data::snapshot_view(snapshot), res) {
                    Ok(sv) => {
                        &&& queue_sent(
                            old(self).ops@,
                            old(self).next_op + 1,
                            sent_views(old(self).out.sent@).push(sv),
                            *final(self),
                            r,
                        )
                        &&& final(self).session == old(self).session
                        &&& same_findings(old(self).out, final(self).out)
                    },
                    Err(e) => {
                        &&& r is Done
                        &&& final(self).out.error == Some(e)
                        &&& final(self).next_op == old(self).next_op
                        &&& final(self).out.sent == old(self).out.sent
                        &&& final(self).session == old(self).session
                        &&& same_findings(Outcome { error: Some(e), ..old(self).out }, final(self).out)
                    },
                }
            } else {
                r is FetchTasks && *final(self) == *old(self)
            },
            reply matches Reply::Tasks(Ok(ts)) ==> r is FetchDirectory && final(self).out.remote == Some(ts),
            reply matches Reply::Tasks(Err(e)) ==> r is Done && final(self).out.error == Some(e),
            reply matches Reply::Directory(Ok(d)) ==> r is Done && final(self).out.directory == Some(d),
            reply matches Reply::Directory(Err(e)) ==> r is Done && final(self).out.error == Some(e),
    {
        match reply {
            Reply::Refreshed(Err(e)) => {
                self.out.relogin = e.is_auth_rejected();
                self.out.error = Some(e);
                Step::Done
            },
            Reply::Refreshed(Ok((fresh, profile))) => {
                self.out.user_id = fresh.user_id;
                self.out.profile = profile;
                self.out.session = Some(fresh.clone());
                self.session = fresh;
                self.next_upload()
            },
            Reply::Uploaded(result) => {
                if self.next_op >= self.ops.len() {
                    return Step::FetchTasks;
                }
                let i = self.next_op;
                let op = self.ops[i].0;
                let snapshot = match &self.ops[i].1 {
                    Some(t) => Some(t.clone()),
                    None => None,
                };
                let uploaded = match op {
                    PendingOp::Upsert(_) => snapshot.is_some(),
                    PendingOp::Delete(_) => false,
                };
                let result = match result {
                    Ok(()) => Ok(uploaded),
                    Err(e) => Err(e),
                };
                match after_upload(op, snapshot, result) {
                    Ok(sent) => {
                        self.out.sent.push(sent);
                        self.next_op = i + 1;
                        let ghost mid = *self;
                        let step = self.next_upload();
                        assert(sent_views(mid.out.sent@) =~= sent_views(old(self).out.sent@).push(sent@));
                        step
                    },
                    Err(e) => {
                        self.out.error = Some(e);
                        Step::Done
                    },
                }
            },
            Reply::Tasks(Ok(ts)) => {
                self.out.remote = Some(ts);
                Step::FetchDirectory
            },
            Reply::Tasks(Err(e)) => {
                self.out.error = Some(e);
                Step::Done
            },
            Reply::Directory(Ok(d)) => {
                self.out.directory = Some(d);
                Step::Done
            },
            Reply::Directory(Err(e)) => {
                self.out.error = Some(e);
                Step::Done
            },
        }
    }
}

/// The outcome keeps a copy of the refreshed session.
pub open spec fn refreshed_kept(kept: Option<Session>, fresh: Session) -> bool {
    kept matches Some(k) && session_view(k) == session_view(fresh)
}

/// A session as plain values.
pub open spec fn session_view(s: Session) -> (Seq<char>, Seq<char>, Millis, Id) {
    (s.access_token@, s.refresh_token@, s.expires_at, s.user_id)
}

pub open spec fn sent_views(s: Seq<Sent>) -> Seq<SentView> {
    s.map_values(|x: Sent| x@)
}

/// Whether a profile's picture has to be downloaded: its address changed since the last turn
/// (or the person is new), or it is not cached.
pub fn avatar_needed(known: &Vec<(Id, Option<String>)>, profile: &Profile, cached: bool) -> (r: bool)
    ensures
        r == (!cached || !known_avatar_same(known@, profile.id, opt_view(&profile.avatar_url))),
{
    if !cached {
        return true;
    }
    let mut i: usize = 0;
    while i < known.len()
        invariant
            i <= known.len(),
            cached,
            forall|k: int| 0 <= k < i ==> (#[trigger] known@[k]).0 != profile.id,
        decreases known.len() - i,
    {
        if known[i].0 == profile.id {
            let same = match (&known[i].1, &profile.avatar_url) {
                (Some(a), Some(b)) => crate::text::str_eq(a.as_str(), b.as_str()),
                (None, None) => true,
                _ => false,
            };
            assert(same == (opt_view(&known@[i as int].1) == opt_view(&profile.avatar_url)));
            proof {
                assert(first_known(known@, profile.id, i as int));
                assert forall|j: int| first_known(known@, profile.id, j) implies j == i by {
                    if j < i {
                        assert(known@[j].0 != profile.id);
                    } else if j > i {
                        assert(known@[i as int].0 != profile.id);
                    }
                }
            }
            return !same;
        }
        i += 1;
    }
    true
}

pub open spec fn opt_view(s: &Option<String>) -> Option<Seq<char>> {
    match s {
        Some(x) => Some(x@),
        None => None,
    }
}

pub open spec fn first_known(known: Seq<(Id, Option<String>)>, id: Id, i: int) -> bool {
    &&& 0 <= i < known.len()
    &&& known[i].0 == id
    &&& forall|k: int| 0 <= k < i ==> known[k].0 != id
}

/// The picture address recorded for `id` (its first entry) is `url`.
pub open spec fn known_avatar_same(known: Seq<(Id, Option<String>)>, id: Id, url: Option<Seq<char>>) -> bool {
    exists|i: int| first_known(known, id, i) && opt_view(&known[i].1) == url
}

/// The pop-ups for the newly assigned tasks: one for each of them still in the list, in order,
/// each "Sana bir görev atandı" about that task.
pub open spec fn announced(notices: Seq<Notice>, assigned: Seq<Id>, tasks: Seq<Task>) -> bool {
    let listed = assigned.filter(|id: Id| has_id(tasks, id));
    &&& notices.len() == listed.len()
    &&& forall|k: int|
        0 <= k < notices.len() ==> (#[trigger] notices[k]).task_id == Some(listed[k]) && notices[k].kind
            == NoticeKind::Shared && notices[k].title@ == "Sana bir görev atandı"@ && !notices[k].read
}

/// What a finished turn does besides changing the data.
pub struct Applied {
    pub turn: Turn,
    /// A refreshed session to use from now on.
    pub session: Option<Session>,
    /// The server rejected the access token: it is to be refreshed on the next try.
    pub expire: bool,
    /// The refresh token was rejected: the account is signed out with this message.
    pub signed_out: Option<&'static str>,
    /// The sync status to show (`None`: it stays).
    pub status: Option<SyncStatus>,
    /// Pop-ups for tasks newly assigned to the account.
    pub notices: Vec<Notice>,
}

/// The data a finished turn leaves before the merge: the refreshed profile, and the groups and
/// people when they came.
pub open spec fn with_directory(old: &Data, new: &Data, out: &Outcome) -> bool {
    &&& new.account == (if out.profile is Some {
        out.profile
    } else {
        old.account
    })
    &&& new.groups@ == (match out.directory {
        Some((g, _)) => g@,
        None => old.groups@,
    })
    &&& new.profiles@ == (match out.directory {
        Some((_, p)) => p@,
        None => old.profiles@,
    })
    &&& new.tasks == old.tasks
    &&& new.pending == old.pending
    &&& new.remote_ids == old.remote_ids
    &&& new.last_sync == old.last_sync
    &&& new.last_account == old.last_account
    &&& new.notices == old.notices
    &&& new.settings == old.settings
    &&& new.version == old.version
}

/// Applies a finished turn for the account signed in as `signed_in_as`: a turn of another
/// account (or of a signed-out one) is skipped; a rejected refresh token signs out; else the
/// profile, groups and people are taken, the queue and tasks merged, the newly assigned tasks
/// announced, and the status set by the turn's error.
pub fn apply_outcome(data: &mut Data, signed_in_as: Option<Id>, out: Outcome, now: Millis) -> (r: Applied)
    ensures
        signed_in_as != Some(out.user_id) ==> r.turn == Turn::Skipped && r.status is None && r.session is None
            && !r.expire && r.signed_out is None && r.notices@.len() == 0 && *final(data) == *old(data),
        crate::data::in_display_order(old(data).tasks@) ==> crate::data::in_display_order(final(data).tasks@),
        signed_in_as == Some(out.user_id) ==> {
            &&& r.session == out.session
            &&& r.expire == (out.error matches Some(Error::Status(code, _)) && code == 401)
            &&& out.relogin ==> {
                &&& r.signed_out matches Some(m) && m@ == "Oturumun süresi doldu, tekrar giriş yap."@
                &&& r.status == Some(SyncStatus::Idle)
                &&& r.turn == Turn::Skipped
                &&& r.notices@.len() == 0
                &&& *final(data) == *old(data)
            }
            &&& !out.relogin ==> exists|mid: Data, assigned: Seq<Id>| {
                &&& with_directory(old(data), &mid, &out)
                &&& crate::data::merged(&mid, sent_views(out.sent@), out.remote, now, final(data), assigned)
                &&& r.signed_out is None
                &&& announced(r.notices@, assigned, final(data).tasks@)
                &&& match out.error {
                    None => r.status == Some(SyncStatus::Idle) && r.turn == Turn::Done,
                    Some(e) => if e.spec_is_temporary() {
                        r.status == Some(SyncStatus::Offline) && r.turn == Turn::Offline
                    } else {
                        (r.status matches Some(SyncStatus::Failed(m)) && m@ == e.spec_message()) && r.turn == Turn::Done
                    },
                }
            }
        },
{
    if signed_in_as != Some(out.user_id) {
        return Applied {
            turn: Turn::Skipped,
            session: None,
            expire: false,
            signed_out: None,
            status: None,
            notices: Vec::new(),
        };
    }
    let expire = match &out.error {
        Some(Error::Status(code, _)) => *code == 401,
        _ => false,
    };
    if out.relogin {
        return Applied {
            turn: Turn::Skipped,
            session: out.session,
            expire,
            signed_out: Some("Oturumun süresi doldu, tekrar giriş yap."),
            status: Some(SyncStatus::Idle),
            notices: Vec::new(),
        };
    }
    let Outcome { user_id: _, session, profile, sent, remote, directory, error, relogin: _ } = out;
    if profile.is_some() {
        data.account = profile;
    }
    if let Some((groups, profiles)) = directory {
        data.groups = groups;
        data.profiles = profiles;
    }
    let ghost mid = *data;
    assert(with_directory(old(data), &mid, &out));
    let ids = data.merge_sync(sent.as_slice(), remote, now);
    assert(crate::data::merged(&mid, sent_views(out.sent@), out.remote, now, data, ids@));
    let mut notices: Vec<Notice> = Vec::new();
    let ghost listed = |id: Id| has_id(data.tasks@, id);
    let mut i: usize = 0;
    while i < ids.len()
        invariant
            i <= ids.len(),
            listed == (|id: Id| has_id(data.tasks@, id)),
            announced(notices@, ids@.subrange(0, i as int), data.tasks@),
        decreases ids.len() - i,
    {
        let ghost prefix = ids@.subrange(0, i as int + 1);
        assert(prefix.drop_last() =~= ids@.subrange(0, i as int));
        proof {
            reveal(Seq::filter);
        }
        match assignment_notice(data, ids[i], now) {
            Some(n) => {
                let ghost before = notices@;
                notices.push(n);
                assert(prefix.filter(listed) == ids@.subrange(0, i as int).filter(listed).push(ids@[i as int]));
                assert forall|k: int| 0 <= k < notices@.len() implies (#[trigger] notices@[k]).task_id == Some(
                    prefix.filter(listed)[k],
                ) by {
                    if k < before.len() {
                        assert(notices@[k] == before[k]);
                    }
                }
            },
            None => {
                assert(prefix.filter(listed) == ids@.subrange(0, i as int).filter(listed));
            },
        }
        i += 1;
    }
    assert(ids@.subrange(0, ids@.len() as int) =~= ids@);
    let (status, turn) = finished(error);
    Applied { turn, session, expire, signed_out: None, status: Some(status), notices }
}

} // verus!
