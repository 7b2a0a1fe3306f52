//! What the shared widgets show: the sync status line, a user's avatar letter and a task
//! card's sharing badges.

use vstd::prelude::*;
use crate::data::Data;
use crate::model::{Group, Id, Millis, Task};
use crate::notices::{CLOUD, CLOUD_CHECK, CLOUD_DISABLED, REFRESH};
use crate::sync::SyncStatus;
use crate::clock::valid_instant;
use crate::text::{chars_of, decimal, owned, spec_decimal, spec_replace, replace};
use crate::views::{time_ago, time_ago_text};

verus! {

/// Where the account's sign-in stands (the session itself is the host's).
#[derive(Clone, Copy, Debug, PartialEq, Eq, Structural)]
pub enum AuthKind {
    SignedOut,
    /// The browser sign-in is under way.
    Waiting,
    SignedIn,
}

/// The sync line for a status, with `ago` the time since the last sync as `time_ago` words it:
/// nothing without an account or while signing in; else, in this order, a needed sign-in, an
/// unsettled account choice, a running sync, being offline (with the changes waiting), a
/// failure, changes waiting, the last sync, or none yet.
pub open spec fn spec_sync_label(
    data: &Data,
    auth: AuthKind,
    sync: &SyncStatus,
    ago: Seq<char>,
) -> Option<(Seq<char>, Seq<char>)> {
    let waiting = data.pending@.len();
    if data.account is None || auth == AuthKind::Waiting {
        None
    } else if auth == AuthKind::SignedOut {
        Some((CLOUD_DISABLED@, "Tekrar giriş gerekli"@))
    } else if data.spec_needs_account_choice() {
        Some((CLOUD_DISABLED@, "Senkron bekliyor: Ayarlar'a bak"@))
    } else {
        match sync {
            SyncStatus::Syncing => Some((REFRESH@, "Senkronize ediliyor..."@)),
            SyncStatus::Offline => if waiting > 0 {
                Some((CLOUD_DISABLED@, "Çevrimdışı · "@ + spec_decimal(waiting) + " değişiklik bekliyor"@))
            } else {
                Some((CLOUD_DISABLED@, "Çevrimdışı"@))
            },
            SyncStatus::Failed(e) => Some((CLOUD_DISABLED@, e@)),
            SyncStatus::Idle => if waiting > 0 {
                Some((CLOUD@, spec_decimal(waiting) + " değişiklik bekliyor"@))
            } else {
                match data.last_sync {
                    Some(_) => Some((CLOUD_CHECK@, "Senkronize · "@ + spec_replace(ago, "Az önce"@, "az önce"@))),
                    None => Some((CLOUD@, "Henüz senkronize edilmedi"@)),
                }
            },
        }
    }
}

/// The line tells the time since the last sync.
pub open spec fn uses_last_sync(data: &Data, auth: AuthKind, sync: &SyncStatus) -> bool {
    &&& data.account is Some
    &&& auth == AuthKind::SignedIn
    &&& !data.spec_needs_account_choice()
    &&& sync is Idle
    &&& data.pending@.len() == 0
    &&& data.last_sync is Some
}

pub open spec fn label_view(r: Option<(&'static str, String)>) -> Option<(Seq<char>, Seq<char>)> {
    match r {
        Some((g, t)) => Some((g@, t@)),
        None => None,
    }
}

/// The glyph and text of the sync status line.
pub fn sync_label(data: &Data, auth: AuthKind, sync: &SyncStatus, now: Millis) -> (r: Option<(&'static str, String)>)
    requires
        data.last_sync matches Some(at) ==> valid_instant(at as int),
        valid_instant(now as int),
    ensures
        !uses_last_sync(data, auth, sync) ==> label_view(r) == spec_sync_label(data, auth, sync, Seq::empty()),
        uses_last_sync(data, auth, sync) ==> exists|ago: Seq<char>|
            time_ago_text(data.last_sync->0, now, ago) && label_view(r) == spec_sync_label(data, auth, sync, ago),
{
    let ghost none: Seq<char> = Seq::empty();
    if data.account.is_none() || auth == AuthKind::Waiting {
        assert(spec_sync_label(data, auth, sync, none) is None);
        return None;
    }
    if auth == AuthKind::SignedOut {
        let r = (CLOUD_DISABLED, "Tekrar giriş gerekli".to_string());
        assert(spec_sync_label(data, auth, sync, none) == Some((r.0@, r.1@)));
        return Some(r);
    }
    if data.needs_account_choice() {
        let r = (CLOUD_DISABLED, "Senkron bekliyor: Ayarlar'a bak".to_string());
        assert(spec_sync_label(data, auth, sync, none) == Some((r.0@, r.1@)));
        return Some(r);
    }
    let waiting = data.pending.len();
    let r: (&'static str, String) = match sync {
        SyncStatus::Syncing => (REFRESH, "Senkronize ediliyor...".to_string()),
        SyncStatus::Offline => if waiting > 0 {
            let mut s = "Çevrimdışı · ".to_string();
            s.append(decimal(waiting as u64).as_str());
            s.append(" değişiklik bekliyor");
            (CLOUD_DISABLED, s)
        } else {
            (CLOUD_DISABLED, "Çevrimdışı".to_string())
        },
        SyncStatus::Failed(e) => (CLOUD_DISABLED, e.clone()),
        SyncStatus::Idle => if waiting > 0 {
            let mut s = decimal(waiting as u64);
            s.append(" değişiklik bekliyor");
            (CLOUD, s)
        } else {
            match data.last_sync {
                Some(at) => {
                    let ago = time_ago(at, now);
                    proof {
                        reveal_strlit("Az önce");
                    }
                    let mut s = "Senkronize · ".to_string();
                    let lowered = replace(ago.as_str(), "Az önce", "az önce");
                    s.append(lowered.as_str());
                    assert(spec_sync_label(data, auth, sync, ago@) == Some((CLOUD_CHECK@, s@)));
                    return Some((CLOUD_CHECK, s));
                },
                None => (CLOUD, "Henüz senkronize edilmedi".to_string()),
            }
        },
    };
    assert(spec_sync_label(data, auth, sync, none) == Some((r.0@, r.1@)));
    Some(r)
}

/// What `char::to_uppercase` makes of a character (one or more characters).
pub uninterp spec fn spec_upper(c: char) -> Seq<char>;

/// `char::to_uppercase`, collected into a string.
#[verifier::external_body]
fn upper(c: char) -> (r: String)
    ensures
        r@ == spec_upper(c),
{
    c.to_uppercase().collect::<String>()
}

/// The letter an avatar shows: the name's first character in upper case, or "?" without a name.
pub fn user_initial(name: &str) -> (r: String)
    ensures
        name@.len() == 0 ==> r@ == "?"@,
        name@.len() > 0 ==> r@ == spec_upper(name@[0]),
{
    let cs = chars_of(name);
    if cs.len() == 0 {
        "?".to_string()
    } else {
        upper(cs[0])
    }
}

/// The name of the first group with id `id`.
pub open spec fn group_name_of(groups: Seq<Group>, id: Id) -> Option<Seq<char>>
    decreases groups.len(),
{
    if groups.len() == 0 {
        None
    } else if groups[0].id == id {
        Some(groups[0].name@)
    } else {
        group_name_of(groups.drop_first(), id)
    }
}

fn group_name(groups: &Vec<Group>, g: Id) -> (r: Option<String>)
    ensures
        match group_name_of(groups@, g) {
            Some(n) => r matches Some(s) && s@ == n,
            None => r is None,
        },
{
    let ghost all = groups@;
    let mut i: usize = 0;
    assert(all.subrange(0, all.len() as int) =~= all);
    while i < groups.len()
        invariant
            i <= groups.len(),
            all == groups@,
            group_name_of(all, g) == group_name_of(all.subrange(i as int, all.len() as int), g),
        decreases groups.len() - i,
    {
        let ghost rest = all.subrange(i as int, all.len() as int);
        assert(rest.drop_first() =~= all.subrange(i as int + 1, all.len() as int));
        assert(rest[0] == all[i as int]);
        if groups[i].id == g {
            return Some(owned(groups[i].name.as_str()));
        }
        i += 1;
    }
    None
}

/// A task card's sharing badges: the name of its group (when it is one the account knows) and
/// its assignee.
pub fn sharing_of(data: &Data, task: &Task) -> (r: (Option<String>, Option<Id>))
    ensures
        match task.group_id {
            Some(g) => match group_name_of(data.groups@, g) {
                Some(n) => r.0 matches Some(s) && s@ == n,
                None => r.0 is None,
            },
            None => r.0 is None,
        },
        r.1 == task.assignee_id,
{
    let name = match task.group_id {
        Some(g) => group_name(&data.groups, g),
        None => None,
    };
    (name, task.assignee_id)
}

} // verus!
