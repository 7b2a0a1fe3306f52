//! Groups: what the groups page does with the server's answers (the local copy of groups,
//! members and profiles), the two-click confirmation of destructive actions, the member
//! order and the page's texts.

use vstd::prelude::*;
use crate::data::Data;
use crate::model::{Group, Id, Profile};
use crate::notices::{spec_display_name, user_name};
use crate::supabase::Error;
use crate::text::{
    chars_of, decimal, lemma_lex_total, lemma_lex_transitive, lex_lt, owned, spec_decimal, spec_lowercase, spec_trim,
    str_lt, to_lowercase, trim,
};

verus! {

/// `s` without its leading `c`s.
pub open spec fn strip_leading(s: Seq<char>, c: char) -> Seq<char>
    decreases s.len(),
{
    if s.len() > 0 && s[0] == c {
        strip_leading(s.drop_first(), c)
    } else {
        s
    }
}

/// The username typed to add a member: trimmed, without leading '@'s.
pub fn member_input(text: &str) -> (r: String)
    ensures
        r@ == strip_leading(spec_trim(text@), '@'),
{
    let t = trim(text);
    let cs = chars_of(t);
    let n = cs.len();
    let mut i: usize = 0;
    assert(cs@.subrange(0, n as int) =~= cs@);
    while i < n && cs[i] == '@'
        invariant
            i <= n,
            n == cs@.len(),
            cs@ == t@,
            strip_leading(t@, '@') == strip_leading(cs@.subrange(i as int, n as int), '@'),
        decreases n - i,
    {
        assert(cs@.subrange(i as int, n as int).drop_first() =~= cs@.subrange(i as int + 1, n as int));
        i += 1;
    }
    owned(t.substring_char(i, n))
}

/// A destructive action on the groups page; it runs on the second click.
#[derive(Clone, Copy, Debug, PartialEq, Eq, Structural)]
pub enum Confirm {
    DeleteGroup(Id),
    Leave(Id),
    Remove(Id),
}

/// A click on a destructive action: it runs when it was armed by the click before; else it is
/// armed now.
pub fn confirmed(armed: &mut Option<Confirm>, action: Confirm) -> (r: bool)
    ensures
        r == (*old(armed) == Some(action)),
        *final(armed) == Some(action),
{
    if *armed == Some(action) {
        return true;
    }
    *armed = Some(action);
    false
}

/// The action that ends a membership: the owner deletes the group, the others leave it.
pub fn end_action(group: &Group, me: Option<Id>) -> (r: (&'static str, Confirm))
    ensures
        me == Some(group.owner_id) ==> r.0@ == "Grubu sil"@ && r.1 == Confirm::DeleteGroup(group.id),
        me != Some(group.owner_id) ==> r.0@ == "Gruptan ayrıl"@ && r.1 == Confirm::Leave(group.id),
{
    if me == Some(group.owner_id) {
        ("Grubu sil", Confirm::DeleteGroup(group.id))
    } else {
        ("Gruptan ayrıl", Confirm::Leave(group.id))
    }
}

pub open spec fn spec_role(group: Group, me: Option<Id>) -> Seq<char> {
    if me == Some(group.owner_id) {
        "Sahip"@
    } else {
        "Üye"@
    }
}

/// The line under a group's name: its size and the account's role in it.
pub fn group_summary(group: &Group, me: Option<Id>) -> (r: String)
    ensures
        r@ == spec_decimal(group.members@.len()) + " üye · "@ + spec_role(*group, me),
{
    let mut s = decimal(group.members.len() as u64);
    s.append(" üye · ");
    if me == Some(group.owner_id) {
        s.append("Sahip");
    } else {
        s.append("Üye");
    }
    s
}

/// The selected group while it exists, else the first group.
pub fn keep_selection(selected: Option<Id>, groups: &Vec<Group>) -> (r: Option<Id>)
    ensures
        (selected matches Some(s) && has_group(groups@, s)) ==> r == selected,
        !(selected matches Some(s) && has_group(groups@, s)) ==> r == (if groups.len() == 0 {
            None
        } else {
            Some(groups@[0].id)
        }),
{
    if let Some(s) = selected {
        let mut i: usize = 0;
        while i < groups.len()
            invariant
                i <= groups.len(),
                selected == Some(s),
                forall|k: int| 0 <= k < i ==> groups@[k].id != s,
            decreases groups.len() - i,
        {
            if groups[i].id == s {
                assert(groups@[i as int].id == s);
                assert(has_group(groups@, s));
                return selected;
            }
            i += 1;
        }
    }
    if groups.len() == 0 {
        None
    } else {
        Some(groups[0].id)
    }
}

// ----- the local copy after a server change -----

/// The first group with id `id`.
pub open spec fn first_group(groups: Seq<Group>, id: Id, i: int) -> bool {
    &&& 0 <= i < groups.len()
    &&& groups[i].id == id
    &&& forall|j: int| 0 <= j < i ==> groups[j].id != id
}

pub open spec fn has_group(groups: Seq<Group>, id: Id) -> bool {
    exists|i: int| 0 <= i < groups.len() && groups[i].id == id
}

fn find_group(groups: &Vec<Group>, id: Id) -> (r: Option<usize>)
    ensures
        match r {
            Some(i) => first_group(groups@, id, i as int),
            None => !has_group(groups@, id),
        },
{
    let mut i: usize = 0;
    while i < groups.len()
        invariant
            i <= groups.len(),
            forall|k: int| 0 <= k < i ==> groups@[k].id != id,
        decreases groups.len() - i,
    {
        if groups[i].id == id {
            return Some(i);
        }
        i += 1;
    }
    None
}

/// Everything but the groups and profiles stays.
pub open spec fn same_but_groups(a: &Data, b: &Data) -> bool {
    &&& a.version == b.version
    &&& a.tasks == b.tasks
    &&& a.settings == b.settings
    &&& a.notices == b.notices
    &&& a.account == b.account
    &&& a.last_account == b.last_account
    &&& a.pending == b.pending
    &&& a.remote_ids == b.remote_ids
    &&& a.last_sync == b.last_sync
}

/// `after` is `before` with the members of its group `i` changed to `members`.
pub open spec fn members_changed(before: Seq<Group>, after: Seq<Group>, i: int, members: Seq<Id>) -> bool {
    &&& after.len() == before.len()
    &&& forall|k: int| 0 <= k < before.len() && k != i ==> after[k] == before[k]
    &&& after[i].id == before[i].id
    &&& after[i].name == before[i].name
    &&& after[i].owner_id == before[i].owner_id
    &&& after[i].members@ == members
}

/// A group the account just created joins the list.
pub fn add_group(data: &mut Data, group: Group)
    ensures
        final(data).groups@ == old(data).groups@.push(group),
        final(data).profiles == old(data).profiles,
        same_but_groups(final(data), old(data)),
{
    data.groups.push(group);
}

/// A member the server accepted: their id joins the group's members, and their profile is
/// kept unless it is known already.
pub fn add_member(data: &mut Data, group: Id, profile: Profile)
    ensures
        has_group(old(data).groups@, group) ==> exists|i: int|
            first_group(old(data).groups@, group, i) && members_changed(
                old(data).groups@,
                final(data).groups@,
                i,
                old(data).groups@[i].members@.push(profile.id),
            ),
        !has_group(old(data).groups@, group) ==> final(data).groups == old(data).groups,
        old(data).spec_profile(profile.id) is None ==> final(data).profiles@ == old(data).profiles@.push(
            profile,
        ),
        old(data).spec_profile(profile.id) is Some ==> final(data).profiles == old(data).profiles,
        same_but_groups(final(data), old(data)),
{
    let id = profile.id;
    if let Some(i) = find_group(&data.groups, group) {
        data.groups[i].members.push(id);
    }
    let known = data.profile(id).is_some();
    if !known {
        data.profiles.push(profile);
    }
}

/// The groups without every group with id `group`.
pub open spec fn without_group(groups: Seq<Group>, group: Id) -> Seq<Group> {
    groups.filter(|g: Group| g.id != group)
}

fn retain_groups(groups: &mut Vec<Group>, group: Id)
    ensures
        final(groups)@ == without_group(old(groups)@, group),
{
    let ghost all = old(groups)@;
    let mut kept: Vec<Group> = Vec::new();
    let mut rest: Vec<Group> = Vec::new();
    std::mem::swap(groups, &mut rest);
    let n = rest.len();
    let mut i: usize = 0;
    while i < n
        invariant
            i <= n,
            n == all.len(),
            rest@ == all.subrange(i as int, n as int),
            kept@ == without_group(all.subrange(0, i as int), group),
        decreases n - i,
    {
        let g = rest.remove(0);
        assert(rest@ =~= all.subrange(i as int + 1, n as int));
        let ghost prefix = all.subrange(0, i as int + 1);
        assert(prefix.drop_last() =~= all.subrange(0, i as int));
        reveal(Seq::filter);
        if g.id != group {
            kept.push(g);
        }
        i += 1;
    }
    assert(all.subrange(0, n as int) =~= all);
    *groups = kept;
}

fn retain_members(members: &mut Vec<Id>, user: Id)
    ensures
        final(members)@ == old(members)@.filter(|m: Id| m != user),
{
    let ghost all = old(members)@;
    let mut kept: Vec<Id> = Vec::new();
    let mut i: usize = 0;
    while i < members.len()
        invariant
            i <= members.len(),
            members@ == all,
            kept@ == all.subrange(0, i as int).filter(|m: Id| m != user),
        decreases members.len() - i,
    {
        let ghost prefix = all.subrange(0, i as int + 1);
        assert(prefix.drop_last() =~= all.subrange(0, i as int));
        reveal(Seq::filter);
        if members[i] != user {
            kept.push(members[i]);
        }
        i += 1;
    }
    assert(all.subrange(0, all.len() as int) =~= all);
    *members = kept;
}

/// A membership the server ended: when it was the account's own (it left), the group goes;
/// else the user leaves the group's members.
pub fn remove_member(data: &mut Data, group: Id, user: Id)
    ensures
        old(data).spec_me() == Some(user) ==> final(data).groups@ == without_group(old(data).groups@, group),
        old(data).spec_me() != Some(user) && has_group(old(data).groups@, group) ==> exists|i: int|
            first_group(old(data).groups@, group, i) && members_changed(
                old(data).groups@,
                final(data).groups@,
                i,
                old(data).groups@[i].members@.filter(|m: Id| m != user),
            ),
        old(data).spec_me() != Some(user) && !has_group(old(data).groups@, group) ==> final(data).groups
            == old(data).groups,
        final(data).profiles == old(data).profiles,
        same_but_groups(final(data), old(data)),
{
    if data.me() == Some(user) {
        retain_groups(&mut data.groups, group);
    } else if let Some(i) = find_group(&data.groups, group) {
        retain_members(&mut data.groups[i].members, user);
    }
}

/// A group the server deleted leaves the list.
pub fn remove_group(data: &mut Data, group: Id)
    ensures
        final(data).groups@ == without_group(old(data).groups@, group),
        final(data).profiles == old(data).profiles,
        same_but_groups(final(data), old(data)),
{
    retain_groups(&mut data.groups, group);
}

// ----- the members' order -----

/// How members are ordered: the owner first, then the others by lowercased name.
pub open spec fn member_key_le(a: (bool, Seq<char>), b: (bool, Seq<char>)) -> bool {
    (!a.0 && b.0) || (a.0 == b.0 && !lex_lt(b.1, a.1))
}

/// Stable insertion of `x` after every member that does not come after it.
pub open spec fn insert_member(s: Seq<(bool, Seq<char>, Id)>, x: (bool, Seq<char>, Id)) -> Seq<(bool, Seq<char>, Id)>
    decreases s.len(),
{
    if s.len() == 0 {
        seq![x]
    } else if member_key_le((s.last().0, s.last().1), (x.0, x.1)) {
        s.push(x)
    } else {
        insert_member(s.drop_last(), x).push(s.last())
    }
}

/// Stable sort by key (equal keys keep their order).
pub open spec fn sort_members(s: Seq<(bool, Seq<char>, Id)>) -> Seq<(bool, Seq<char>, Id)>
    decreases s.len(),
{
    if s.len() == 0 {
        s
    } else {
        insert_member(sort_members(s.drop_last()), s.last())
    }
}

/// Each member with its sort key.
pub open spec fn keyed_members(data: &Data, group: Group) -> Seq<(bool, Seq<char>, Id)> {
    group.members@.map_values(
        |m: Id| (m != group.owner_id, spec_lowercase(spec_display_name(data.spec_profile(m))), m),
    )
}

proof fn lemma_insert_member(s: Seq<(bool, Seq<char>, Id)>, x: (bool, Seq<char>, Id), j: int)
    requires
        0 <= j <= s.len(),
        forall|k: int| j <= k < s.len() ==> !member_key_le(((#[trigger] s[k]).0, s[k].1), (x.0, x.1)),
        j == 0 || member_key_le((s[j - 1].0, s[j - 1].1), (x.0, x.1)),
    ensures
        insert_member(s, x) == s.insert(j, x),
    decreases s.len(),
{
    if s.len() == 0 {
        assert(s.insert(j, x) =~= seq![x]);
    } else if member_key_le((s.last().0, s.last().1), (x.0, x.1)) {
        assert(j == s.len());
        assert(s.insert(j, x) =~= s.push(x));
    } else {
        lemma_insert_member(s.drop_last(), x, j);
        assert(s.drop_last().insert(j, x).push(s.last()) =~= s.insert(j, x));
    }
}

/// Whether the member keyed `a` comes after the one keyed `b`.
fn comes_after(a: &(bool, String, Id), b: &(bool, String, Id)) -> (r: bool)
    ensures
        r == !member_key_le((a.0, a.1@), (b.0, b.1@)),
{
    if a.0 != b.0 {
        a.0 && !b.0
    } else {
        str_lt(b.1.as_str(), a.1.as_str())
    }
}

/// The group's members in the order the page lists them: the owner first, then the others by
/// lowercased name.
pub fn ordered_members(data: &Data, group: &Group) -> (r: Vec<Id>)
    ensures
        r@ == sort_members(keyed_members(data, *group)).map_values(|k: (bool, Seq<char>, Id)| k.2),
{
    let ghost all = keyed_members(data, *group);
    let mut sorted: Vec<(bool, String, Id)> = Vec::new();
    let mut i: usize = 0;
    while i < group.members.len()
        invariant
            i <= group.members.len(),
            all == keyed_members(data, *group),
            sorted@.len() == i,
            sorted@.map_values(|k: (bool, String, Id)| (k.0, k.1@, k.2)) == sort_members(
                all.subrange(0, i as int),
            ),
        decreases group.members.len() - i,
    {
        let m = group.members[i];
        let name = user_name(data, m);
        let key: (bool, String, Id) = (m != group.owner_id, to_lowercase(name.as_str()), m);
        let ghost kv = (key.0, key.1@, key.2);
        assert(kv == all[i as int]);
        let mut j: usize = sorted.len();
        while j > 0 && comes_after(&sorted[j - 1], &key)
            invariant
                j <= sorted.len(),
                forall|k: int|
                    j <= k < sorted@.len() ==> !member_key_le(
                        ((#[trigger] sorted@[k]).0, sorted@[k].1@),
                        (key.0, key.1@),
                    ),
            decreases j,
        {
            j -= 1;
        }
        let ghost before = sorted@.map_values(|k: (bool, String, Id)| (k.0, k.1@, k.2));
        proof {
            assert forall|k: int| j <= k < before.len() implies !member_key_le(
                ((#[trigger] before[k]).0, before[k].1),
                (kv.0, kv.1),
            ) by {
                assert(before[k] == (sorted@[k].0, sorted@[k].1@, sorted@[k].2));
            }
            if j > 0 {
                assert(before[j - 1] == (sorted@[j - 1].0, sorted@[j - 1].1@, sorted@[j - 1].2));
            }
            lemma_insert_member(before, kv, j as int);
            let prefix = all.subrange(0, i as int + 1);
            assert(prefix.drop_last() =~= all.subrange(0, i as int));
            assert(prefix.last() == kv);
        }
        sorted.insert(j, key);
        assert(sorted@.map_values(|k: (bool, String, Id)| (k.0, k.1@, k.2)) =~= before.insert(j as int, kv));
        i += 1;
    }
    assert(all.subrange(0, all.len() as int) =~= all);
    let ghost fin = sort_members(all);
    let mut r: Vec<Id> = Vec::new();
    let mut k: usize = 0;
    while k < sorted.len()
        invariant
            k <= sorted.len(),
            sorted@.map_values(|x: (bool, String, Id)| (x.0, x.1@, x.2)) == fin,
            r@ == fin.subrange(0, k as int).map_values(|x: (bool, Seq<char>, Id)| x.2),
        decreases sorted.len() - k,
    {
        assert(fin[k as int] == (sorted@[k as int].0, sorted@[k as int].1@, sorted@[k as int].2));
        r.push(sorted[k].2);
        assert(fin.subrange(0, k as int + 1).map_values(|x: (bool, Seq<char>, Id)| x.2) =~= fin.subrange(
            0,
            k as int,
        ).map_values(|x: (bool, Seq<char>, Id)| x.2).push(fin[k as int].2));
        k += 1;
    }
    assert(fin.subrange(0, fin.len() as int) =~= fin);
    r
}

// ----- the server's refusals, as the page words them -----

pub open spec fn spec_unknown_user(name: Seq<char>) -> Seq<char> {
    "\""@ + name + "\" adıyla Odak'a giriş yapmış bir Discord kullanıcısı yok."@
}

/// The error when nobody by the typed name has signed in to Odak.
pub fn unknown_user(name: &str) -> (r: Error)
    ensures
        r == Error::Local(r->Local_0) && r->Local_0@ == spec_unknown_user(name@),
{
    let mut s = "\"".to_string();
    s.append(name);
    s.append("\" adıyla Odak'a giriş yapmış bir Discord kullanıcısı yok.");
    Error::Local(s)
}

/// What adding a member gave: a conflict (409) means they are in the group already; any
/// other outcome is passed on.
pub fn member_added(result: Result<(), Error>, profile: Profile) -> (r: Result<Profile, Error>)
    ensures
        (result matches Err(Error::Status(code, _)) && code == 409) ==> (r matches Err(Error::Local(m))
            && m@ == profile.spec_name() + " zaten bu grupta."@),
        !(result matches Err(Error::Status(code, _)) && code == 409) ==> match result {
            Ok(()) => r == Ok::<Profile, Error>(profile),
            Err(e) => r == Err::<Profile, Error>(e),
        },
{
    match result {
        Err(Error::Status(409, _)) => {
            let mut s = owned(profile.name());
            s.append(" zaten bu grupta.");
            Err(Error::Local(s))
        },
        Ok(()) => Ok(profile),
        Err(e) => Err(e),
    }
}

// ----- the members' order, as a law -----

pub open spec fn key_of(x: (bool, Seq<char>, Id)) -> (bool, Seq<char>) {
    (x.0, x.1)
}

pub open spec fn members_sorted(s: Seq<(bool, Seq<char>, Id)>) -> bool {
    forall|i: int, j: int| 0 <= i < j < s.len() ==> member_key_le(key_of(s[i]), key_of(s[j]))
}

proof fn lemma_key_total(a: (bool, Seq<char>), b: (bool, Seq<char>))
    ensures
        member_key_le(a, b) || member_key_le(b, a),
{
    lemma_lex_total(a.1, b.1);
}

proof fn lemma_key_transitive(a: (bool, Seq<char>), b: (bool, Seq<char>), c: (bool, Seq<char>))
    requires
        member_key_le(a, b),
        member_key_le(b, c),
    ensures
        member_key_le(a, c),
{
    if a.0 == c.0 && lex_lt(c.1, a.1) {
        // then a.0 == b.0 == c.0, with a <= b <= c by name
        lemma_lex_total(a.1, b.1);
        lemma_lex_total(b.1, c.1);
        if a.1 == b.1 {
        } else if lex_lt(a.1, b.1) {
            lemma_lex_transitive(c.1, a.1, b.1);
        } else {
        }
    }
}

proof fn lemma_insert_member_sorted(s: Seq<(bool, Seq<char>, Id)>, x: (bool, Seq<char>, Id))
    requires
        members_sorted(s),
    ensures
        members_sorted(insert_member(s, x)),
        insert_member(s, x).to_multiset() == s.to_multiset().insert(x),
    decreases s.len(),
{
    broadcast use vstd::seq_lib::group_to_multiset_ensures;
    if s.len() == 0 {
        assert(seq![x] =~= Seq::<(bool, Seq<char>, Id)>::empty().push(x));
    } else if member_key_le(key_of(s.last()), key_of(x)) {
        assert forall|i: int, j: int| 0 <= i < j < s.len() + 1 implies member_key_le(
            key_of(s.push(x)[i]),
            key_of(s.push(x)[j]),
        ) by {
            if j == s.len() && i < s.len() - 1 {
                lemma_key_transitive(key_of(s[i]), key_of(s.last()), key_of(x));
            }
        }
    } else {
        let init = s.drop_last();
        lemma_insert_member_sorted(init, x);
        let r = insert_member(init, x);
        lemma_key_total(key_of(s.last()), key_of(x));
        assert forall|i: int, j: int| 0 <= i < j < r.len() + 1 implies member_key_le(
            key_of(r.push(s.last())[i]),
            key_of(r.push(s.last())[j]),
        ) by {
            if j == r.len() {
                assert(r.to_multiset().contains(r[i]));
                assert(init.to_multiset().insert(x).contains(r[i]));
                if r[i] != x {
                    assert(init.to_multiset().contains(r[i]));
                    assert(init.contains(r[i]));
                    let k = choose|k: int| 0 <= k < init.len() && init[k] == r[i];
                    assert(s[k] == init[k]);
                }
            }
        }
        assert(init.push(s.last()) =~= s);
    }
}

/// The members' order keeps every member and sorts by key: the owner first, then the others by
/// lowercased name.
pub proof fn law_members_sorted(s: Seq<(bool, Seq<char>, Id)>)
    ensures
        members_sorted(sort_members(s)),
        sort_members(s).to_multiset() == s.to_multiset(),
    decreases s.len(),
{
    broadcast use vstd::seq_lib::group_to_multiset_ensures;
    if s.len() > 0 {
        law_members_sorted(s.drop_last());
        lemma_insert_member_sorted(sort_members(s.drop_last()), s.last());
        assert(s.drop_last().push(s.last()) =~= s);
    }
}

/// When the owner is among the members, the list starts with the owner.
pub proof fn law_owner_listed_first(data: &Data, group: Group)
    requires
        group.members@.contains(group.owner_id),
    ensures
        sort_members(keyed_members(data, group))[0].2 == group.owner_id,
{
    broadcast use vstd::seq_lib::group_to_multiset_ensures;
    let keyed = keyed_members(data, group);
    let sorted = sort_members(keyed);
    law_members_sorted(keyed);
    let k = choose|k: int| 0 <= k < group.members@.len() && group.members@[k] == group.owner_id;
    assert(keyed[k].0 == false);
    assert(keyed.to_multiset().contains(keyed[k]));
    assert(sorted.to_multiset().contains(keyed[k]));
    assert(sorted.contains(keyed[k]));
    let j = choose|j: int| 0 <= j < sorted.len() && sorted[j] == keyed[k];
    assert(sorted.len() > 0);
    if j > 0 {
        assert(member_key_le(key_of(sorted[0]), key_of(sorted[j])));
    }
    assert(!sorted[0].0);
    assert(sorted.to_multiset().contains(sorted[0]));
    assert(keyed.to_multiset().contains(sorted[0]));
    assert(keyed.contains(sorted[0]));
    let m = choose|m: int| 0 <= m < keyed.len() && keyed[m] == sorted[0];
    assert(keyed[m].0 == (group.members@[m] != group.owner_id));
}

} // verus!
