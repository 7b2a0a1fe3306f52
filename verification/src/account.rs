//! The account's decisions: which profile a sign-in adopts, what restoring the session at
//! startup does, how failed sign-ins and refreshes end, where the avatar is downloaded from,
//! and what the account section of Settings says.

use vstd::prelude::*;
use crate::model::{Id, Profile};
use crate::supabase::Error;
use crate::text::{chars_of, decimal, owned, spec_decimal};
use crate::widgets::AuthKind;

verus! {

/// The profile a sign-in of `user` keeps: the server's, else the account already known for
/// that user, else a blank one.
pub fn adopted_account(user: Id, profile: Option<Profile>, current: &Option<Profile>) -> (r: Profile)
    ensures
        profile matches Some(p) ==> r == p,
        profile is None && (current matches Some(a) && a.id == user) ==> r.id == user && r.username@
            == current->0.username@ && r.display_name@ == current->0.display_name@,
        profile is None && !(current matches Some(a) && a.id == user) ==> r.id == user && r.username@.len()
            == 0 && r.display_name@.len() == 0 && r.avatar_url is None,
{
    match profile {
        Some(p) => p,
        None => match current {
            Some(a) => if a.id == user {
                a.clone()
            } else {
                Profile { id: user, username: String::new(), display_name: String::new(), avatar_url: None }
            },
            None => Profile { id: user, username: String::new(), display_name: String::new(), avatar_url: None },
        },
    }
}

/// What startup does with a saved session.
#[derive(Clone, Copy, Debug, PartialEq, Eq, Structural)]
pub enum Restore {
    /// Accounts are off, or there is no saved token: nothing.
    Nothing,
    /// A token without an account is of no use: it is forgotten.
    ForgetToken,
    /// The account is signed in with a stale session, refreshed in the background.
    Resume,
}

pub fn restore_step(enabled: bool, has_account: bool, has_token: bool) -> (r: Restore)
    ensures
        !enabled ==> r == Restore::Nothing,
        enabled && !has_account ==> r == Restore::ForgetToken,
        enabled && has_account && !has_token ==> r == Restore::Nothing,
        enabled && has_account && has_token ==> r == Restore::Resume,
{
    if !enabled {
        Restore::Nothing
    } else if !has_account {
        Restore::ForgetToken
    } else if !has_token {
        Restore::Nothing
    } else {
        Restore::Resume
    }
}

/// A background refresh that failed: a rejected token signs the account out with this
/// message; anything else leaves the stale session to be refreshed later.
pub fn refresh_failed(e: &Error) -> (r: Option<&'static str>)
    ensures
        e.spec_is_auth_rejected() ==> (r matches Some(m) && m@ == "Oturumun süresi doldu, tekrar giriş yap."@),
        !e.spec_is_auth_rejected() ==> r is None,
{
    if e.is_auth_rejected() {
        Some("Oturumun süresi doldu, tekrar giriş yap.")
    } else {
        None
    }
}

/// A browser sign-in that failed: a cancelled one ends quietly; another, if the app still waits
/// for it, signs out with the error's message.
pub fn sign_in_failed(e: &Error, still_waiting: bool) -> (r: Option<String>)
    ensures
        (e is Cancelled || !still_waiting) ==> r is None,
        !(e is Cancelled || !still_waiting) ==> (r matches Some(m) && m@ == e.spec_message()),
{
    match e {
        Error::Cancelled => None,
        _ => if still_waiting {
            Some(e.message())
        } else {
            None
        },
    }
}

/// Where an avatar is downloaded from: Discord's animated `.gif` as its static `.png`, at 128
/// pixels. None without an address.
pub open spec fn spec_avatar_download(url: Seq<char>) -> Seq<char> {
    let base = if url.len() >= 4 && url.subrange(url.len() - 4, url.len() as int) == ".gif"@ {
        url.subrange(0, url.len() - 4) + ".png"@
    } else {
        url
    };
    base + "?size=128"@
}

pub fn avatar_download(url: &Option<String>) -> (r: Option<String>)
    ensures
        match url {
            Some(u) => if u@.len() == 0 {
                r is None
            } else {
                r matches Some(s) && s@ == spec_avatar_download(u@)
            },
            None => r is None,
        },
{
    let u = match url {
        Some(u) => u,
        None => return None,
    };
    let cs = chars_of(u.as_str());
    let n = cs.len();
    if n == 0 {
        return None;
    }
    proof {
        reveal_strlit(".gif");
        reveal_strlit(".png");
        reveal_strlit("?size=128");
    }
    let gif = n >= 4 && cs[n - 4] == '.' && cs[n - 3] == 'g' && cs[n - 2] == 'i' && cs[n - 1] == 'f';
    assert(gif == (u@.len() >= 4 && u@.subrange(u@.len() - 4, u@.len() as int) == ".gif"@)) by {
        if u@.len() >= 4 {
            let tail = u@.subrange(u@.len() - 4, u@.len() as int);
            assert(".gif"@ =~= seq!['.', 'g', 'i', 'f']);
            if tail == ".gif"@ {
                assert(tail[0] == cs@[n - 4]);
                assert(tail[1] == cs@[n - 3]);
                assert(tail[2] == cs@[n - 2]);
                assert(tail[3] == cs@[n - 1]);
            }
            if gif {
                assert(tail =~= ".gif"@);
            }
        }
    }
    let mut s = if gif {
        let mut b = owned(u.as_str().substring_char(0, n - 4));
        b.append(".png");
        b
    } else {
        owned(u.as_str())
    };
    s.append("?size=128");
    Some(s)
}

/// What the account section of Settings shows.
#[derive(Clone, Copy, Debug, PartialEq, Eq, Structural)]
pub enum AccountRow {
    /// Accounts are off in this build.
    Disabled,
    /// Waiting for the browser sign-in, with a cancel button.
    Waiting,
    /// The signed-in account, with a sign-out button.
    SignedIn,
    /// The account whose session ended, with a sign-in-again button.
    Expired,
    /// Nobody has signed in: the sign-in row.
    SignIn,
}

pub fn account_row(enabled: bool, auth: AuthKind, has_account: bool) -> (r: AccountRow)
    ensures
        !enabled ==> r == AccountRow::Disabled,
        enabled && auth == AuthKind::Waiting ==> r == AccountRow::Waiting,
        enabled && auth == AuthKind::SignedIn && has_account ==> r == AccountRow::SignedIn,
        enabled && auth != AuthKind::Waiting && !(auth == AuthKind::SignedIn) && has_account ==> r
            == AccountRow::Expired,
        enabled && auth == AuthKind::SignedIn && !has_account ==> r == AccountRow::SignIn,
        enabled && auth == AuthKind::SignedOut && !has_account ==> r == AccountRow::SignIn,
{
    if !enabled {
        AccountRow::Disabled
    } else {
        match auth {
            AuthKind::Waiting => AccountRow::Waiting,
            AuthKind::SignedIn => if has_account {
                AccountRow::SignedIn
            } else {
                AccountRow::SignIn
            },
            AuthKind::SignedOut => if has_account {
                AccountRow::Expired
            } else {
                AccountRow::SignIn
            },
        }
    }
}

/// The line under the signed-in account's name.
pub fn account_handle(username: &str) -> (r: String)
    ensures
        r@ == "@"@ + username@ + " · Discord"@,
{
    let mut s = "@".to_string();
    s.append(username);
    s.append(" · Discord");
    s
}

pub open spec fn spec_choice_question(tasks: nat) -> Seq<char> {
    "Bu cihazda başka bir hesaba ait "@ + spec_decimal(tasks)
        + " görev var. Bu hesaba kopyalansın mı, yoksa bu cihazdan kaldırılsın mı? Kaldırılırlarsa diğer hesapta kalırlar."@
}

/// The question asked when the device's tasks belong to another account.
pub fn choice_question(tasks: usize) -> (r: String)
    ensures
        r@ == spec_choice_question(tasks as nat),
{
    let mut s = "Bu cihazda başka bir hesaba ait ".to_string();
    s.append(decimal(tasks as u64).as_str());
    s.append(
        " görev var. Bu hesaba kopyalansın mı, yoksa bu cihazdan kaldırılsın mı? Kaldırılırlarsa diğer hesapta kalırlar.",
    );
    s
}

pub open spec fn spec_sign_out_question(waiting: nat) -> Seq<char> {
    if waiting > 0 {
        spec_decimal(waiting)
            + " değişiklik henüz gönderilmedi; aynı hesapla tekrar girişte gönderilecek. Yine de çıkılsın mı?"@
    } else {
        "Tüm değişiklikler gönderildi. Çıkılsın mı?"@
    }
}

/// The question before signing out, with the number of changes not uploaded yet.
pub fn sign_out_question(waiting: usize) -> (r: String)
    ensures
        r@ == spec_sign_out_question(waiting as nat),
{
    if waiting > 0 {
        let mut s = decimal(waiting as u64);
        s.append(" değişiklik henüz gönderilmedi; aynı hesapla tekrar girişte gönderilecek. Yine de çıkılsın mı?");
        s
    } else {
        "Tüm değişiklikler gönderildi. Çıkılsın mı?".to_string()
    }
}

} // verus!
