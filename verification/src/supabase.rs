//! The Supabase side of the app that does not touch the network: the errors a request ends
//! with, the session and when it needs a refresh, and the addresses the client talks to. The
//! project address and key are the host's build settings, handed in as arguments.

use vstd::prelude::*;
use vstd::string::StringExecFns;
use vstd::string::StrSliceExecFns;
use crate::model::{Id, Millis};
use crate::text::{chars_of, decimal, spec_decimal};

verus! {

/// How a request failed.
#[derive(Debug, PartialEq, Eq)]
pub enum Error {
    /// No answer: offline, DNS, TLS or timeout.
    Network(String),
    /// The server answered with an error status.
    Status(u16, String),
    /// A local problem (busy port, unexpected reply, file access).
    Local(String),
    /// The user cancelled.
    Cancelled,
}

impl Error {
    pub open spec fn spec_is_auth_rejected(&self) -> bool {
        match self {
            Error::Status(code, _) => code == 400 || code == 401 || code == 403,
            _ => false,
        }
    }

    /// The server no longer accepts the session (bad or revoked refresh token): status 400,
    /// 401 or 403.
    pub fn is_auth_rejected(&self) -> (r: bool)
        ensures
            r == self.spec_is_auth_rejected(),
    {
        match self {
            Error::Status(code, _) => *code == 400 || *code == 401 || *code == 403,
            _ => false,
        }
    }

    pub open spec fn spec_is_temporary(&self) -> bool {
        match self {
            Error::Network(_) => true,
            Error::Status(code, _) => code == 401 || code == 408 || code == 429 || code >= 500,
            _ => false,
        }
    }

    /// Worth trying again later: no connection, an expired token, rate limiting or a server fault.
    /// Anything else (403, 404, 409, 400) will fail the same way again.
    pub fn is_temporary(&self) -> (r: bool)
        ensures
            r == self.spec_is_temporary(),
    {
        match self {
            Error::Network(_) => true,
            Error::Status(code, _) => *code == 401 || *code == 408 || *code == 429 || *code >= 500,
            _ => false,
        }
    }

    pub open spec fn spec_message(&self) -> Seq<char> {
        match self {
            Error::Network(e) => "Sunucuya ulaşılamadı ("@ + e@ + ")"@,
            Error::Status(code, message) => "Sunucu hatası "@ + spec_decimal(*code as nat) + ": "@ + message@,
            Error::Local(message) => message@,
            Error::Cancelled => "İptal edildi"@,
        }
    }

    /// The error as the user reads it.
    pub fn message(&self) -> (r: String)
        ensures
            r@ == self.spec_message(),
    {
        match self {
            Error::Network(e) => {
                let mut s = "Sunucuya ulaşılamadı (".to_string();
                s.append(e.as_str());
                s.append(")");
                s
            },
            Error::Status(code, message) => {
                let mut s = "Sunucu hatası ".to_string();
                let digits = decimal(*code as u64);
                s.append(digits.as_str());
                s.append(": ");
                s.append(message.as_str());
                s
            },
            Error::Local(message) => message.clone(),
            Error::Cancelled => "İptal edildi".to_string(),
        }
    }
}

/// A signed-in session. The access token is short-lived; the refresh token rotates on every use.
#[derive(Debug, PartialEq, Eq)]
pub struct Session {
    pub access_token: String,
    pub refresh_token: String,
    pub expires_at: Millis,
    pub user_id: Id,
}

impl Clone for Session {
    fn clone(&self) -> (r: Self)
        ensures
            r.access_token@ == self.access_token@,
            r.refresh_token@ == self.refresh_token@,
            r.expires_at == self.expires_at,
            r.user_id == self.user_id,
    {
        Session {
            access_token: self.access_token.clone(),
            refresh_token: self.refresh_token.clone(),
            expires_at: self.expires_at,
            user_id: self.user_id,
        }
    }
}

/// An access token with less than this many milliseconds left is refreshed first.
pub const REFRESH_MARGIN: i64 = 60_000;

impl Session {
    /// A session restored from disk: only the refresh token is known, so it must be refreshed
    /// first (no access token, expired at the epoch).
    pub fn stale(user_id: Id, refresh_token: String) -> (r: Session)
        ensures
            r.access_token@ == Seq::<char>::empty(),
            r.refresh_token@ == refresh_token@,
            r.expires_at == 0,
            r.user_id == user_id,
    {
        Session { access_token: String::new(), refresh_token, expires_at: 0, user_id }
    }

    pub open spec fn spec_needs_refresh(&self, now: Millis) -> bool {
        self.expires_at - now < REFRESH_MARGIN
    }

    /// The access token is missing or has less than a minute left.
    pub fn needs_refresh(&self, now: Millis) -> (r: bool)
        ensures
            r == self.spec_needs_refresh(now),
    {
        (self.expires_at as i128) - (now as i128) < REFRESH_MARGIN as i128
    }
}

/// The build has both the project address and its key: account features are on.
pub fn enabled(url: Option<&str>, key: Option<&str>) -> (r: bool)
    ensures
        r == (url is Some && key is Some),
{
    url.is_some() && key.is_some()
}

pub open spec fn or_empty(s: Option<&str>) -> Seq<char> {
    match s {
        Some(x) => x@,
        None => Seq::empty(),
    }
}

/// The address of `path` on the project (`path` after the project address; after nothing when
/// there is none).
pub fn endpoint(url: Option<&str>, path: &str) -> (r: String)
    ensures
        r@ == or_empty(url) + path@,
{
    let mut s = match url {
        Some(u) => u.to_string(),
        None => String::new(),
    };
    s.append(path);
    s
}

/// `s` without every leading repetition of `prefix` (what `str::trim_start_matches` leaves).
pub open spec fn trim_start_all(s: Seq<char>, prefix: Seq<char>) -> Seq<char>
    decreases s.len(),
{
    if prefix.len() > 0 && prefix.len() <= s.len() && s.subrange(0, prefix.len() as int) == prefix {
        trim_start_all(s.subrange(prefix.len() as int, s.len() as int), prefix)
    } else {
        s
    }
}

/// The characters of `s` from `i` on, without every leading repetition of "https://".
fn trim_https(s: &str) -> (r: String)
    ensures
        r@ == trim_start_all(s@, "https://"@),
{
    proof {
        reveal_strlit("https://");
    }
    let cs = chars_of(s);
    let n = cs.len();
    let mut i: usize = 0;
    assert("https://"@ =~= seq!['h', 't', 't', 'p', 's', ':', '/', '/']);
    assert(cs@.subrange(0, n as int) =~= cs@);
    while n - i >= 8 && cs[i] == 'h' && cs[i + 1] == 't' && cs[i + 2] == 't' && cs[i + 3] == 'p'
        && cs[i + 4] == 's' && cs[i + 5] == ':' && cs[i + 6] == '/' && cs[i + 7] == '/'
        invariant
            i <= n,
            n == cs@.len(),
            cs@ == s@,
            "https://"@ == seq!['h', 't', 't', 'p', 's', ':', '/', '/'],
            trim_start_all(s@, "https://"@) == trim_start_all(cs@.subrange(i as int, n as int), "https://"@),
        decreases n - i,
    {
        let ghost rest = cs@.subrange(i as int, n as int);
        assert(rest.subrange(0, 8) =~= "https://"@);
        assert(rest.subrange(8, rest.len() as int) =~= cs@.subrange(i as int + 8, n as int));
        i += 8;
    }
    let ghost rest = cs@.subrange(i as int, n as int);
    assert(trim_start_all(rest, "https://"@) == rest) by {
        if 8 <= rest.len() && rest.subrange(0, 8) == "https://"@ {
            assert(rest.subrange(0, 8)[0] == cs@[i as int]);
            assert(rest.subrange(0, 8)[1] == cs@[i as int + 1]);
            assert(rest.subrange(0, 8)[2] == cs@[i as int + 2]);
            assert(rest.subrange(0, 8)[3] == cs@[i as int + 3]);
            assert(rest.subrange(0, 8)[4] == cs@[i as int + 4]);
            assert(rest.subrange(0, 8)[5] == cs@[i as int + 5]);
            assert(rest.subrange(0, 8)[6] == cs@[i as int + 6]);
            assert(rest.subrange(0, 8)[7] == cs@[i as int + 7]);
        }
    }
    s.substring_char(i, n).to_string()
}

/// The Realtime websocket address (protocol 1.0.0: JSON messages).
pub open spec fn spec_realtime_url(url: Option<&str>, key: Option<&str>) -> Seq<char> {
    "wss://"@ + trim_start_all(or_empty(url), "https://"@) + "/realtime/v1/websocket?apikey="@ + or_empty(key)
        + "&vsn=1.0.0"@
}

/// Realtime websocket address (protocol 1.0.0: JSON messages).
pub fn realtime_url(url: Option<&str>, key: Option<&str>) -> (r: String)
    ensures
        r@ == spec_realtime_url(url, key),
{
    let host = match url {
        Some(u) => trim_https(u),
        None => {
            proof {
                reveal_strlit("https://");
            }
            String::new()
        },
    };
    let mut s = "wss://".to_string();
    s.append(host.as_str());
    s.append("/realtime/v1/websocket?apikey=");
    match key {
        Some(k) => s.append(k),
        None => {},
    }
    s.append("&vsn=1.0.0");
    s
}

/// The URL that url's `Url::parse_with_params` makes of an address and query pairs
/// (`None` where the address does not parse).
pub uninterp spec fn spec_url_with_params(base: Seq<char>, params: Seq<(Seq<char>, Seq<char>)>) -> Option<Seq<char>>;

pub open spec fn pair_views(params: Seq<(&str, &str)>) -> Seq<(Seq<char>, Seq<char>)> {
    params.map_values(|p: (&str, &str)| (p.0@, p.1@))
}

/// url's `Url::parse_with_params`, serialized: the address with the pairs appended to its query
/// (form-encoded).
#[verifier::external_body]
fn url_with_params(base: &str, params: &Vec<(&str, &str)>) -> (r: Option<String>)
    ensures
        r matches Some(s) ==> spec_url_with_params(base@, pair_views(params@)) == Some(s@),
        r is None ==> spec_url_with_params(base@, pair_views(params@)) is None,
{
    url::Url::parse_with_params(base, params.iter()).ok().map(String::from)
}

/// The sign-in query pairs: Discord, the redirect, and the PKCE challenge.
pub open spec fn authorize_params(challenge: Seq<char>, redirect: Seq<char>) -> Seq<(Seq<char>, Seq<char>)> {
    seq![
        ("provider"@, "discord"@),
        ("redirect_to"@, redirect),
        ("code_challenge"@, challenge),
        ("code_challenge_method"@, "s256"@),
    ]
}

/// Browser address that starts Discord sign-in and comes back to `redirect` with `?code=`
/// (empty when the project address does not parse).
pub fn authorize_url(url: Option<&str>, challenge: &str, redirect: &str) -> (r: String)
    ensures
        r@ == match spec_url_with_params(or_empty(url) + "/auth/v1/authorize"@, authorize_params(challenge@, redirect@)) {
            Some(s) => s,
            None => Seq::empty(),
        },
{
    let base = endpoint(url, "/auth/v1/authorize");
    let params: Vec<(&str, &str)> = vec![
        ("provider", "discord"),
        ("redirect_to", redirect),
        ("code_challenge", challenge),
        ("code_challenge_method", "s256"),
    ];
    assert(pair_views(params@) =~= authorize_params(challenge@, redirect@));
    match url_with_params(base.as_str(), &params) {
        Some(s) => s,
        None => String::new(),
    }
}

/// The string that serde_json finds under `key` in a JSON object text (`None` when the text is
/// not JSON, is not an object, lacks the key or holds something else there).
pub uninterp spec fn spec_json_str_field(text: Seq<char>, key: Seq<char>) -> Option<Seq<char>>;

/// serde_json's `from_str` into a `Value`, then `Value::get(key)` and `as_str`.
#[verifier::external_body]
fn json_str_field(text: &str, key: &str) -> (r: Option<String>)
    ensures
        r matches Some(s) ==> spec_json_str_field(text@, key@) == Some(s@),
        r is None ==> spec_json_str_field(text@, key@) is None,
{
    let value: serde_json::Value = serde_json::from_str(text).unwrap_or_default();
    value.get(key).and_then(serde_json::Value::as_str).map(str::to_owned)
}

/// The human-readable part of an Auth or PostgREST error body: the first of "msg", "message",
/// "error_description" and "error" that holds a string, else the body's first 200 characters.
pub open spec fn spec_error_message(body: Seq<char>) -> Seq<char> {
    if spec_json_str_field(body, "msg"@) is Some {
        spec_json_str_field(body, "msg"@)->0
    } else if spec_json_str_field(body, "message"@) is Some {
        spec_json_str_field(body, "message"@)->0
    } else if spec_json_str_field(body, "error_description"@) is Some {
        spec_json_str_field(body, "error_description"@)->0
    } else if spec_json_str_field(body, "error"@) is Some {
        spec_json_str_field(body, "error"@)->0
    } else {
        body.take(if body.len() < 200 { body.len() as int } else { 200 })
    }
}

/// The human-readable part of an Auth or PostgREST error body.
pub fn error_message(body: &str) -> (r: String)
    ensures
        r@ == spec_error_message(body@),
{
    if let Some(m) = json_str_field(body, "msg") {
        return m;
    }
    if let Some(m) = json_str_field(body, "message") {
        return m;
    }
    if let Some(m) = json_str_field(body, "error_description") {
        return m;
    }
    if let Some(m) = json_str_field(body, "error") {
        return m;
    }
    let n = body.unicode_len();
    let end = if n < 200 {
        n
    } else {
        200
    };
    let r = body.substring_char(0, end).to_string();
    assert(r@ =~= body@.take(end as int));
    r
}

} // verus!
