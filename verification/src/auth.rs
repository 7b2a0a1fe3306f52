//! Discord sign-in: the PKCE verifier and challenge, and reading the browser's redirect back to
//! the loopback listener. Listening, answering the browser and keeping the refresh token on disk
//! are the host's work.

use vstd::prelude::*;
use vstd::string::StringExecFns;
use vstd::string::StrSliceExecFns;
use crate::model::{new_id, Id};
use crate::supabase::Error;
use crate::text::{chars_of, str_eq};
use base64::Engine;
use sha2::Digest;

verus! {

/// Must be listed under Supabase → Authentication → URL Configuration → Redirect URLs.
pub const REDIRECT: &'static str = "http://127.0.0.1:53117/callback";

/// The character for the six bits `v` in base64url.
pub open spec fn base64url_char(v: int) -> char {
    if v < 26 {
        ('A' as int + v) as char
    } else if v < 52 {
        ('a' as int + v - 26) as char
    } else if v < 62 {
        ('0' as int + v - 52) as char
    } else if v == 62 {
        '-'
    } else {
        '_'
    }
}

/// Base64 with the URL-safe alphabet and no padding (RFC 4648, section 5).
pub open spec fn base64url(d: Seq<u8>) -> Seq<char>
    decreases d.len(),
{
    if d.len() == 0 {
        seq![]
    } else if d.len() == 1 {
        let b0 = d[0] as int;
        seq![base64url_char(b0 / 4), base64url_char((b0 % 4) * 16)]
    } else if d.len() == 2 {
        let b0 = d[0] as int;
        let b1 = d[1] as int;
        seq![base64url_char(b0 / 4), base64url_char((b0 % 4) * 16 + b1 / 16), base64url_char((b1 % 16) * 4)]
    } else {
        let b0 = d[0] as int;
        let b1 = d[1] as int;
        let b2 = d[2] as int;
        seq![
            base64url_char(b0 / 4),
            base64url_char((b0 % 4) * 16 + b1 / 16),
            base64url_char((b1 % 16) * 4 + b2 / 64),
            base64url_char(b2 % 64),
        ] + base64url(d.subrange(3, d.len() as int))
    }
}

/// The SHA-256 digest of some bytes, as sha2 computes it.
pub uninterp spec fn spec_sha256(data: Seq<u8>) -> Seq<u8>;

/// sha2's `Sha256::digest`: the 32-byte SHA-256 digest.
#[verifier::external_body]
fn sha256(data: &[u8]) -> (r: Vec<u8>)
    ensures
        r@ == spec_sha256(data@),
        r@.len() == 32,
{
    sha2::Sha256::digest(data).to_vec()
}

/// base64's `URL_SAFE_NO_PAD.encode`: base64url without padding.
#[verifier::external_body]
fn encode_base64url(data: &[u8]) -> (r: String)
    ensures
        r@ == base64url(data@),
{
    base64::engine::general_purpose::URL_SAFE_NO_PAD.encode(data)
}

/// The S256 code challenge of a verifier: base64url(sha256(verifier)), without padding.
pub open spec fn spec_challenge(verifier: Seq<char>) -> Seq<char> {
    base64url(spec_sha256(vstd::utf8::encode_utf8(verifier)))
}

/// S256 code challenge: base64url(sha256(verifier)) without padding.
pub fn challenge(verifier: &str) -> (r: String)
    ensures
        r@ == spec_challenge(verifier@),
{
    let digest = sha256(verifier.as_bytes());
    encode_base64url(digest.as_slice())
}

/// Lowercase hexadecimal digit.
pub open spec fn hex_char(d: int) -> char {
    if d < 10 {
        ('0' as int + d) as char
    } else {
        ('a' as int + d - 10) as char
    }
}

/// The last `count` hexadecimal digits of `n`, zero-padded.
pub open spec fn hex_digits(n: nat, count: nat) -> Seq<char>
    decreases count,
{
    if count == 0 {
        seq![]
    } else {
        hex_digits(n / 16, (count - 1) as nat).push(hex_char((n % 16) as int))
    }
}

fn hex_str(d: u128) -> (r: &'static str)
    requires
        d < 16,
    ensures
        r@ == seq![hex_char(d as int)],
{
    proof {
        reveal_strlit("0");
        reveal_strlit("1");
        reveal_strlit("2");
        reveal_strlit("3");
        reveal_strlit("4");
        reveal_strlit("5");
        reveal_strlit("6");
        reveal_strlit("7");
        reveal_strlit("8");
        reveal_strlit("9");
        reveal_strlit("a");
        reveal_strlit("b");
        reveal_strlit("c");
        reveal_strlit("d");
        reveal_strlit("e");
        reveal_strlit("f");
    }
    match d {
        0 => "0",
        1 => "1",
        2 => "2",
        3 => "3",
        4 => "4",
        5 => "5",
        6 => "6",
        7 => "7",
        8 => "8",
        9 => "9",
        10 => "a",
        11 => "b",
        12 => "c",
        13 => "d",
        14 => "e",
        _ => "f",
    }
}

fn hex_of(n: u128, count: u32) -> (r: String)
    ensures
        r@ == hex_digits(n as nat, count as nat),
    decreases count,
{
    if count == 0 {
        String::new()
    } else {
        let mut s = hex_of(n / 16, count - 1);
        s.append(hex_str(n % 16));
        s
    }
}

/// A UUID as 32 lowercase hexadecimal digits (uuid's `simple` form).
pub fn simple_uuid(id: Id) -> (r: String)
    ensures
        r@ == hex_digits(id as nat, 32),
{
    hex_of(id, 32)
}

proof fn lemma_hex_len(n: nat, count: nat)
    ensures
        hex_digits(n, count).len() == count,
    decreases count,
{
    if count > 0 {
        lemma_hex_len(n / 16, (count - 1) as nat);
    }
}

/// A PKCE pair for one sign-in.
pub struct Pkce {
    pub verifier: String,
    pub challenge: String,
}

impl Pkce {
    /// A fresh pair. The verifier is two random v4 UUIDs in simple form: 64 hex characters with
    /// 244 random bits (RFC 7636 asks for 43 to 128).
    pub fn new() -> (r: Pkce)
        ensures
            exists|a: Id, b: Id| r.verifier@ == hex_digits(a as nat, 32) + hex_digits(b as nat, 32),
            r.verifier@.len() == 64,
            r.challenge@ == spec_challenge(r.verifier@),
    {
        let a = new_id();
        let b = new_id();
        let mut verifier = simple_uuid(a);
        let second = simple_uuid(b);
        verifier.append(second.as_str());
        proof {
            lemma_hex_len(a as nat, 32);
            lemma_hex_len(b as nat, 32);
        }
        let challenge = challenge(verifier.as_str());
        Pkce { verifier, challenge }
    }
}

/// The path and the decoded query pairs of a URL as url reads them (`None` where it does not
/// parse).
pub uninterp spec fn spec_url_parts(url: Seq<char>) -> Option<(Seq<char>, Seq<(Seq<char>, Seq<char>)>)>;

pub open spec fn owned_pairs(pairs: Seq<(String, String)>) -> Seq<(Seq<char>, Seq<char>)> {
    pairs.map_values(|p: (String, String)| (p.0@, p.1@))
}

/// url's `Url::parse`, then `path` and `query_pairs` (percent- and plus-decoded).
#[verifier::external_body]
fn url_parts(url: &str) -> (r: Option<(String, Vec<(String, String)>)>)
    ensures
        r matches Some(p) ==> spec_url_parts(url@) == Some((p.0@, owned_pairs(p.1@))),
        r is None ==> spec_url_parts(url@) is None,
{
    url::Url::parse(url).ok().map(
        |u| (u.path().to_string(), u.query_pairs().map(|(k, v)| (k.into_owned(), v.into_owned())).collect()),
    )
}

/// The value of the first pair named `key`.
pub open spec fn first_value(pairs: Seq<(Seq<char>, Seq<char>)>, key: Seq<char>) -> Option<Seq<char>>
    decreases pairs.len(),
{
    if pairs.len() == 0 {
        None
    } else if pairs[0].0 == key {
        Some(pairs[0].1)
    } else {
        first_value(pairs.drop_first(), key)
    }
}

fn find_value(pairs: &Vec<(String, String)>, key: &str) -> (r: Option<String>)
    ensures
        r matches Some(v) ==> first_value(owned_pairs(pairs@), key@) == Some(v@),
        r is None ==> first_value(owned_pairs(pairs@), key@) is None,
{
    let ghost all = owned_pairs(pairs@);
    let mut i: usize = 0;
    assert(all.subrange(0, all.len() as int) =~= all);
    while i < pairs.len()
        invariant
            i <= pairs.len(),
            all == owned_pairs(pairs@),
            first_value(all, key@) == first_value(all.subrange(i as int, all.len() as int), key@),
        decreases pairs.len() - i,
    {
        let ghost rest = all.subrange(i as int, all.len() as int);
        assert(rest.drop_first() =~= all.subrange(i as int + 1, all.len() as int));
        if str_eq(pairs[i].0.as_str(), key) {
            return Some(pairs[i].1.clone());
        }
        i += 1;
    }
    None
}

/// What comes before the first space (all of it when there is none).
pub open spec fn before_space(s: Seq<char>) -> Seq<char>
    decreases s.len(),
{
    if s.len() == 0 || s[0] == ' ' {
        seq![]
    } else {
        seq![s[0]] + before_space(s.drop_first())
    }
}

/// The request target of a `GET` request line.
pub open spec fn get_target(line: Seq<char>) -> Option<Seq<char>> {
    if line.len() >= 4 && line.subrange(0, 4) == "GET "@ {
        Some(before_space(line.subrange(4, line.len() as int)))
    } else {
        None
    }
}

/// Why the sign-in failed, as the redirect reports it.
pub open spec fn failure_reason(pairs: Seq<(Seq<char>, Seq<char>)>) -> Seq<char> {
    if first_value(pairs, "error_description"@) is Some {
        first_value(pairs, "error_description"@)->0
    } else if first_value(pairs, "error"@) is Some {
        first_value(pairs, "error"@)->0
    } else {
        "yanıtta kod yok"@
    }
}

/// What the redirect's request line says: `None` when it is not a `GET` of `/callback`, the code
/// when there is a non-empty one, else the reason the sign-in failed.
pub enum Callback {
    Code(Seq<char>),
    Failed(Seq<char>),
}

pub open spec fn spec_parse_callback(line: Seq<char>) -> Option<Callback> {
    match get_target(line) {
        None => None,
        Some(target) => match spec_url_parts("http://127.0.0.1"@ + target) {
            None => None,
            Some(parts) => if parts.0 != "/callback"@ {
                None
            } else if first_value(parts.1, "code"@) is Some && (first_value(parts.1, "code"@)->0).len() > 0 {
                Some(Callback::Code(first_value(parts.1, "code"@)->0))
            } else {
                Some(Callback::Failed("Discord girişi tamamlanamadı: "@ + failure_reason(parts.1)))
            },
        },
    }
}

/// The characters of `s` before the first space.
fn up_to_space(s: &str) -> (r: &str)
    ensures
        r@ == before_space(s@),
{
    let cs = chars_of(s);
    let mut i: usize = 0;
    assert(cs@.subrange(0, cs@.len() as int) =~= cs@);
    assert(cs@.subrange(0, 0) + before_space(cs@) =~= before_space(cs@));
    while i < cs.len() && cs[i] != ' '
        invariant
            i <= cs.len(),
            cs@ == s@,
            before_space(s@) == cs@.subrange(0, i as int) + before_space(cs@.subrange(i as int, cs@.len() as int)),
        decreases cs.len() - i,
    {
        let ghost rest = cs@.subrange(i as int, cs@.len() as int);
        assert(rest.drop_first() =~= cs@.subrange(i as int + 1, cs@.len() as int));
        assert(cs@.subrange(0, i as int + 1) =~= cs@.subrange(0, i as int) + seq![cs@[i as int]]);
        i += 1;
    }
    assert(cs@.subrange(0, 0) =~= Seq::<char>::empty());
    s.substring_char(0, i)
}

/// Reads the request line of the redirect (`GET /callback?code=… HTTP/1.1`). `None` for other
/// requests; the code, or why the sign-in failed.
pub fn parse_callback(request_line: &str) -> (r: Option<Result<String, Error>>)
    ensures
        match spec_parse_callback(request_line@) {
            None => r is None,
            Some(Callback::Code(code)) => (r matches Some(Ok(c)) && c@ == code),
            Some(Callback::Failed(m)) => (r matches Some(Err(Error::Local(e))) && e@ == m),
        },
{
    proof {
        reveal_strlit("GET ");
        reveal_strlit("http://127.0.0.1");
    }
    let n = request_line.unicode_len();
    if n < 4 || !str_eq(request_line.substring_char(0, 4), "GET ") {
        return None;
    }
    let target = up_to_space(request_line.substring_char(4, n));
    let mut url = "http://127.0.0.1".to_string();
    url.append(target);
    let (path, pairs) = match url_parts(url.as_str()) {
        None => return None,
        Some(p) => p,
    };
    if !str_eq(path.as_str(), "/callback") {
        return None;
    }
    if let Some(code) = find_value(&pairs, "code") {
        if !code.as_str().is_empty() {
            return Some(Ok(code));
        }
    }
    let reason = match find_value(&pairs, "error_description") {
        Some(v) => v,
        None => match find_value(&pairs, "error") {
            Some(v) => v,
            None => "yanıtta kod yok".to_string(),
        },
    };
    let mut message = "Discord girişi tamamlanamadı: ".to_string();
    message.append(reason.as_str());
    Some(Err(Error::Local(message)))
}

/// The port the loopback listener takes.
pub const PORT: u16 = 53117;

/// The browser's page after the redirect: the status line and the message shown.
pub open spec fn reply_parts(result: Option<Result<String, Error>>) -> (Seq<char>, Seq<char>) {
    match result {
        Some(Ok(_)) => ("200 OK"@, "Giriş tamamlandı. Bu sekmeyi kapatıp Odak'a dönebilirsin."@),
        Some(Err(_)) => ("200 OK"@, "Giriş tamamlanamadı. Ayrıntı Odak'ta."@),
        None => ("404 Not Found"@, "Bulunamadı"@),
    }
}

pub open spec fn reply_body(message: Seq<char>) -> Seq<char> {
    "<!doctype html><meta charset=utf-8><title>Odak</title><body style=\"margin:0;height:100vh;display:grid;place-items:center;background:#15161a;color:#e8e8ec;font:16px system-ui,sans-serif\"><p>"@
        + message + "</p>"@
}

/// The HTTP reply to the browser's request, for what `parse_callback` made of it.
pub fn callback_reply(result: &Option<Result<String, Error>>) -> (r: String)
    ensures
        r@ == "HTTP/1.1 "@ + reply_parts(*result).0
            + "\r\nContent-Type: text/html; charset=utf-8\r\nContent-Length: "@
            + crate::text::spec_decimal(crate::edit::bytes(reply_body(reply_parts(*result).1)))
            + "\r\nConnection: close\r\n\r\n"@ + reply_body(reply_parts(*result).1),
{
    let (status, message) = match result {
        Some(Ok(_)) => ("200 OK", "Giriş tamamlandı. Bu sekmeyi kapatıp Odak'a dönebilirsin."),
        Some(Err(_)) => ("200 OK", "Giriş tamamlanamadı. Ayrıntı Odak'ta."),
        None => ("404 Not Found", "Bulunamadı"),
    };
    let mut body = "<!doctype html><meta charset=utf-8><title>Odak</title><body style=\"margin:0;height:100vh;display:grid;place-items:center;background:#15161a;color:#e8e8ec;font:16px system-ui,sans-serif\"><p>".to_string();
    body.append(message);
    body.append("</p>");
    let length = crate::edit::byte_len(body.as_str());
    let mut reply = "HTTP/1.1 ".to_string();
    reply.append(status);
    reply.append("\r\nContent-Type: text/html; charset=utf-8\r\nContent-Length: ");
    reply.append(crate::text::decimal(length as u64).as_str());
    reply.append("\r\nConnection: close\r\n\r\n");
    reply.append(body.as_str());
    reply
}

/// What waiting for the browser does next.
#[derive(Debug, PartialEq, Eq)]
pub enum Waiting {
    /// Keep waiting (accept the next request, or sleep a moment).
    Wait,
    /// Stop with this result.
    Stop(Result<String, Error>),
}

/// One round of waiting: a cancel ends it, then the five-minute limit; a request that was
/// the callback ends it with its result; a failed accept (other than "nothing yet") ends it.
pub fn wait_round(cancelled: bool, timed_out: bool, request: Option<Option<Result<String, Error>>>, accept_error: Option<&str>) -> (r: Waiting)
    ensures
        cancelled ==> r == Waiting::Stop(Err(Error::Cancelled)),
        !cancelled && timed_out ==> (r matches Waiting::Stop(Err(Error::Local(m))) && m@
            == "Giriş beş dakika içinde tamamlanmadı."@),
        !cancelled && !timed_out ==> match request {
            Some(Some(res)) => r == Waiting::Stop(res),
            _ => match accept_error {
                Some(e) => r matches Waiting::Stop(Err(Error::Local(m))) && m@ == "Giriş dönüşü alınamadı: "@ + e@,
                None => r == Waiting::Wait,
            },
        },
{
    if cancelled {
        return Waiting::Stop(Err(Error::Cancelled));
    }
    if timed_out {
        return Waiting::Stop(Err(Error::Local("Giriş beş dakika içinde tamamlanmadı.".to_string())));
    }
    match request {
        Some(Some(res)) => Waiting::Stop(res),
        _ => match accept_error {
            Some(e) => {
                let mut m = "Giriş dönüşü alınamadı: ".to_string();
                m.append(e);
                Waiting::Stop(Err(Error::Local(m)))
            },
            None => Waiting::Wait,
        },
    }
}

/// The error when the loopback port cannot be opened.
pub fn port_error(reason: &str) -> (r: Error)
    ensures
        r matches Error::Local(m) && m@ == "Giriş için 53117 numaralı port açılamadı ("@ + reason@
            + "). Başka bir uygulama kullanıyor olabilir."@,
{
    let mut m = "Giriş için 53117 numaralı port açılamadı (".to_string();
    m.append(reason);
    m.append("). Başka bir uygulama kullanıyor olabilir.");
    Error::Local(m)
}

} // verus!
