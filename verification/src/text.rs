//! String helpers of std that the views and the task document lean on.

use vstd::prelude::*;
use vstd::string::StringExecFns;
use vstd::string::StrSliceExecFns;
use vstd::std_specs::iter::IteratorSpec;

verus! {

/// `needle` occurs as a contiguous run of characters in `hay`.
pub open spec fn has_substring(hay: Seq<char>, needle: Seq<char>) -> bool {
    exists|i: int|
        0 <= i && i + needle.len() <= hay.len() && #[trigger] hay.subrange(i, i + needle.len()) == needle
}

/// `part` is a contiguous run of `whole`.
pub open spec fn is_part_of(part: Seq<char>, whole: Seq<char>) -> bool {
    exists|i: int| 0 <= i && i + part.len() <= whole.len() && #[trigger] whole.subrange(i, i + part.len()) == part
}

/// A character with Unicode's White_Space property, which `char::is_whitespace` tests and
/// `str::trim` removes: U+0009 to U+000D, U+0020, U+0085, U+00A0, U+1680, U+2000 to U+200A,
/// U+2028, U+2029, U+202F, U+205F and U+3000.
pub open spec fn is_white_space(c: char) -> bool {
    let v = c as u32;
    ||| 9 <= v <= 13
    ||| v == 32
    ||| v == 0x85
    ||| v == 0xA0
    ||| v == 0x1680
    ||| 0x2000 <= v <= 0x200A
    ||| v == 0x2028
    ||| v == 0x2029
    ||| v == 0x202F
    ||| v == 0x205F
    ||| v == 0x3000
}

/// `s` without its leading whitespace.
pub open spec fn spec_trim_start(s: Seq<char>) -> Seq<char>
    decreases s.len(),
{
    if s.len() > 0 && is_white_space(s[0]) {
        spec_trim_start(s.drop_first())
    } else {
        s
    }
}

/// What `str::trim` leaves of a string: leading and trailing whitespace removed.
pub open spec fn spec_trim(s: Seq<char>) -> Seq<char> {
    spec_trim_start(spec_trim_end(s))
}

/// What `str::to_lowercase` makes of a string (Unicode lowercase mapping).
pub uninterp spec fn spec_lowercase(s: Seq<char>) -> Seq<char>;

/// Whether the pattern occurs in the text (as `str::contains` with a string pattern).
pub(crate) fn str_contains(hay: &str, needle: &str) -> (r: bool)
    ensures
        r == has_substring(hay@, needle@),
{
    let h = chars_of(hay);
    let n = chars_of(needle);
    if n.len() > h.len() {
        return false;
    }
    let mut i: usize = 0;
    while i <= h.len() - n.len()
        invariant
            h@ == hay@,
            n@ == needle@,
            n.len() <= h.len(),
            i <= h.len() - n.len() + 1,
            forall|k: int| 0 <= k < i ==> #[trigger] hay@.subrange(k, k + needle@.len()) != needle@,
        decreases h.len() - i,
    {
        let mut j: usize = 0;
        while j < n.len() && h[i + j] == n[j]
            invariant
                h@ == hay@,
                n@ == needle@,
                i + n.len() <= h.len(),
                j <= n.len(),
                forall|m: int| 0 <= m < j ==> h@[i + m] == n@[m],
            decreases n.len() - j,
        {
            j += 1;
        }
        if j == n.len() {
            assert(hay@.subrange(i as int, i + needle@.len()) =~= needle@);
            return true;
        }
        assert(hay@.subrange(i as int, i + needle@.len())[j as int] != needle@[j as int]);
        i += 1;
    }
    assert forall|k: int| 0 <= k && k + needle@.len() <= hay@.len() implies #[trigger] hay@.subrange(k, k + needle@.len()) != needle@ by {
        assert(k < i);
    }
    false
}

/// `is_white_space` of a character.
pub(crate) fn white(c: char) -> (r: bool)
    ensures
        r == is_white_space(c),
{
    let v = c as u32;
    (9 <= v && v <= 13) || v == 32 || v == 0x85 || v == 0xA0 || v == 0x1680 || (0x2000 <= v && v <= 0x200A)
        || v == 0x2028 || v == 0x2029 || v == 0x202F || v == 0x205F || v == 0x3000
}

/// The text without leading and trailing whitespace (as `str::trim`), a contiguous part of it.
pub(crate) fn trim(s: &str) -> (r: &str)
    ensures
        r@ == spec_trim(s@),
        is_part_of(r@, s@),
{
    let cs = chars_of(s);
    let e = trim_end_len(&cs);
    let ghost t = s@.subrange(0, e as int);
    assert(spec_trim_end(s@) == t);
    assert(t.subrange(0, e as int) =~= t);
    let mut k: usize = 0;
    while k < e && white(cs[k])
        invariant
            cs@ == s@,
            e <= cs.len(),
            t == s@.subrange(0, e as int),
            k <= e,
            spec_trim_start(t) == spec_trim_start(t.subrange(k as int, e as int)),
        decreases e - k,
    {
        let ghost rest = t.subrange(k as int, e as int);
        assert(rest.drop_first() =~= t.subrange(k + 1, e as int));
        assert(rest[0] == cs@[k as int]);
        k += 1;
    }
    let ghost rest = t.subrange(k as int, e as int);
    assert(spec_trim_start(rest) == rest) by {
        if rest.len() > 0 {
            assert(rest[0] == cs@[k as int]);
        }
    }
    let r = s.substring_char(k, e);
    assert(r@ =~= rest);
    assert(s@.subrange(k as int, k + r@.len()) =~= r@);
    r
}

/// The length of `cs` without its trailing whitespace.
fn trim_end_len(cs: &Vec<char>) -> (n: usize)
    ensures
        n <= cs.len(),
        spec_trim_end(cs@) == cs@.subrange(0, n as int),
{
    let mut n = cs.len();
    assert(cs@.subrange(0, n as int) =~= cs@);
    while n > 0 && white(cs[n - 1])
        invariant
            n <= cs.len(),
            spec_trim_end(cs@) == spec_trim_end(cs@.subrange(0, n as int)),
        decreases n,
    {
        let ghost p = cs@.subrange(0, n as int);
        assert(p.drop_last() =~= cs@.subrange(0, n - 1));
        assert(p.last() == cs@[n - 1]);
        n -= 1;
    }
    let ghost p = cs@.subrange(0, n as int);
    if n > 0 {
        assert(p.last() == cs@[n - 1]);
    }
    n
}

/// What `str::trim_end` leaves of a string: trailing whitespace removed.
pub open spec fn spec_trim_end(s: Seq<char>) -> Seq<char>
    decreases s.len(),
{
    if s.len() > 0 && is_white_space(s.last()) {
        spec_trim_end(s.drop_last())
    } else {
        s
    }
}

/// The text without trailing whitespace (as `str::trim_end`), a start of it.
pub(crate) fn trim_end(s: &str) -> (r: &str)
    ensures
        r@ == spec_trim_end(s@),
        r@.len() <= s@.len(),
        r@ == s@.subrange(0, r@.len() as int),
{
    let cs = chars_of(s);
    let n = trim_end_len(&cs);
    let r = s.substring_char(0, n);
    r
}

/// `s` with every occurrence of `from` replaced by `to`, scanning left to right without overlaps.
pub open spec fn spec_replace(s: Seq<char>, from: Seq<char>, to: Seq<char>) -> Seq<char>
    decreases s.len(),
{
    if from.len() == 0 || s.len() < from.len() {
        s
    } else if s.subrange(0, from.len() as int) == from {
        to + spec_replace(s.subrange(from.len() as int, s.len() as int), from, to)
    } else {
        seq![s[0]] + spec_replace(s.drop_first(), from, to)
    }
}

/// `pattern` occurs in `cs` at `i`.
fn occurs_at(cs: &Vec<char>, pattern: &Vec<char>, i: usize) -> (r: bool)
    requires
        i <= cs.len(),
    ensures
        r == (pattern.len() <= cs.len() - i && cs@.subrange(i as int, i + pattern.len()) == pattern@),
{
    if pattern.len() > cs.len() - i {
        return false;
    }
    let mut j: usize = 0;
    while j < pattern.len()
        invariant
            i + pattern.len() <= cs.len(),
            j <= pattern.len(),
            forall|m: int| 0 <= m < j ==> cs@[i + m] == pattern@[m],
        decreases pattern.len() - j,
    {
        if cs[i + j] != pattern[j] {
            assert(cs@.subrange(i as int, i + pattern.len())[j as int] != pattern@[j as int]);
            return false;
        }
        j += 1;
    }
    assert(cs@.subrange(i as int, i + pattern.len()) =~= pattern@);
    true
}

/// `s` with every occurrence of a non-empty `from` replaced by `to`, left to right (as
/// `str::replace`).
pub(crate) fn replace(s: &str, from: &str, to: &str) -> (r: String)
    requires
        from@.len() > 0,
    ensures
        r@ == spec_replace(s@, from@, to@),
{
    let cs = chars_of(s);
    let fs = chars_of(from);
    let mut out = String::new();
    let mut i: usize = 0;
    assert(s@.subrange(0, s@.len() as int) =~= s@);
    while i < cs.len()
        invariant
            cs@ == s@,
            fs@ == from@,
            from@.len() > 0,
            i <= cs.len(),
            out@ + spec_replace(s@.subrange(i as int, s@.len() as int), from@, to@) == spec_replace(s@, from@, to@),
        decreases cs.len() - i,
    {
        let ghost rest = s@.subrange(i as int, s@.len() as int);
        if occurs_at(&cs, &fs, i) {
            assert(rest.subrange(0, from@.len() as int) =~= s@.subrange(i as int, i + from@.len()));
            assert(rest.subrange(from@.len() as int, rest.len() as int) =~= s@.subrange(i + from@.len(), s@.len() as int));
            let ghost before = out@;
            out.append(to);
            assert(out@ + spec_replace(s@.subrange(i + from@.len(), s@.len() as int), from@, to@) =~= before + (to@
                + spec_replace(s@.subrange(i + from@.len(), s@.len() as int), from@, to@)));
            i = i + fs.len();
        } else {
            assert(rest.drop_first() =~= s@.subrange(i + 1, s@.len() as int));
            let piece = s.substring_char(i, i + 1);
            assert(piece@ =~= seq![rest[0]]);
            proof {
                if rest.len() < from@.len() {
                    assert(spec_replace(rest, from@, to@) == rest);
                    assert(spec_replace(rest.drop_first(), from@, to@) == rest.drop_first());
                    assert(rest =~= seq![rest[0]] + rest.drop_first());
                } else {
                    assert(rest.subrange(0, from@.len() as int) =~= s@.subrange(i as int, i + from@.len()));
                }
            }
            let ghost before = out@;
            out.append(piece);
            assert(out@ + spec_replace(rest.drop_first(), from@, to@) =~= before + (seq![rest[0]] + spec_replace(
                rest.drop_first(),
                from@,
                to@,
            )));
            i = i + 1;
        }
    }
    assert(s@.subrange(i as int, s@.len() as int) =~= Seq::<char>::empty());
    assert(out@ + Seq::<char>::empty() =~= out@);
    out
}

/// `str::to_lowercase`: the Unicode lowercase mapping (the empty string stays empty).
#[verifier::external_body]
pub(crate) fn to_lowercase(s: &str) -> (r: String)
    ensures
        r@ == spec_lowercase(s@),
        s@.len() == 0 ==> r@.len() == 0,
{
    s.to_lowercase()
}

pub fn owned(s: &str) -> (r: String)
    ensures
        r@ == s@,
{
    s.to_owned()
}

} // verus!

verus! {

/// The character of a decimal digit.
pub open spec fn digit_char(d: int) -> char {
    ('0' as int + d) as char
}

/// Decimal digits of a natural number, no leading zeros ("0" for zero).
pub open spec fn spec_decimal(n: nat) -> Seq<char>
    decreases n,
{
    if n < 10 {
        seq![digit_char(n as int)]
    } else {
        spec_decimal(n / 10).push(digit_char((n % 10) as int))
    }
}

/// The digit `d` as a one-character string.
pub fn digit_str(d: u64) -> (r: &'static str)
    requires
        d < 10,
    ensures
        r@ == seq![digit_char(d as int)],
{
    proof {
        reveal_strlit("0");
        reveal_strlit("1");
        reveal_strlit("2");
        reveal_strlit("3");
        reveal_strlit("4");
        reveal_strlit("5");
        reveal_strlit("6");
        reveal_strlit("7");
        reveal_strlit("8");
        reveal_strlit("9");
    }
    match d {
        0 => "0",
        1 => "1",
        2 => "2",
        3 => "3",
        4 => "4",
        5 => "5",
        6 => "6",
        7 => "7",
        8 => "8",
        _ => "9",
    }
}

/// Writes `n` in decimal.
pub fn decimal(n: u64) -> (r: String)
    ensures
        r@ == spec_decimal(n as nat),
    decreases n,
{
    if n < 10 {
        digit_str(n).to_string()
    } else {
        let mut s = decimal(n / 10);
        s.append(digit_str(n % 10));
        s
    }
}

} // verus!

verus! {

/// The characters of a string.
pub fn chars_of(s: &str) -> (r: Vec<char>)
    ensures
        r@ == s@,
{
    let mut it = s.chars();
    let mut out: Vec<char> = Vec::new();
    loop
        invariant
            out@ + it.remaining() == s@,
            it.decrease() is Some,
        ensures
            out@ == s@,
        decreases it.decrease()->0,
    {
        match it.next() {
            Some(c) => {
                out.push(c);
            },
            None => {
                break;
            },
        }
    }
    out
}

} // verus!

verus! {

/// Lexicographic order of strings by character (code point): the order of Rust's `str`, whose
/// UTF-8 bytes compare the same way.
pub open spec fn lex_lt(a: Seq<char>, b: Seq<char>) -> bool
    decreases a.len(),
{
    if a.len() == 0 {
        b.len() > 0
    } else if b.len() == 0 {
        false
    } else if a[0] != b[0] {
        (a[0] as int) < (b[0] as int)
    } else {
        lex_lt(a.drop_first(), b.drop_first())
    }
}

pub proof fn lemma_lex_irreflexive(a: Seq<char>)
    ensures
        !lex_lt(a, a),
    decreases a.len(),
{
    if a.len() > 0 {
        lemma_lex_irreflexive(a.drop_first());
    }
}

pub proof fn lemma_lex_total(a: Seq<char>, b: Seq<char>)
    ensures
        a != b ==> lex_lt(a, b) || lex_lt(b, a),
        lex_lt(a, b) ==> !lex_lt(b, a),
    decreases a.len(),
{
    if a.len() > 0 && b.len() > 0 {
        lemma_lex_total(a.drop_first(), b.drop_first());
        if a[0] == b[0] && a.drop_first() == b.drop_first() {
            assert(a =~= seq![a[0]] + a.drop_first());
            assert(b =~= seq![b[0]] + b.drop_first());
        }
    } else if a.len() == 0 && b.len() == 0 {
        assert(a =~= b);
    }
}

pub proof fn lemma_lex_transitive(a: Seq<char>, b: Seq<char>, c: Seq<char>)
    requires
        lex_lt(a, b),
        lex_lt(b, c),
    ensures
        lex_lt(a, c),
    decreases a.len(),
{
    if a.len() > 0 && b.len() > 0 && c.len() > 0 {
        if a[0] == b[0] && b[0] == c[0] {
            lemma_lex_transitive(a.drop_first(), b.drop_first(), c.drop_first());
        }
    }
}

/// `a` comes before `b` in Rust's string order.
pub fn str_lt(a: &str, b: &str) -> (r: bool)
    ensures
        r == lex_lt(a@, b@),
{
    let x = chars_of(a);
    let y = chars_of(b);
    let mut i: usize = 0;
    assert(x@.subrange(0, x@.len() as int) =~= x@);
    assert(y@.subrange(0, y@.len() as int) =~= y@);
    while i < x.len() && i < y.len() && x[i] == y[i]
        invariant
            i <= x.len(),
            i <= y.len(),
            lex_lt(a@, b@) == lex_lt(x@.subrange(i as int, x@.len() as int), y@.subrange(i as int, y@.len() as int)),
        decreases x.len() - i,
    {
        let ghost xs = x@.subrange(i as int, x@.len() as int);
        let ghost ys = y@.subrange(i as int, y@.len() as int);
        assert(xs.drop_first() =~= x@.subrange(i as int + 1, x@.len() as int));
        assert(ys.drop_first() =~= y@.subrange(i as int + 1, y@.len() as int));
        i += 1;
    }
    if i == x.len() {
        i < y.len()
    } else if i == y.len() {
        false
    } else {
        x[i] < y[i]
    }
}

} // verus!

verus! {

/// Two strings hold the same characters.
pub fn str_eq(a: &str, b: &str) -> (r: bool)
    ensures
        r == (a@ == b@),
{
    let x = chars_of(a);
    let y = chars_of(b);
    if x.len() != y.len() {
        return false;
    }
    let mut i: usize = 0;
    while i < x.len()
        invariant
            i <= x.len(),
            x.len() == y.len(),
            x@ == a@,
            y@ == b@,
            forall|j: int| 0 <= j < i ==> x@[j] == y@[j],
        decreases x.len() - i,
    {
        if x[i] != y[i] {
            assert(a@[i as int] != b@[i as int]);
            return false;
        }
        i += 1;
    }
    assert(x@ =~= y@);
    true
}

} // verus!
