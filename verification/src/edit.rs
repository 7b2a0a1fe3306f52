//! The editable text of a text box: its content, the selection (with the end the cursor is
//! at), the range an input method is composing, and every edit the keyboard, the clipboard
//! and the input method make. Offsets are UTF-8 byte offsets into the content; the input
//! method speaks in UTF-16 offsets.

use vstd::prelude::*;
use vstd::utf8::{encode_utf8, encode_scalar};
use crate::text::{chars_of, replace, spec_replace};
use unicode_segmentation::UnicodeSegmentation;

verus! {

// ----- sizes of characters and texts -----

/// Bytes of a character in UTF-8.
pub open spec fn w8(c: char) -> nat {
    let v = c as u32;
    if v <= 0x7F {
        1
    } else if v <= 0x7FF {
        2
    } else if v <= 0xFFFF {
        3
    } else {
        4
    }
}

/// Code units of a character in UTF-16.
pub open spec fn w16(c: char) -> nat {
    if (c as u32) < 0x10000 {
        1
    } else {
        2
    }
}

/// Bytes of a text in UTF-8.
pub open spec fn bytes(s: Seq<char>) -> nat
    decreases s.len(),
{
    if s.len() == 0 {
        0
    } else {
        w8(s[0]) + bytes(s.drop_first())
    }
}

/// Code units of a text in UTF-16.
pub open spec fn units(s: Seq<char>) -> nat
    decreases s.len(),
{
    if s.len() == 0 {
        0
    } else {
        w16(s[0]) + units(s.drop_first())
    }
}

pub proof fn lemma_bytes_concat(a: Seq<char>, b: Seq<char>)
    ensures
        bytes(a + b) == bytes(a) + bytes(b),
    decreases a.len(),
{
    if a.len() > 0 {
        assert((a + b).drop_first() =~= a.drop_first() + b);
        lemma_bytes_concat(a.drop_first(), b);
    } else {
        assert(a + b =~= b);
    }
}

pub proof fn lemma_units_concat(a: Seq<char>, b: Seq<char>)
    ensures
        units(a + b) == units(a) + units(b),
    decreases a.len(),
{
    if a.len() > 0 {
        assert((a + b).drop_first() =~= a.drop_first() + b);
        lemma_units_concat(a.drop_first(), b);
    } else {
        assert(a + b =~= b);
    }
}

/// The bytes of the first `i + 1` characters are those of the first `i` and one more.
pub proof fn lemma_bytes_prefix(s: Seq<char>, i: int)
    requires
        0 <= i < s.len(),
    ensures
        bytes(s.subrange(0, i + 1)) == bytes(s.subrange(0, i)) + w8(s[i]),
        units(s.subrange(0, i + 1)) == units(s.subrange(0, i)) + w16(s[i]),
{
    assert(s.subrange(0, i + 1) =~= s.subrange(0, i) + seq![s[i]]);
    lemma_bytes_concat(s.subrange(0, i), seq![s[i]]);
    lemma_units_concat(s.subrange(0, i), seq![s[i]]);
    assert(seq![s[i]].drop_first() =~= Seq::<char>::empty());
    reveal_with_fuel(bytes, 2);
    reveal_with_fuel(units, 2);
}

/// Longer starts of a text have more bytes.
pub proof fn lemma_bytes_grow(s: Seq<char>, i: int, j: int)
    requires
        0 <= i <= j <= s.len(),
    ensures
        bytes(s.subrange(0, i)) + (j - i) <= bytes(s.subrange(0, j)),
        bytes(s.subrange(0, j)) <= bytes(s),
    decreases j - i,
{
    if i < j {
        lemma_bytes_grow(s, i, j - 1);
        lemma_bytes_prefix(s, j - 1);
    }
    assert(s =~= s.subrange(0, j) + s.subrange(j, s.len() as int));
    lemma_bytes_concat(s.subrange(0, j), s.subrange(j, s.len() as int));
}

/// `bytes` is the length of vstd's UTF-8 encoding.
pub proof fn lemma_bytes_encoding(s: Seq<char>)
    ensures
        encode_utf8(s).len() == bytes(s),
    decreases s.len(),
{
    if s.len() > 0 {
        let v = s[0] as u32;
        vstd::utf8::char_is_scalar(s[0]);
        assert(encode_scalar(v).len() == w8(s[0]));
        lemma_bytes_encoding(s.drop_first());
    }
}

/// `str::len`: the length of `s` in bytes, its UTF-8 encoding (a `str` never holds more than
/// `isize::MAX` bytes).
#[verifier::external_body]
pub(crate) fn byte_len(s: &str) -> (r: usize)
    ensures
        r == bytes(s@),
{
    s.len()
}

/// `w8` of a character.
pub fn width8(c: char) -> (r: usize)
    ensures
        r == w8(c),
        1 <= r <= 4,
{
    let v = c as u32;
    if v <= 0x7F {
        1
    } else if v <= 0x7FF {
        2
    } else if v <= 0xFFFF {
        3
    } else {
        4
    }
}

/// `w16` of a character.
pub fn width16(c: char) -> (r: usize)
    ensures
        r == w16(c),
        1 <= r <= 2,
{
    if (c as u32) < 0x10000 {
        1
    } else {
        2
    }
}

// ----- byte offsets -----

/// The byte offset `b` comes right after the first `i` characters.
pub open spec fn at_char(s: Seq<char>, b: int, i: int) -> bool {
    0 <= i <= s.len() && bytes(s.subrange(0, i)) == b
}

/// `b` is a byte offset between two characters (or an end).
pub open spec fn is_boundary(s: Seq<char>, b: int) -> bool {
    exists|i: int| at_char(s, b, i)
}

/// The characters before the boundary `b`.
pub open spec fn char_index(s: Seq<char>, b: int) -> int {
    choose|i: int| at_char(s, b, i)
}

/// At most one character position has a given byte offset.
pub proof fn lemma_at_char_unique(s: Seq<char>, b: int, i: int, j: int)
    requires
        at_char(s, b, i),
        at_char(s, b, j),
    ensures
        i == j,
{
    if i < j {
        lemma_bytes_grow(s, i, j);
    } else if j < i {
        lemma_bytes_grow(s, j, i);
    }
}

/// The character position of a boundary.
pub proof fn lemma_char_index(s: Seq<char>, b: int, i: int)
    requires
        at_char(s, b, i),
    ensures
        is_boundary(s, b),
        char_index(s, b) == i,
{
    assert(is_boundary(s, b));
    lemma_at_char_unique(s, b, i, char_index(s, b));
}

/// The character position of the byte offset `b` in `cs`, when it is a boundary.
pub fn find_char(cs: &Vec<char>, b: usize) -> (r: Option<usize>)
    requires
        bytes(cs@) <= usize::MAX,
    ensures
        r is Some <==> is_boundary(cs@, b as int),
        r matches Some(i) ==> at_char(cs@, b as int, i as int) && i as int == char_index(cs@, b as int),
{
    let mut acc: usize = 0;
    let mut i: usize = 0;
    assert(cs@.subrange(0, 0) =~= Seq::<char>::empty());
    while i < cs.len() && acc < b
        invariant
            i <= cs.len(),
            acc == bytes(cs@.subrange(0, i as int)),
            bytes(cs@) <= usize::MAX,
            forall|k: int| 0 <= k < i ==> bytes(#[trigger] cs@.subrange(0, k)) < b,
        decreases cs.len() - i,
    {
        proof {
            lemma_bytes_prefix(cs@, i as int);
            lemma_bytes_grow(cs@, i as int + 1, cs.len() as int);
        }
        acc = acc + width8(cs[i]);
        i += 1;
    }
    if acc == b {
        proof {
            lemma_char_index(cs@, b as int, i as int);
        }
        Some(i)
    } else {
        proof {
            if is_boundary(cs@, b as int) {
                let j = choose|j: int| at_char(cs@, b as int, j);
                if j < i {
                } else if j > i {
                    lemma_bytes_grow(cs@, i as int, j);
                    if i == cs.len() {
                    }
                } else {
                }
            }
        }
        None
    }
}

// ----- UTF-16 offsets of the input method -----

/// The characters a UTF-16 offset covers: characters are taken while fewer than `off` units are.
pub open spec fn chars_for_units(s: Seq<char>, off: int) -> int
    decreases s.len(),
{
    if s.len() == 0 || off <= 0 {
        0
    } else {
        1 + chars_for_units(s.drop_first(), off - w16(s[0]))
    }
}

/// The characters a byte offset covers: characters are taken while fewer than `off` bytes are.
pub open spec fn chars_for_bytes(s: Seq<char>, off: int) -> int
    decreases s.len(),
{
    if s.len() == 0 || off <= 0 {
        0
    } else {
        1 + chars_for_bytes(s.drop_first(), off - w8(s[0]))
    }
}

/// The byte offset of a UTF-16 offset.
pub open spec fn from_utf16(s: Seq<char>, off: int) -> nat {
    bytes(s.subrange(0, chars_for_units(s, off)))
}

/// The UTF-16 offset of a byte offset.
pub open spec fn to_utf16(s: Seq<char>, off: int) -> nat {
    units(s.subrange(0, chars_for_bytes(s, off)))
}

pub proof fn lemma_chars_for_bounds(s: Seq<char>, off: int)
    ensures
        0 <= chars_for_units(s, off) <= s.len(),
        0 <= chars_for_bytes(s, off) <= s.len(),
    decreases s.len(),
{
    if s.len() > 0 {
        lemma_chars_for_bounds(s.drop_first(), off - w16(s[0]));
        lemma_chars_for_bounds(s.drop_first(), off - w8(s[0]));
    }
}

/// Larger UTF-16 offsets cover no fewer characters.
pub proof fn lemma_chars_for_units_monotonic(s: Seq<char>, a: int, b: int)
    requires
        a <= b,
    ensures
        chars_for_units(s, a) <= chars_for_units(s, b),
    decreases s.len(),
{
    if s.len() > 0 && a > 0 {
        lemma_chars_for_units_monotonic(s.drop_first(), a - w16(s[0]), b - w16(s[0]));
    }
    if s.len() > 0 {
        lemma_chars_for_bounds(s.drop_first(), b - w16(s[0]));
    }
}

pub proof fn lemma_units_le_bytes(s: Seq<char>)
    ensures
        units(s) <= bytes(s),
    decreases s.len(),
{
    if s.len() > 0 {
        lemma_units_le_bytes(s.drop_first());
    }
}

/// The byte offset of the UTF-16 offset `off` in `cs`.
pub fn offset_from_utf16(cs: &Vec<char>, off: usize) -> (r: usize)
    requires
        bytes(cs@) <= usize::MAX,
    ensures
        r == from_utf16(cs@, off as int),
        at_char(cs@, r as int, chars_for_units(cs@, off as int)),
{
    let ghost all = cs@;
    let mut i: usize = 0;
    let mut n16: usize = 0;
    let mut n8: usize = 0;
    assert(all.subrange(0, 0) =~= Seq::<char>::empty());
    assert(all.subrange(0, all.len() as int) =~= all);
    proof {
        lemma_units_le_bytes(all);
    }
    while i < cs.len() && n16 < off
        invariant
            i <= cs.len(),
            all == cs@,
            bytes(all) <= usize::MAX,
            n8 == bytes(all.subrange(0, i as int)),
            n16 == units(all.subrange(0, i as int)),
            n16 <= n8,
            i + chars_for_units(all.subrange(i as int, all.len() as int), off - n16) == chars_for_units(
                all,
                off as int,
            ),
        decreases cs.len() - i,
    {
        proof {
            lemma_bytes_prefix(all, i as int);
            lemma_bytes_grow(all, i as int + 1, all.len() as int);
            lemma_units_le_bytes(all.subrange(0, i as int + 1));
            let rest = all.subrange(i as int, all.len() as int);
            assert(rest.drop_first() =~= all.subrange(i as int + 1, all.len() as int));
            assert(rest[0] == all[i as int]);
        }
        n16 = n16 + width16(cs[i]);
        n8 = n8 + width8(cs[i]);
        i += 1;
    }
    proof {
        let rest = all.subrange(i as int, all.len() as int);
        assert(chars_for_units(rest, off - n16) == 0);
    }
    n8
}

/// The UTF-16 offset of the byte offset `off` in `cs`.
pub fn offset_to_utf16(cs: &Vec<char>, off: usize) -> (r: usize)
    requires
        bytes(cs@) <= usize::MAX,
    ensures
        r == to_utf16(cs@, off as int),
{
    let ghost all = cs@;
    let mut i: usize = 0;
    let mut n16: usize = 0;
    let mut n8: usize = 0;
    assert(all.subrange(0, 0) =~= Seq::<char>::empty());
    assert(all.subrange(0, all.len() as int) =~= all);
    while i < cs.len() && n8 < off
        invariant
            i <= cs.len(),
            all == cs@,
            bytes(all) <= usize::MAX,
            n8 == bytes(all.subrange(0, i as int)),
            n16 == units(all.subrange(0, i as int)),
            n16 <= n8,
            i + chars_for_bytes(all.subrange(i as int, all.len() as int), off - n8) == chars_for_bytes(
                all,
                off as int,
            ),
        decreases cs.len() - i,
    {
        proof {
            lemma_bytes_prefix(all, i as int);
            lemma_bytes_grow(all, i as int + 1, all.len() as int);
            lemma_units_le_bytes(all.subrange(0, i as int + 1));
            let rest = all.subrange(i as int, all.len() as int);
            assert(rest.drop_first() =~= all.subrange(i as int + 1, all.len() as int));
            assert(rest[0] == all[i as int]);
        }
        n16 = n16 + width16(cs[i]);
        n8 = n8 + width8(cs[i]);
        i += 1;
    }
    proof {
        let rest = all.subrange(i as int, all.len() as int);
        assert(chars_for_bytes(rest, off - n8) == 0);
    }
    n16
}

// ----- grapheme clusters -----

/// The byte offsets at which the extended grapheme clusters of a text start, in order.
pub uninterp spec fn spec_grapheme_starts(s: Seq<char>) -> Seq<usize>;

/// unicode-segmentation's `grapheme_indices(true)` (extended clusters), keeping the offsets:
/// each is where a cluster, a part of the text, starts, so it lies between two characters.
#[verifier::external_body]
fn grapheme_starts(s: &str) -> (r: Vec<usize>)
    ensures
        r@ == spec_grapheme_starts(s@),
        forall|i: int| 0 <= i < r.len() ==> is_boundary(s@, #[trigger] r@[i] as int),
{
    s.grapheme_indices(true).map(|(i, _)| i).collect()
}

/// The last cluster start (in order) before `off`, else 0.
pub open spec fn prev_start(starts: Seq<usize>, off: int) -> int
    decreases starts.len(),
{
    if starts.len() == 0 {
        0
    } else if starts.last() < off {
        starts.last() as int
    } else {
        prev_start(starts.drop_last(), off)
    }
}

/// The first cluster start (in order) after `off`, else `end`.
pub open spec fn next_start(starts: Seq<usize>, off: int, end: int) -> int
    decreases starts.len(),
{
    if starts.len() == 0 {
        end
    } else if starts[0] > off {
        starts[0] as int
    } else {
        next_start(starts.drop_first(), off, end)
    }
}

/// Where Left (or Backspace) goes from `off`: the previous grapheme cluster boundary.
pub open spec fn previous_boundary(s: Seq<char>, off: int) -> int {
    prev_start(spec_grapheme_starts(s), off)
}

/// Where Right (or Delete) goes from `off`: the next grapheme cluster boundary, else the end.
pub open spec fn next_boundary(s: Seq<char>, off: int) -> int {
    next_start(spec_grapheme_starts(s), off, bytes(s) as int)
}

proof fn lemma_zero_boundary(s: Seq<char>)
    ensures
        is_boundary(s, 0),
        is_boundary(s, bytes(s) as int),
{
    assert(s.subrange(0, 0) =~= Seq::<char>::empty());
    assert(at_char(s, 0, 0));
    assert(s.subrange(0, s.len() as int) =~= s);
    assert(at_char(s, bytes(s) as int, s.len() as int));
}

fn previous_boundary_of(s: &str, off: usize) -> (r: usize)
    ensures
        r == previous_boundary(s@, off as int),
        is_boundary(s@, r as int),
{
    let starts = grapheme_starts(s);
    let ghost all = starts@;
    let mut k: usize = starts.len();
    assert(all.subrange(0, all.len() as int) =~= all);
    proof {
        lemma_zero_boundary(s@);
    }
    while k > 0
        invariant
            k <= starts.len(),
            all == starts@,
            all == spec_grapheme_starts(s@),
            forall|i: int| 0 <= i < all.len() ==> is_boundary(s@, #[trigger] all[i] as int),
            prev_start(all, off as int) == prev_start(all.subrange(0, k as int), off as int),
        decreases k,
    {
        let ghost pre = all.subrange(0, k as int);
        assert(pre.drop_last() =~= all.subrange(0, k as int - 1));
        assert(pre.last() == all[k as int - 1]);
        if starts[k - 1] < off {
            return starts[k - 1];
        }
        k -= 1;
    }
    0
}

fn next_boundary_of(s: &str, off: usize) -> (r: usize)
    ensures
        r == next_boundary(s@, off as int),
        is_boundary(s@, r as int),
{
    let starts = grapheme_starts(s);
    let end = byte_len(s);
    let ghost all = starts@;
    let mut k: usize = 0;
    assert(all.subrange(0, all.len() as int) =~= all);
    proof {
        lemma_zero_boundary(s@);
    }
    while k < starts.len()
        invariant
            k <= starts.len(),
            all == starts@,
            all == spec_grapheme_starts(s@),
            end == bytes(s@),
            forall|i: int| 0 <= i < all.len() ==> is_boundary(s@, #[trigger] all[i] as int),
            next_start(all, off as int, end as int) == next_start(
                all.subrange(k as int, all.len() as int),
                off as int,
                end as int,
            ),
        decreases starts.len() - k,
    {
        let ghost rest = all.subrange(k as int, all.len() as int);
        assert(rest.drop_first() =~= all.subrange(k as int + 1, all.len() as int));
        assert(rest[0] == all[k as int]);
        if starts[k] > off {
            return starts[k];
        }
        k += 1;
    }
    end
}

// ----- the buffer -----

/// The text with the bytes from `a` to `b` replaced by `t`.
pub open spec fn spliced(s: Seq<char>, a: int, b: int, t: Seq<char>) -> Seq<char> {
    s.subrange(0, char_index(s, a)) + t + s.subrange(char_index(s, b), s.len() as int)
}

/// The characters between the boundaries `a` and `b`.
pub open spec fn between(s: Seq<char>, a: int, b: int) -> Seq<char> {
    s.subrange(char_index(s, a), char_index(s, b))
}

/// The text as a single-line box keeps it: line breaks become spaces.
pub open spec fn one_line(t: Seq<char>) -> Seq<char> {
    spec_replace(t, "\n"@, " "@)
}

/// Pasted text with Windows line breaks made plain.
pub open spec fn plain_breaks(t: Seq<char>) -> Seq<char> {
    spec_replace(t, "\r\n"@, "\n"@)
}

/// The editable text of a text box.
pub struct EditBuffer {
    pub content: String,
    pub multiline: bool,
    /// The selection (start, end) in bytes; empty when the two are equal.
    pub selected: (usize, usize),
    /// The cursor is at the start of the selection rather than its end.
    pub reversed: bool,
    /// The text an input method is composing.
    pub marked: Option<(usize, usize)>,
}

/// What a text box does with Enter.
#[derive(Clone, Copy, Debug, PartialEq, Eq, Structural)]
pub enum EnterKey {
    /// A line break went in (a multi-line box).
    NewLine,
    /// The box is submitted (a single-line box).
    Submit,
}

proof fn lemma_boundary_le(s: Seq<char>, b: int)
    requires
        is_boundary(s, b),
    ensures
        0 <= b <= bytes(s),
        0 <= char_index(s, b) <= s.len(),
{
    let i = choose|i: int| at_char(s, b, i);
    lemma_char_index(s, b, i);
    lemma_bytes_grow(s, i, s.len() as int);
    assert(s.subrange(0, s.len() as int) =~= s);
}

fn char_at(cs: &Vec<char>, b: usize) -> (r: usize)
    requires
        bytes(cs@) <= usize::MAX,
        is_boundary(cs@, b as int),
    ensures
        r as int == char_index(cs@, b as int),
        at_char(cs@, b as int, r as int),
{
    match find_char(cs, b) {
        Some(i) => i,
        None => 0,
    }
}

/// `s` with the bytes from `a` to `b` replaced by `t`.
fn splice(s: &str, a: usize, b: usize, t: &str) -> (r: String)
    requires
        is_boundary(s@, a as int),
        is_boundary(s@, b as int),
    ensures
        r@ == spliced(s@, a as int, b as int, t@),
{
    let _ = byte_len(s);
    let cs = chars_of(s);
    let i = char_at(&cs, a);
    let j = char_at(&cs, b);
    let mut r = s.substring_char(0, i).to_string();
    r.append(t);
    r.append(s.substring_char(j, cs.len()));
    r
}

impl EditBuffer {
    pub open spec fn wf(&self) -> bool {
        &&& self.selected.0 <= self.selected.1
        &&& is_boundary(self.content@, self.selected.0 as int)
        &&& is_boundary(self.content@, self.selected.1 as int)
        &&& (self.marked matches Some((a, b)) ==> a <= b && is_boundary(self.content@, a as int) && is_boundary(
            self.content@,
            b as int,
        ))
    }

    /// Where the cursor is: the end of the selection it was extended to.
    pub open spec fn cursor_at(&self) -> int {
        if self.reversed {
            self.selected.0 as int
        } else {
            self.selected.1 as int
        }
    }

    /// The range an edit replaces when the input method names none: the composed text, else
    /// the selection.
    pub open spec fn edit_range(&self) -> (usize, usize) {
        match self.marked {
            Some(m) => m,
            None => self.selected,
        }
    }

    /// An empty box.
    pub fn new(multiline: bool) -> (r: EditBuffer)
        ensures
            r.wf(),
            r.content@.len() == 0,
            r.multiline == multiline,
            r.selected == (0usize, 0usize),
            !r.reversed,
            r.marked is None,
    {
        let r = EditBuffer { content: String::new(), multiline, selected: (0, 0), reversed: false, marked: None };
        proof {
            lemma_zero_boundary(r.content@);
        }
        r
    }

    pub fn text(&self) -> (r: &str)
        ensures
            r@ == self.content@,
    {
        self.content.as_str()
    }

    /// Replaces the text (a single-line box makes line breaks spaces) and puts the cursor at
    /// the end.
    pub fn set_text(&mut self, text: &str)
        ensures
            final(self).wf(),
            final(self).content@ == (if old(self).multiline {
                text@
            } else {
                one_line(text@)
            }),
            final(self).selected == (bytes(final(self).content@) as usize, bytes(final(self).content@) as usize),
            !final(self).reversed,
            final(self).marked is None,
            final(self).multiline == old(self).multiline,
    {
        proof {
            reveal_strlit("\n");
            reveal_strlit(" ");
        }
        self.content = if self.multiline {
            text.to_string()
        } else {
            replace(text, "\n", " ")
        };
        let end = byte_len(self.content.as_str());
        self.selected = (end, end);
        self.reversed = false;
        self.marked = None;
        proof {
            lemma_zero_boundary(self.content@);
        }
    }

    pub fn cursor(&self) -> (r: usize)
        ensures
            r as int == self.cursor_at(),
    {
        if self.reversed {
            self.selected.0
        } else {
            self.selected.1
        }
    }

    /// Puts the cursor at `offset`, with nothing selected.
    pub fn move_to(&mut self, offset: usize)
        requires
            old(self).wf(),
            is_boundary(old(self).content@, offset as int),
        ensures
            final(self).wf(),
            final(self).selected == (offset, offset),
            final(self).content == old(self).content,
            final(self).reversed == old(self).reversed,
            final(self).marked == old(self).marked,
            final(self).multiline == old(self).multiline,
    {
        self.selected = (offset, offset);
    }

    /// Extends the selection from its anchor to `offset`.
    pub fn select_to(&mut self, offset: usize)
        requires
            old(self).wf(),
            is_boundary(old(self).content@, offset as int),
        ensures
            final(self).wf(),
            ({
                let (a, b) = if old(self).reversed {
                    (offset, old(self).selected.1)
                } else {
                    (old(self).selected.0, offset)
                };
                if b < a {
                    final(self).selected == (b, a) && final(self).reversed == !old(self).reversed
                } else {
                    final(self).selected == (a, b) && final(self).reversed == old(self).reversed
                }
            }),
            final(self).content == old(self).content,
            final(self).marked == old(self).marked,
            final(self).multiline == old(self).multiline,
    {
        if self.reversed {
            self.selected.0 = offset;
        } else {
            self.selected.1 = offset;
        }
        if self.selected.1 < self.selected.0 {
            self.reversed = !self.reversed;
            self.selected = (self.selected.1, self.selected.0);
        }
    }

    /// Left: to the previous grapheme cluster, or to the start of the selection.
    pub fn left(&mut self)
        requires
            old(self).wf(),
        ensures
            final(self).wf(),
            final(self).selected == (if old(self).selected.0 == old(self).selected.1 {
                (
                    previous_boundary(old(self).content@, old(self).cursor_at()) as usize,
                    previous_boundary(old(self).content@, old(self).cursor_at()) as usize,
                )
            } else {
                (old(self).selected.0, old(self).selected.0)
            }),
            final(self).content == old(self).content,
            final(self).reversed == old(self).reversed,
            final(self).marked == old(self).marked,
            final(self).multiline == old(self).multiline,
    {
        if self.selected.0 == self.selected.1 {
            let p = previous_boundary_of(self.content.as_str(), self.cursor());
            self.move_to(p);
        } else {
            let p = self.selected.0;
            self.move_to(p);
        }
    }

    /// Right: to the next grapheme cluster, or to the end of the selection.
    pub fn right(&mut self)
        requires
            old(self).wf(),
        ensures
            final(self).wf(),
            final(self).selected == (if old(self).selected.0 == old(self).selected.1 {
                (
                    next_boundary(old(self).content@, old(self).selected.1 as int) as usize,
                    next_boundary(old(self).content@, old(self).selected.1 as int) as usize,
                )
            } else {
                (old(self).selected.1, old(self).selected.1)
            }),
            final(self).content == old(self).content,
            final(self).reversed == old(self).reversed,
            final(self).marked == old(self).marked,
            final(self).multiline == old(self).multiline,
    {
        if self.selected.0 == self.selected.1 {
            let p = next_boundary_of(self.content.as_str(), self.selected.1);
            self.move_to(p);
        } else {
            let p = self.selected.1;
            self.move_to(p);
        }
    }

    /// Shift+Left: the selection's moving end goes to the previous grapheme cluster.
    pub fn select_left(&mut self)
        requires
            old(self).wf(),
        ensures
            final(self).wf(),
            extended(old(self), previous_boundary(old(self).content@, old(self).cursor_at()), final(self)),
    {
        let p = previous_boundary_of(self.content.as_str(), self.cursor());
        self.select_to(p);
    }

    /// Shift+Right: the selection's moving end goes to the next grapheme cluster.
    pub fn select_right(&mut self)
        requires
            old(self).wf(),
        ensures
            final(self).wf(),
            extended(old(self), next_boundary(old(self).content@, old(self).cursor_at()), final(self)),
    {
        let p = next_boundary_of(self.content.as_str(), self.cursor());
        self.select_to(p);
    }

    /// Ctrl+A: everything selected.
    pub fn select_all(&mut self)
        requires
            old(self).wf(),
        ensures
            final(self).wf(),
            final(self).selected == (0usize, bytes(old(self).content@) as usize),
            bytes(old(self).content@) > 0 ==> !final(self).reversed,
            bytes(old(self).content@) == 0 ==> final(self).reversed == old(self).reversed,
            final(self).content == old(self).content,
            final(self).marked == old(self).marked,
            final(self).multiline == old(self).multiline,
    {
        proof {
            lemma_zero_boundary(self.content@);
        }
        self.move_to(0);
        let end = byte_len(self.content.as_str());
        self.select_to(end);
    }
}

/// `new` is `old` with its selection extended to `offset` (see `select_to`).
pub open spec fn extended(old: &EditBuffer, offset: int, new: &EditBuffer) -> bool {
    let (a, b) = if old.reversed {
        (offset, old.selected.1 as int)
    } else {
        (old.selected.0 as int, offset)
    };
    &&& if b < a {
        new.selected == (b as usize, a as usize) && new.reversed == !old.reversed
    } else {
        new.selected == (a as usize, b as usize) && new.reversed == old.reversed
    }
    &&& new.content == old.content
    &&& new.marked == old.marked
    &&& new.multiline == old.multiline
}

/// The start of the line holding the character position `i`: just after the last line break
/// before it, else 0.
pub open spec fn line_start(s: Seq<char>, i: int) -> int
    decreases i,
{
    if i <= 0 {
        0
    } else if s[i - 1] == '\n' {
        i
    } else {
        line_start(s, i - 1)
    }
}

/// The end of the line holding the character position `i`: the next line break, else the end.
pub open spec fn line_end(s: Seq<char>, i: int) -> int
    decreases s.len() - i,
{
    if i >= s.len() {
        s.len() as int
    } else if s[i] == '\n' {
        i
    } else {
        line_end(s, i + 1)
    }
}

proof fn lemma_line_start_bounds(s: Seq<char>, i: int)
    requires
        0 <= i <= s.len(),
    ensures
        0 <= line_start(s, i) <= i,
    decreases i,
{
    if i > 0 && s[i - 1] != '\n' {
        lemma_line_start_bounds(s, i - 1);
    }
}

proof fn lemma_line_end_bounds(s: Seq<char>, i: int)
    requires
        0 <= i <= s.len(),
    ensures
        i <= line_end(s, i) <= s.len(),
    decreases s.len() - i,
{
    if i < s.len() && s[i] != '\n' {
        lemma_line_end_bounds(s, i + 1);
    }
}

impl EditBuffer {
    /// Home: to the start of the cursor's line.
    pub fn home(&mut self)
        requires
            old(self).wf(),
        ensures
            final(self).wf(),
            ({
                let s = old(self).content@;
                let start = bytes(s.subrange(0, line_start(s, char_index(s, old(self).cursor_at())))) as usize;
                final(self).selected == (start, start)
            }),
            final(self).content == old(self).content,
            final(self).reversed == old(self).reversed,
            final(self).marked == old(self).marked,
            final(self).multiline == old(self).multiline,
    {
        let _ = byte_len(self.content.as_str());
        let cs = chars_of(self.content.as_str());
        let c = self.cursor();
        let ci = char_at(&cs, c);
        proof {
            lemma_boundary_le(cs@, c as int);
        }
        let mut i: usize = ci;
        while i > 0 && cs[i - 1] != '\n'
            invariant
                i <= ci <= cs.len(),
                line_start(cs@, ci as int) == line_start(cs@, i as int),
            decreases i,
        {
            i -= 1;
        }
        proof {
            lemma_bytes_grow(cs@, i as int, cs.len() as int);
            assert(at_char(cs@, bytes(cs@.subrange(0, i as int)) as int, i as int));
        }
        let mut b: usize = 0;
        let mut k: usize = 0;
        assert(cs@.subrange(0, 0) =~= Seq::<char>::empty());
        while k < i
            invariant
                k <= i <= cs.len(),
                b == bytes(cs@.subrange(0, k as int)),
                bytes(cs@.subrange(0, i as int)) <= usize::MAX,
            decreases i - k,
        {
            proof {
                lemma_bytes_prefix(cs@, k as int);
                lemma_bytes_grow(cs@, k as int + 1, i as int);
            }
            b = b + width8(cs[k]);
            k += 1;
        }
        self.move_to(b);
    }

    /// End: to the end of the cursor's line.
    pub fn end(&mut self)
        requires
            old(self).wf(),
        ensures
            final(self).wf(),
            ({
                let s = old(self).content@;
                let end = bytes(s.subrange(0, line_end(s, char_index(s, old(self).cursor_at())))) as usize;
                final(self).selected == (end, end)
            }),
            final(self).content == old(self).content,
            final(self).reversed == old(self).reversed,
            final(self).marked == old(self).marked,
            final(self).multiline == old(self).multiline,
    {
        let _ = byte_len(self.content.as_str());
        let cs = chars_of(self.content.as_str());
        let c = self.cursor();
        let ci = char_at(&cs, c);
        proof {
            lemma_boundary_le(cs@, c as int);
        }
        let mut i: usize = ci;
        let mut b: usize = c;
        while i < cs.len() && cs[i] != '\n'
            invariant
                ci <= i <= cs.len(),
                line_end(cs@, ci as int) == line_end(cs@, i as int),
                b == bytes(cs@.subrange(0, i as int)),
                bytes(cs@) <= usize::MAX,
            decreases cs.len() - i,
        {
            proof {
                lemma_bytes_prefix(cs@, i as int);
                lemma_bytes_grow(cs@, i as int + 1, cs.len() as int);
            }
            b = b + width8(cs[i]);
            i += 1;
        }
        proof {
            assert(at_char(cs@, b as int, i as int));
        }
        self.move_to(b);
    }

    /// Replaces the bytes from `range.0` to `range.1` with `t`, putting the cursor after it; the
    /// composed text is gone.
    fn replace_range(&mut self, range: (usize, usize), t: &str)
        requires
            old(self).wf(),
            is_boundary(old(self).content@, range.0 as int),
            is_boundary(old(self).content@, range.1 as int),
        ensures
            final(self).wf(),
            final(self).content@ == spliced(old(self).content@, range.0 as int, range.1 as int, t@),
            final(self).selected == ((range.0 + bytes(t@)) as usize, (range.0 + bytes(t@)) as usize),
            range.0 + bytes(t@) <= usize::MAX,
            final(self).marked is None,
            final(self).reversed == old(self).reversed,
            final(self).multiline == old(self).multiline,
    {
        let ghost s = old(self).content@;
        let content = splice(self.content.as_str(), range.0, range.1, t);
        let total = byte_len(content.as_str());
        let tl = byte_len(t);
        proof {
            lemma_boundary_le(s, range.0 as int);
            lemma_boundary_le(s, range.1 as int);
            let i = char_index(s, range.0 as int);
            lemma_char_index(s, range.0 as int, choose|k: int| at_char(s, range.0 as int, k));
            let pre = s.subrange(0, i) + t@;
            let new = content@;
            assert(new.subrange(0, pre.len() as int) =~= pre);
            lemma_bytes_concat(s.subrange(0, i), t@);
            lemma_bytes_grow(new, pre.len() as int, new.len() as int);
            assert(at_char(new, range.0 + bytes(t@), pre.len() as int));
        }
        self.content = content;
        self.selected = (range.0 + tl, range.0 + tl);
        self.marked = None;
    }

    /// The text the input method's edit would replace: the composed range, else the selection.
    fn current_range(&self) -> (r: (usize, usize))
        ensures
            r == self.edit_range(),
    {
        match self.marked {
            Some(m) => m,
            None => self.selected,
        }
    }

    /// Types `text` over the composed text or the selection (a single-line box makes line
    /// breaks spaces). Always a change.
    pub fn insert(&mut self, text: &str)
        requires
            old(self).wf(),
        ensures
            final(self).wf(),
            ({
                let t = if old(self).multiline {
                    text@
                } else {
                    one_line(text@)
                };
                let range = old(self).edit_range();
                &&& final(self).content@ == spliced(old(self).content@, range.0 as int, range.1 as int, t)
                &&& final(self).selected == ((range.0 + bytes(t)) as usize, (range.0 + bytes(t)) as usize)
            }),
            final(self).marked is None,
            final(self).reversed == old(self).reversed,
            final(self).multiline == old(self).multiline,
    {
        proof {
            reveal_strlit("\n");
            reveal_strlit(" ");
        }
        let range = self.current_range();
        if self.multiline {
            self.replace_range(range, text);
        } else {
            let t = replace(text, "\n", " ");
            self.replace_range(range, t.as_str());
        }
    }

    /// Backspace: deletes the selection (or composed text), else the grapheme cluster before
    /// the cursor; says whether the text changed (nothing happens at the start).
    pub fn backspace(&mut self) -> (r: bool)
        requires
            old(self).wf(),
        ensures
            final(self).wf(),
            !r <==> (old(self).selected.0 == old(self).selected.1 && previous_boundary(
                old(self).content@,
                old(self).cursor_at(),
            ) == old(self).cursor_at()),
            !r ==> *final(self) == *old(self),
            r ==> deleted(old(self), previous_boundary(old(self).content@, old(self).cursor_at()), final(self)),
    {
        if self.selected.0 == self.selected.1 {
            let c = self.cursor();
            let p = previous_boundary_of(self.content.as_str(), c);
            if p == c {
                return false;
            }
            self.select_to(p);
        }
        let range = self.current_range();
        self.replace_range(range, "");
        proof {
            reveal_strlit("");
        }
        true
    }

    /// Delete: deletes the selection (or composed text), else the grapheme cluster after the
    /// cursor; says whether the text changed (nothing happens at the end).
    pub fn delete(&mut self) -> (r: bool)
        requires
            old(self).wf(),
        ensures
            final(self).wf(),
            !r <==> (old(self).selected.0 == old(self).selected.1 && next_boundary(
                old(self).content@,
                old(self).cursor_at(),
            ) == old(self).cursor_at()),
            !r ==> *final(self) == *old(self),
            r ==> deleted(old(self), next_boundary(old(self).content@, old(self).cursor_at()), final(self)),
    {
        if self.selected.0 == self.selected.1 {
            let c = self.cursor();
            let p = next_boundary_of(self.content.as_str(), c);
            if p == c {
                return false;
            }
            self.select_to(p);
        }
        let range = self.current_range();
        self.replace_range(range, "");
        proof {
            reveal_strlit("");
        }
        true
    }

    /// Enter: a line break in a multi-line box, else the box is submitted.
    pub fn enter(&mut self) -> (r: EnterKey)
        requires
            old(self).wf(),
        ensures
            final(self).wf(),
            old(self).multiline ==> r == EnterKey::NewLine && ({
                let range = old(self).edit_range();
                &&& final(self).content@ == spliced(old(self).content@, range.0 as int, range.1 as int, "\n"@)
                &&& final(self).selected == ((range.0 + 1) as usize, (range.0 + 1) as usize)
                &&& final(self).marked is None
            }),
            !old(self).multiline ==> r == EnterKey::Submit && *final(self) == *old(self),
    {
        if self.multiline {
            proof {
                reveal_strlit("\n");
                assert(bytes("\n"@) == 1) by {
                    reveal_with_fuel(bytes, 2);
                }
            }
            let range = self.current_range();
            self.replace_range(range, "\n");
            EnterKey::NewLine
        } else {
            EnterKey::Submit
        }
    }

    /// Ctrl+V: the clipboard's text (Windows line breaks made plain) typed in.
    pub fn paste(&mut self, text: &str)
        requires
            old(self).wf(),
        ensures
            final(self).wf(),
            ({
                let t = if old(self).multiline {
                    plain_breaks(text@)
                } else {
                    one_line(plain_breaks(text@))
                };
                let range = old(self).edit_range();
                &&& final(self).content@ == spliced(old(self).content@, range.0 as int, range.1 as int, t)
                &&& final(self).selected == ((range.0 + bytes(t)) as usize, (range.0 + bytes(t)) as usize)
            }),
            final(self).marked is None,
            final(self).reversed == old(self).reversed,
            final(self).multiline == old(self).multiline,
    {
        proof {
            reveal_strlit("\r\n");
            reveal_strlit("\n");
        }
        let t = replace(text, "\r\n", "\n");
        self.insert(t.as_str());
    }

    /// Ctrl+C: the selected text, when something is selected.
    pub fn selected_text(&self) -> (r: Option<String>)
        requires
            self.wf(),
        ensures
            self.selected.0 == self.selected.1 ==> r is None,
            self.selected.0 != self.selected.1 ==> (r matches Some(t) && t@ == between(
                self.content@,
                self.selected.0 as int,
                self.selected.1 as int,
            )),
    {
        if self.selected.0 == self.selected.1 {
            return None;
        }
        let _ = byte_len(self.content.as_str());
        let cs = chars_of(self.content.as_str());
        let i = char_at(&cs, self.selected.0);
        let j = char_at(&cs, self.selected.1);
        proof {
            if j < i {
                lemma_bytes_grow(cs@, j as int, i as int);
            }
        }
        Some(self.content.as_str().substring_char(i, j).to_string())
    }

    /// Ctrl+X: the selected text, which is then deleted.
    pub fn cut(&mut self) -> (r: Option<String>)
        requires
            old(self).wf(),
        ensures
            final(self).wf(),
            old(self).selected.0 == old(self).selected.1 ==> r is None && *final(self) == *old(self),
            old(self).selected.0 != old(self).selected.1 ==> (r matches Some(t) && t@ == between(
                old(self).content@,
                old(self).selected.0 as int,
                old(self).selected.1 as int,
            )) && ({
                let range = old(self).edit_range();
                &&& final(self).content@ == spliced(old(self).content@, range.0 as int, range.1 as int, Seq::empty())
                &&& final(self).selected == (range.0, range.0)
                &&& final(self).marked is None
            }),
    {
        let t = self.selected_text();
        if t.is_some() {
            let range = self.current_range();
            self.replace_range(range, "");
            proof {
                reveal_strlit("");
            }
        }
        t
    }
}

/// `new` is `old` after deleting towards `target` (see `backspace` and `delete`): the
/// selection, when there is one, else the text between the cursor and `target`, each unless
/// text is being composed, which then goes instead.
pub open spec fn deleted(old: &EditBuffer, target: int, new: &EditBuffer) -> bool {
    let range = match old.marked {
        Some(m) => m,
        None => if old.selected.0 == old.selected.1 {
            if target < old.cursor_at() {
                (target as usize, old.cursor_at() as usize)
            } else {
                (old.cursor_at() as usize, target as usize)
            }
        } else {
            old.selected
        },
    };
    &&& new.content@ == spliced(old.content@, range.0 as int, range.1 as int, Seq::empty())
    &&& new.selected == (range.0, range.0)
    &&& new.marked is None
    &&& new.multiline == old.multiline
}

/// The byte range of an input method's UTF-16 range.
pub open spec fn range_from_utf16(s: Seq<char>, r: (usize, usize)) -> (int, int) {
    (from_utf16(s, r.0 as int) as int, from_utf16(s, r.1 as int) as int)
}

/// The range an input method's edit replaces: the one it names, else the composed text, else
/// the selection.
pub open spec fn ime_range(b: &EditBuffer, range16: Option<(usize, usize)>) -> (int, int) {
    match range16 {
        Some(r) => range_from_utf16(b.content@, r),
        None => (b.edit_range().0 as int, b.edit_range().1 as int),
    }
}

/// The selection `replace_and_mark_text_in_range` makes of the input method's `sel16`: read on
/// the new text from its start, then moved by where the replaced range starts.
pub open spec fn marked_selection(new_text: Seq<char>, start: int, sel16: (usize, usize)) -> (int, int) {
    (from_utf16(new_text, sel16.0 as int) + start, from_utf16(new_text, sel16.1 as int) + start)
}

/// Whether that selection is one the box can hold: ordered, between characters of the new text.
pub open spec fn marked_selection_ok(b: &EditBuffer, range16: Option<(usize, usize)>, t: Seq<char>, sel16: Option<(usize, usize)>) -> bool {
    sel16 matches Some(r) ==> {
        let range = ime_range(b, range16);
        let new = spliced(b.content@, range.0, range.1, t);
        let sel = marked_selection(new, range.0, r);
        &&& sel.0 <= sel.1 <= usize::MAX
        &&& is_boundary(new, sel.0)
        &&& is_boundary(new, sel.1)
    }
}

proof fn lemma_from_utf16_boundary(s: Seq<char>, off: int)
    ensures
        is_boundary(s, from_utf16(s, off) as int),
        from_utf16(s, off) <= bytes(s),
{
    lemma_chars_for_bounds(s, off);
    let k = chars_for_units(s, off);
    assert(at_char(s, from_utf16(s, off) as int, k));
    lemma_bytes_grow(s, k, s.len() as int);
    assert(s.subrange(0, s.len() as int) =~= s);
}

/// The three runs of a text of `len` bytes with the range `m` composed.
pub open spec fn runs_of(len: nat, m: (usize, usize)) -> Seq<(usize, bool)> {
    seq![(m.0, false), ((m.1 - m.0) as usize, true), ((len - m.1) as usize, false)]
}

/// Those runs without the empty ones.
pub open spec fn marked_runs(len: nat, m: (usize, usize)) -> Seq<(usize, bool)> {
    runs_of(len, m).filter(|run: (usize, bool)| run.0 > 0)
}

impl EditBuffer {
    fn chars(&self) -> (r: Vec<char>)
        ensures
            r@ == self.content@,
            bytes(r@) <= usize::MAX,
    {
        let _ = byte_len(self.content.as_str());
        chars_of(self.content.as_str())
    }

    fn ime_range_of(&self, range16: Option<(usize, usize)>) -> (r: (usize, usize))
        requires
            self.wf(),
        ensures
            r.0 as int == ime_range(self, range16).0,
            r.1 as int == ime_range(self, range16).1,
            is_boundary(self.content@, r.0 as int),
            is_boundary(self.content@, r.1 as int),
    {
        match range16 {
            Some(r) => {
                let cs = self.chars();
                proof {
                    lemma_from_utf16_boundary(cs@, r.0 as int);
                    lemma_from_utf16_boundary(cs@, r.1 as int);
                }
                (offset_from_utf16(&cs, r.0), offset_from_utf16(&cs, r.1))
            },
            None => self.current_range(),
        }
    }

    /// The input method (or typing) replaces the range it names, else the composed text, else
    /// the selection, with `new_text` (a single-line box makes line breaks spaces); the cursor
    /// goes after it and nothing is composed any more.
    pub fn replace_text_in_range(&mut self, range16: Option<(usize, usize)>, new_text: &str)
        requires
            old(self).wf(),
        ensures
            final(self).wf(),
            ({
                let t = if old(self).multiline {
                    new_text@
                } else {
                    one_line(new_text@)
                };
                let range = ime_range(old(self), range16);
                &&& final(self).content@ == spliced(old(self).content@, range.0, range.1, t)
                &&& final(self).selected == ((range.0 + bytes(t)) as usize, (range.0 + bytes(t)) as usize)
            }),
            final(self).marked is None,
            final(self).reversed == old(self).reversed,
            final(self).multiline == old(self).multiline,
    {
        proof {
            reveal_strlit("\n");
            reveal_strlit(" ");
        }
        let range = self.ime_range_of(range16);
        if self.multiline {
            self.replace_range(range, new_text);
        } else {
            let t = replace(new_text, "\n", " ");
            self.replace_range(range, t.as_str());
        }
    }

    /// Whether the selection an input method asks for with its composed text fits the box
    /// (see `marked_selection_ok`).
    pub fn marked_selection_fits(
        &self,
        range16: Option<(usize, usize)>,
        new_text: &str,
        sel16: Option<(usize, usize)>,
    ) -> (r: bool)
        requires
            self.wf(),
        ensures
            r == marked_selection_ok(self, range16, new_text@, sel16),
    {
        let r16 = match sel16 {
            Some(r) => r,
            None => return true,
        };
        let range = self.ime_range_of(range16);
        let new = splice(self.content.as_str(), range.0, range.1, new_text);
        let _ = byte_len(new.as_str());
        let cs = chars_of(new.as_str());
        let a = offset_from_utf16(&cs, r16.0);
        let b = offset_from_utf16(&cs, r16.1);
        if a > b || usize::MAX - range.0 < b {
            return false;
        }
        let a2 = a + range.0;
        let b2 = b + range.0;
        find_char(&cs, a2).is_some() && find_char(&cs, b2).is_some()
    }

    /// The input method's composed text: it replaces the range it names (else the composed
    /// text, else the selection) and is marked as composed unless empty; the selection is the
    /// one it asks for (see `marked_selection`), else the cursor after the text.
    pub fn replace_and_mark_text_in_range(
        &mut self,
        range16: Option<(usize, usize)>,
        new_text: &str,
        sel16: Option<(usize, usize)>,
    )
        requires
            old(self).wf(),
            marked_selection_ok(old(self), range16, new_text@, sel16),
        ensures
            final(self).wf(),
            ({
                let range = ime_range(old(self), range16);
                &&& final(self).content@ == spliced(old(self).content@, range.0, range.1, new_text@)
                &&& final(self).marked == (if new_text@.len() == 0 {
                    None
                } else {
                    Some((range.0 as usize, (range.0 + bytes(new_text@)) as usize))
                })
                &&& final(self).selected == (match sel16 {
                    Some(r) => {
                        let sel = marked_selection(final(self).content@, range.0, r);
                        (sel.0 as usize, sel.1 as usize)
                    },
                    None => ((range.0 + bytes(new_text@)) as usize, (range.0 + bytes(new_text@)) as usize),
                })
            }),
            final(self).reversed == old(self).reversed,
            final(self).multiline == old(self).multiline,
    {
        let range = self.ime_range_of(range16);
        let ghost before = *self;
        self.replace_range(range, new_text);
        let tl = byte_len(new_text);
        let cs = self.chars();
        let ghost after_sel = self.selected;
        proof {
            assert(after_sel.0 == range.0 + bytes(new_text@));
        }
        if tl == 0 {
            self.marked = None;
        } else {
            proof {
                lemma_boundary_le(before.content@, range.0 as int);
                let i = char_index(before.content@, range.0 as int);
                lemma_char_index(before.content@, range.0 as int, choose|k: int| at_char(before.content@, range.0 as int, k));
                let new = cs@;
                assert(new.subrange(0, i) =~= before.content@.subrange(0, i));
                assert(at_char(new, range.0 as int, i));
            }
            self.marked = Some((range.0, range.0 + tl));
        }
        match sel16 {
            Some(r) => {
                let a = offset_from_utf16(&cs, r.0);
                let b = offset_from_utf16(&cs, r.1);
                self.selected = (a + range.0, b + range.0);
            },
            None => {},
        }
    }

    /// The text of the input method's UTF-16 range, with the UTF-16 range it really covers.
    pub fn text_for_range(&self, range16: (usize, usize)) -> (r: (String, (usize, usize)))
        requires
            self.wf(),
            range16.0 <= range16.1,
        ensures
            ({
                let range = range_from_utf16(self.content@, range16);
                &&& r.0@ == between(self.content@, range.0, range.1)
                &&& r.1 == (to_utf16(self.content@, range.0) as usize, to_utf16(self.content@, range.1) as usize)
            }),
    {
        let cs = self.chars();
        let a = offset_from_utf16(&cs, range16.0);
        let b = offset_from_utf16(&cs, range16.1);
        proof {
            lemma_chars_for_units_monotonic(cs@, range16.0 as int, range16.1 as int);
            lemma_chars_for_bounds(cs@, range16.1 as int);
            lemma_char_index(cs@, a as int, chars_for_units(cs@, range16.0 as int));
            lemma_char_index(cs@, b as int, chars_for_units(cs@, range16.1 as int));
        }
        let i = char_at(&cs, a);
        let j = char_at(&cs, b);
        let text = self.content.as_str().substring_char(i, j).to_string();
        (text, (offset_to_utf16(&cs, a), offset_to_utf16(&cs, b)))
    }

    /// The selection in UTF-16 offsets, and whether the cursor is at its start.
    pub fn selected_text_range(&self) -> (r: ((usize, usize), bool))
        requires
            self.wf(),
        ensures
            r.0 == (
                to_utf16(self.content@, self.selected.0 as int) as usize,
                to_utf16(self.content@, self.selected.1 as int) as usize,
            ),
            r.1 == self.reversed,
    {
        let cs = self.chars();
        ((offset_to_utf16(&cs, self.selected.0), offset_to_utf16(&cs, self.selected.1)), self.reversed)
    }

    /// The composed text's range in UTF-16 offsets.
    pub fn marked_text_range(&self) -> (r: Option<(usize, usize)>)
        requires
            self.wf(),
        ensures
            match self.marked {
                Some(m) => r == Some(
                    (to_utf16(self.content@, m.0 as int) as usize, to_utf16(self.content@, m.1 as int) as usize),
                ),
                None => r is None,
            },
    {
        match self.marked {
            Some(m) => {
                let cs = self.chars();
                Some((offset_to_utf16(&cs, m.0), offset_to_utf16(&cs, m.1)))
            },
            None => None,
        }
    }

    /// The input method ends its composition; the text stays.
    pub fn unmark_text(&mut self)
        requires
            old(self).wf(),
        ensures
            final(self).wf(),
            final(self).marked is None,
            final(self).content == old(self).content,
            final(self).selected == old(self).selected,
            final(self).reversed == old(self).reversed,
            final(self).multiline == old(self).multiline,
    {
        self.marked = None;
    }

    /// The UTF-16 offset of a byte offset (what the input method is told of a point).
    pub fn utf16_offset(&self, offset: usize) -> (r: usize)
        requires
            self.wf(),
        ensures
            r == to_utf16(self.content@, offset as int),
    {
        let cs = self.chars();
        offset_to_utf16(&cs, offset)
    }

    /// The byte offset of an input method's UTF-16 offset.
    pub fn byte_offset(&self, offset16: usize) -> (r: usize)
        requires
            self.wf(),
        ensures
            r == from_utf16(self.content@, offset16 as int),
            is_boundary(self.content@, r as int),
    {
        let cs = self.chars();
        proof {
            lemma_from_utf16_boundary(cs@, offset16 as int);
        }
        offset_from_utf16(&cs, offset16)
    }

    /// Whether `offset` lies between two characters (or at an end).
    pub fn is_boundary(&self, offset: usize) -> (r: bool)
        ensures
            r == is_boundary(self.content@, offset as int),
    {
        let cs = self.chars();
        find_char(&cs, offset).is_some()
    }

    /// The styled runs the box draws, as (bytes, underlined): the placeholder's length when the
    /// box is empty; else the text, with the composed part underlined and empty runs left out.
    pub fn runs(&self, placeholder_len: usize) -> (r: Vec<(usize, bool)>)
        requires
            self.wf(),
        ensures
            self.content@.len() == 0 ==> r@ == seq![(placeholder_len, false)],
            self.content@.len() > 0 && self.marked is None ==> r@ == seq![(bytes(self.content@) as usize, false)],
            self.content@.len() > 0 ==> (self.marked matches Some(m) ==> r@ == marked_runs(
                bytes(self.content@),
                m,
            )),
    {
        let len = byte_len(self.content.as_str());
        if len == 0 {
            proof {
                if self.content@.len() > 0 {
                    reveal_with_fuel(bytes, 1);
                    assert(bytes(self.content@) >= 1);
                }
            }
            let mut v: Vec<(usize, bool)> = Vec::new();
            v.push((placeholder_len, false));
            return v;
        }
        proof {
            if self.content@.len() == 0 {
                assert(bytes(self.content@) == 0);
            }
        }
        match self.marked {
            Some(m) => {
                proof {
                    lemma_boundary_le(self.content@, m.1 as int);
                }
                let composed = m.1 - m.0;
                let rest = len - m.1;
                let all: Vec<(usize, bool)> = vec![(m.0, false), (composed, true), (rest, false)];
                let mut v: Vec<(usize, bool)> = Vec::new();
                let mut k: usize = 0;
                while k < 3
                    invariant
                        k <= 3,
                        all@.len() == 3,
                        v@ == all@.subrange(0, k as int).filter(|run: (usize, bool)| run.0 > 0),
                    decreases 3 - k,
                {
                    let ghost pre = all@.subrange(0, k as int + 1);
                    assert(pre.drop_last() =~= all@.subrange(0, k as int));
                    reveal(Seq::filter);
                    if all[k].0 > 0 {
                        v.push(all[k]);
                    }
                    k += 1;
                }
                assert(all@.subrange(0, 3) =~= all@);
                assert(all@ =~= runs_of(len as nat, m));
                v
            },
            None => {
                let mut v: Vec<(usize, bool)> = Vec::new();
                v.push((len, false));
                v
            },
        }
    }
}

/// Taking the bytes of the first `i` characters covers exactly those characters.
proof fn lemma_chars_for_prefix_bytes(s: Seq<char>, i: int)
    requires
        0 <= i <= s.len(),
    ensures
        chars_for_bytes(s, bytes(s.subrange(0, i)) as int) == i,
    decreases i,
{
    if i > 0 {
        let rest = s.drop_first();
        assert(s.subrange(0, i).drop_first() =~= rest.subrange(0, i - 1));
        assert(s.subrange(0, i)[0] == s[0]);
        lemma_chars_for_prefix_bytes(rest, i - 1);
    } else {
        assert(s.subrange(0, 0) =~= Seq::<char>::empty());
    }
}

/// Taking the UTF-16 units of the first `i` characters covers exactly those characters.
proof fn lemma_chars_for_prefix_units(s: Seq<char>, i: int)
    requires
        0 <= i <= s.len(),
    ensures
        chars_for_units(s, units(s.subrange(0, i)) as int) == i,
    decreases i,
{
    if i > 0 {
        let rest = s.drop_first();
        assert(s.subrange(0, i).drop_first() =~= rest.subrange(0, i - 1));
        assert(s.subrange(0, i)[0] == s[0]);
        lemma_chars_for_prefix_units(rest, i - 1);
    } else {
        assert(s.subrange(0, 0) =~= Seq::<char>::empty());
    }
}

/// An offset between two characters survives the trip to UTF-16 and back; so does every UTF-16
/// offset between two characters the other way.
pub proof fn law_utf16_round_trip(s: Seq<char>, b: int, i: int)
    requires
        at_char(s, b, i),
    ensures
        from_utf16(s, to_utf16(s, b) as int) == b,
        to_utf16(s, from_utf16(s, units(s.subrange(0, i)) as int) as int) == units(s.subrange(0, i)),
{
    lemma_chars_for_prefix_bytes(s, i);
    lemma_chars_for_prefix_units(s, i);
}

} // verus!
