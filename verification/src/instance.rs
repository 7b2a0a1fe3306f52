//! The names of the kernel objects that keep one copy of the app running.

use vstd::prelude::*;
use crate::text::chars_of;

verus! {

/// The UTF-16 code units of a character.
pub open spec fn utf16_units(c: char) -> Seq<u16> {
    let v = c as int;
    if v < 0x10000 {
        seq![v as u16]
    } else {
        seq![(0xD800 + (v - 0x10000) / 0x400) as u16, (0xDC00 + (v - 0x10000) % 0x400) as u16]
    }
}

/// The UTF-16 encoding of a text.
pub open spec fn utf16(s: Seq<char>) -> Seq<u16>
    decreases s.len(),
{
    if s.len() == 0 {
        Seq::empty()
    } else {
        utf16(s.drop_last()) + utf16_units(s.last())
    }
}

fn push_utf16(out: &mut Vec<u16>, c: char)
    ensures
        final(out)@ == old(out)@ + utf16_units(c),
{
    let v = c as u32;
    assert(v == c as int);
    if v < 0x10000 {
        out.push(v as u16);
    } else {
        let u = v - 0x10000;
        out.push((0xD800 + u / 0x400) as u16);
        out.push((0xDC00 + u % 0x400) as u16);
    }
    assert(final(out)@ =~= old(out)@ + utf16_units(c));
}

pub open spec fn spec_object_name(app_id: Seq<char>, suffix: Seq<char>) -> Seq<u16> {
    utf16("Local\\"@ + app_id + "-"@ + suffix).push(0)
}

/// The null-terminated UTF-16 name of a kernel object, `Local\<app id>-<suffix>`.
pub fn object_name(app_id: &str, suffix: &str) -> (r: Vec<u16>)
    ensures
        r@ == spec_object_name(app_id@, suffix@),
{
    let mut name = "Local\\".to_string();
    name.append(app_id);
    name.append("-");
    name.append(suffix);
    let cs = chars_of(name.as_str());
    let mut out: Vec<u16> = Vec::new();
    let mut i: usize = 0;
    while i < cs.len()
        invariant
            i <= cs.len(),
            out@ == utf16(cs@.subrange(0, i as int)),
        decreases cs.len() - i,
    {
        let ghost prefix = cs@.subrange(0, i as int + 1);
        assert(prefix.drop_last() =~= cs@.subrange(0, i as int));
        push_utf16(&mut out, cs[i]);
        i += 1;
    }
    assert(cs@.subrange(0, cs.len() as int) =~= cs@);
    out.push(0);
    out
}

} // verus!
