//! Bumping a rule: rewriting its marker with the next version.

use vstd::prelude::*;
use vstd::string::StringSliceAdditionalSpecFns;
use vstd::utf8::encode_utf8;
use crate::index::{definition_of, find_definition, Definition};
use crate::marker::RawMarker;
use crate::text::{chars_of, same_chars, trim_chars, trimmed};
use crate::text::{is_char_range, push_all, push_decimal, push_str, string_of, substring};

verus! {

/// Whether `out` is the text `s` with the rule id of the marker `m` in its
/// next version: what stands before the id, the id with the version after
/// its own, and what stands behind it, from the closing bracket on.
pub open spec fn is_bumped(out: Seq<char>, s: Seq<u8>, m: RawMarker) -> bool {
    exists|head: Seq<char>, tail: Seq<char>|
        #![trigger encode_utf8(head), encode_utf8(tail)]
        {
            &&& encode_utf8(head) == s.subrange(0, m.id_start as int)
            &&& encode_utf8(tail) == s.subrange(m.end - 1, s.len() as int)
            &&& out == head + (m.id.base@ + seq!['+'] + crate::text::decimal((m.id.version + 1) as nat))
                + tail
        }
}

/// Whether the marker can be bumped in the text: its id lies within the
/// text, between the edges of characters, and its version is not the last.
pub open spec fn can_bump(s: Seq<u8>, m: RawMarker) -> bool {
    &&& m.id.version < u32::MAX
    &&& m.end >= 1
    &&& is_char_range(s, 0, m.id_start as int)
    &&& is_char_range(s, m.end - 1, s.len() as int)
}

/// Rewrites the marker `marker` of `content` with the next version of its
/// rule: `r[auth.login]` becomes `r[auth.login+2]`.
pub fn bump_marker(content: &str, marker: &RawMarker) -> (bumped: Option<String>)
    ensures
        match bumped {
            Some(text) => can_bump(content.spec_bytes(), *marker) && is_bumped(
                text@,
                content.spec_bytes(),
                *marker,
            ),
            None => !can_bump(content.spec_bytes(), *marker),
        },
{
    let len = content.as_bytes().len();
    if marker.id.version == 0xffff_ffff || marker.end < 1 {
        return None;
    }
    let head = match substring(content, 0, marker.id_start) {
        Some(head) => head,
        None => {
            return None;
        },
    };
    let tail = match substring(content, marker.end - 1, len) {
        Some(tail) => tail,
        None => {
            return None;
        },
    };
    let mut out: Vec<char> = Vec::new();
    push_str(&mut out, head);
    let mut id: Vec<char> = Vec::new();
    push_str(&mut id, marker.id.base.as_str());
    id.push('+');
    push_decimal(&mut id, (marker.id.version + 1) as u64);
    push_all(&mut out, id.as_slice());
    push_str(&mut out, tail);
    proof {
        let s = content.spec_bytes();
        assert(encode_utf8(head@) == s.subrange(0, marker.id_start as int));
        assert(encode_utf8(tail@) == s.subrange(marker.end - 1, s.len() as int));
        assert(id@ == marker.id.base@ + seq!['+'] + crate::text::decimal(
            (marker.id.version + 1) as nat,
        ));
        assert(out@ == head@ + id@ + tail@);
        assert(is_bumped(out@, s, *marker));
    }
    Some(string_of(out.as_slice()))
}

/// Whether the definition `d` changed the text of its rule and kept the
/// version: `before` defines the rule in the same version with another text.
/// White space at the ends of a text does not count.
pub open spec fn needs_bump(before: Seq<Definition>, d: Definition) -> bool {
    let at = definition_of(before, d.id.base@, 0);
    at >= 0 && before[at].id.version == d.id.version && trimmed(before[at].text@) != trimmed(
        d.text@,
    )
}

/// The definitions among the first `upto` that need a bump, by their place.
pub open spec fn unbumped(before: Seq<Definition>, after: Seq<Definition>, upto: int) -> Seq<usize>
    decreases upto,
{
    if upto <= 0 {
        Seq::empty()
    } else {
        let head = unbumped(before, after, upto - 1);
        if needs_bump(before, after[upto - 1]) {
            head.push((upto - 1) as usize)
        } else {
            head
        }
    }
}

/// The rules whose text changed without a new version: the definitions of
/// `after`, by their place, that `before` holds in the same version with
/// another text.
pub fn changed_without_bump(before: &Vec<Definition>, after: &Vec<Definition>) -> (changed: Vec<usize>)
    ensures
        changed@ == unbumped(before@, after@, after@.len() as int),
{
    let mut changed: Vec<usize> = Vec::new();
    let mut j: usize = 0;
    while j < after.len()
        invariant
            j <= after@.len(),
            changed@ == unbumped(before@, after@, j as int),
        decreases after@.len() - j,
    {
        let d = &after[j];
        match find_definition(before, d.id.base.as_str()) {
            Some(at) => {
                let old_text = trim_chars(chars_of(before[at].text.as_str()).as_slice());
                let new_text = trim_chars(chars_of(d.text.as_str()).as_slice());
                if before[at].id.version == d.id.version && !same_chars(
                    old_text.as_slice(),
                    new_text.as_slice(),
                ) {
                    changed.push(j);
                }
            },
            None => {},
        }
        j += 1;
    }
    changed
}

} // verus!
