//! Source files: which bytes stand inside comments, where alone markers are
//! recognized.

use vstd::prelude::*;
use vstd::string::StringSliceAdditionalSpecFns;
use crate::index::Reference;
use crate::marker::{ascii, markers_from, scan_markers, show_all, MarkerView, RefVerb};
use crate::spec_loader::{copy_id, count_newlines, lemma_newlines_bound, newlines_before};

verus! {

/// Where the scan of a source file stands.
#[derive(Debug, Clone, Copy, PartialEq, Eq, Structural)]
pub enum Lex {
    /// In code.
    Code,
    /// In a string literal.
    Text,
    /// In a comment that ends with its line.
    LineComment,
    /// In a comment that ends with `*/`.
    BlockComment,
}

/// Whether `a` and then `b` stand at `i`.
pub open spec fn pair_at(s: Seq<u8>, i: int, a: u8, b: u8) -> bool {
    0 <= i && i + 1 < s.len() && s[i] == a && s[i + 1] == b
}

/// The comment flags of the bytes from `from` on, for a scan that stands in
/// `state` there. A line comment runs from `//` to the end of its line, a
/// block comment from `/*` to `*/`, both with their delimiters; neither
/// starts inside a string literal, which runs from `"` to the next `"` that
/// no backslash escapes.
pub open spec fn comment_flags(s: Seq<u8>, from: int, state: Lex) -> Seq<bool>
    decreases s.len() - from,
{
    if from < 0 || from >= s.len() {
        Seq::empty()
    } else {
        match state {
            Lex::Code => if pair_at(s, from, 0x2f, 0x2f) {
                seq![true, true] + comment_flags(s, from + 2, Lex::LineComment)
            } else if pair_at(s, from, 0x2f, 0x2a) {
                seq![true, true] + comment_flags(s, from + 2, Lex::BlockComment)
            } else if s[from] == 0x22 {
                seq![false] + comment_flags(s, from + 1, Lex::Text)
            } else {
                seq![false] + comment_flags(s, from + 1, Lex::Code)
            },
            Lex::Text => if s[from] == 0x5c && from + 1 < s.len() {
                seq![false, false] + comment_flags(s, from + 2, Lex::Text)
            } else if s[from] == 0x22 {
                seq![false] + comment_flags(s, from + 1, Lex::Code)
            } else {
                seq![false] + comment_flags(s, from + 1, Lex::Text)
            },
            Lex::LineComment => if s[from] == 0x0a {
                seq![false] + comment_flags(s, from + 1, Lex::Code)
            } else {
                seq![true] + comment_flags(s, from + 1, Lex::LineComment)
            },
            Lex::BlockComment => if pair_at(s, from, 0x2a, 0x2f) {
                seq![true, true] + comment_flags(s, from + 2, Lex::Code)
            } else {
                seq![true] + comment_flags(s, from + 1, Lex::BlockComment)
            },
        }
    }
}

/// There is one flag for each byte.
pub proof fn lemma_comment_flags_len(s: Seq<u8>, from: int, state: Lex)
    requires
        0 <= from <= s.len(),
    ensures
        comment_flags(s, from, state).len() == s.len() - from,
    decreases s.len() - from,
{
    if from < s.len() {
        match state {
            Lex::Code => {
                if pair_at(s, from, 0x2f, 0x2f) {
                    lemma_comment_flags_len(s, from + 2, Lex::LineComment);
                } else if pair_at(s, from, 0x2f, 0x2a) {
                    lemma_comment_flags_len(s, from + 2, Lex::BlockComment);
                } else if s[from] == 0x22 {
                    lemma_comment_flags_len(s, from + 1, Lex::Text);
                } else {
                    lemma_comment_flags_len(s, from + 1, Lex::Code);
                }
            },
            Lex::Text => {
                if s[from] == 0x5c && from + 1 < s.len() {
                    lemma_comment_flags_len(s, from + 2, Lex::Text);
                } else if s[from] == 0x22 {
                    lemma_comment_flags_len(s, from + 1, Lex::Code);
                } else {
                    lemma_comment_flags_len(s, from + 1, Lex::Text);
                }
            },
            Lex::LineComment => {
                if s[from] == 0x0a {
                    lemma_comment_flags_len(s, from + 1, Lex::Code);
                } else {
                    lemma_comment_flags_len(s, from + 1, Lex::LineComment);
                }
            },
            Lex::BlockComment => {
                if pair_at(s, from, 0x2a, 0x2f) {
                    lemma_comment_flags_len(s, from + 2, Lex::Code);
                } else {
                    lemma_comment_flags_len(s, from + 1, Lex::BlockComment);
                }
            },
        }
    }
}

fn pair(s: &[u8], i: usize, a: u8, b: u8) -> (yes: bool)
    requires
        i < s@.len(),
    ensures
        yes == pair_at(s@, i as int, a, b),
{
    let len = s.len();
    i < len - 1 && s[i] == a && s[i + 1] == b
}

/// The comment mask of a source text: one flag for each byte, set where the
/// byte stands in a comment.
pub fn comment_mask(text: &str) -> (mask: Vec<bool>)
    ensures
        mask@ == comment_flags(text.spec_bytes(), 0, Lex::Code),
        mask@.len() == text.spec_bytes().len(),
{
    let s = text.as_bytes();
    let mut mask: Vec<bool> = Vec::new();
    let mut state = Lex::Code;
    let mut i: usize = 0;
    while i < s.len()
        invariant
            i <= s@.len(),
            s@ == text.spec_bytes(),
            comment_flags(s@, 0, Lex::Code) == mask@ + comment_flags(s@, i as int, state),
        decreases s@.len() - i,
    {
        let ghost before = mask@;
        let ghost rest = comment_flags(s@, i as int, state);
        let mut step: usize = 1;
        let mut flag = false;
        let mut next = state;
        match state {
            Lex::Code => {
                if pair(s, i, 0x2f, 0x2f) {
                    step = 2;
                    flag = true;
                    next = Lex::LineComment;
                } else if pair(s, i, 0x2f, 0x2a) {
                    step = 2;
                    flag = true;
                    next = Lex::BlockComment;
                } else if s[i] == 0x22 {
                    next = Lex::Text;
                }
            },
            Lex::Text => {
                if s[i] == 0x5c && i + 1 < s.len() {
                    step = 2;
                } else if s[i] == 0x22 {
                    next = Lex::Code;
                }
            },
            Lex::LineComment => {
                if s[i] == 0x0a {
                    next = Lex::Code;
                } else {
                    flag = true;
                }
            },
            Lex::BlockComment => {
                flag = true;
                if pair(s, i, 0x2a, 0x2f) {
                    step = 2;
                    next = Lex::Code;
                }
            },
        }
        mask.push(flag);
        if step == 2 {
            mask.push(flag);
            assert(before + (seq![flag, flag] + comment_flags(s@, i + 2, next)) == mask@
                + comment_flags(s@, i + 2, next));
        } else {
            assert(before + (seq![flag] + comment_flags(s@, i + 1, next)) == mask@ + comment_flags(
                s@,
                i + 1,
                next,
            ));
        }
        i += step;
        state = next;
    }
    proof {
        assert(mask@ + Seq::<bool>::empty() == mask@);
        lemma_comment_flags_len(s@, 0, Lex::Code);
    }
    mask
}

/// Whether `pattern` stands in `s` at `at`, within the first `end` bytes.
pub open spec fn stands_at(s: Seq<u8>, pattern: Seq<u8>, at: int, end: int) -> bool {
    0 <= at && at + pattern.len() <= end <= s.len() && s.subrange(at, at + pattern.len()) == pattern
}

/// Whether `pattern` occurs in `s[from..end]`.
pub open spec fn occurs_between(s: Seq<u8>, pattern: Seq<u8>, from: int, end: int) -> bool {
    exists|at: int| from <= at && #[trigger] stands_at(s, pattern, at, end)
}

/// The number of bytes of the line that starts at `from`, with its line
/// feed.
pub open spec fn full_line_len(s: Seq<u8>, from: int) -> nat
    decreases s.len() - from,
{
    if from < 0 || from >= s.len() {
        0
    } else if s[from] == 0x0a {
        1
    } else {
        1 + full_line_len(s, from + 1)
    }
}

/// A line ends within the text.
pub proof fn lemma_full_line_bound(s: Seq<u8>, from: int)
    requires
        0 <= from <= s.len(),
    ensures
        from + full_line_len(s, from) <= s.len(),
        from < s.len() ==> full_line_len(s, from) > 0,
    decreases s.len() - from,
{
    if from < s.len() && s[from] != 0x0a {
        lemma_full_line_bound(s, from + 1);
    }
}

/// The pragma that suppresses the line after it.
pub open spec fn ignore_next_line() -> Seq<u8> {
    "@tracey:ignore-next-line".spec_bytes()
}

/// The pragma that opens a suppressed region.
pub open spec fn ignore_start() -> Seq<u8> {
    "@tracey:ignore-start".spec_bytes()
}

/// The pragma that closes a suppressed region.
pub open spec fn ignore_end() -> Seq<u8> {
    "@tracey:ignore-end".spec_bytes()
}

/// For each byte from the line start `from` on, whether a pragma suppresses
/// the recognition of markers there. A line is suppressed where the line
/// before it holds the pragma for the next line (`skip`), and where it lies
/// in a region (`region`): after a line with the start pragma, up to and
/// with the line with the end pragma.
pub open spec fn suppressed_flags(s: Seq<u8>, from: int, skip: bool, region: bool) -> Seq<bool>
    decreases s.len() - from,
{
    if from < 0 || from >= s.len() {
        Seq::empty()
    } else {
        let end = from + full_line_len(s, from);
        let region_after = if occurs_between(s, ignore_end(), from, end) {
            false
        } else if occurs_between(s, ignore_start(), from, end) {
            true
        } else {
            region
        };
        proof {
            lemma_full_line_bound(s, from);
        }
        Seq::new((end - from) as nat, |i: int| skip || region) + suppressed_flags(
            s,
            end,
            occurs_between(s, ignore_next_line(), from, end),
            region_after,
        )
    }
}

/// Where a marker may start in a source text: inside a comment, unless a
/// pragma suppresses the line.
pub open spec fn source_eligibility(s: Seq<u8>) -> Seq<bool> {
    let comments = comment_flags(s, 0, Lex::Code);
    let suppressed = suppressed_flags(s, 0, false, false);
    Seq::new(
        s.len(),
        |i: int| i < comments.len() && comments[i] && !(i < suppressed.len() && suppressed[i]),
    )
}

/// Whether `pattern` occurs in `s[from..end]`.
fn occurs(s: &[u8], pattern: &[u8], from: usize, end: usize) -> (yes: bool)
    requires
        from <= end <= s@.len(),
    ensures
        yes == occurs_between(s@, pattern@, from as int, end as int),
{
    if pattern.len() > end - from {
        assert forall|at: int| from <= at implies !#[trigger] stands_at(s@, pattern@, at, end as int) by {}
        return false;
    }
    let last = end - pattern.len();
    let mut at: usize = from;
    while at <= last
        invariant
            from <= at <= last + 1,
            last + pattern@.len() == end <= s@.len(),
            forall|k: int| from <= k < at ==> !#[trigger] stands_at(s@, pattern@, k, end as int),
        decreases last + 1 - at,
    {
        let mut i: usize = 0;
        while i < pattern.len() && s[at + i] == pattern[i]
            invariant
                i <= pattern@.len(),
                at + pattern@.len() <= end <= s@.len(),
                forall|k: int| 0 <= k < i ==> s@[at + k] == pattern@[k],
            decreases pattern@.len() - i,
        {
            i += 1;
        }
        if i == pattern.len() {
            assert(s@.subrange(at as int, at + pattern@.len()) =~= pattern@);
            assert(stands_at(s@, pattern@, at as int, end as int));
            return true;
        }
        assert(s@.subrange(at as int, at + pattern@.len())[i as int] != pattern@[i as int]);
        at += 1;
    }
    assert forall|k: int| from <= k implies !#[trigger] stands_at(s@, pattern@, k, end as int) by {}
    false
}

/// The suppression flags of a source text: one flag for each byte, set where
/// a pragma suppresses the recognition of markers.
pub fn suppression_mask(text: &str) -> (mask: Vec<bool>)
    ensures
        mask@ == suppressed_flags(text.spec_bytes(), 0, false, false),
{
    let s = text.as_bytes();
    let next_pragma = "@tracey:ignore-next-line".as_bytes();
    let start_pragma = "@tracey:ignore-start".as_bytes();
    let end_pragma = "@tracey:ignore-end".as_bytes();
    let mut mask: Vec<bool> = Vec::new();
    let mut skip = false;
    let mut region = false;
    let mut from: usize = 0;
    while from < s.len()
        invariant
            from <= s@.len(),
            s@ == text.spec_bytes(),
            next_pragma@ == ignore_next_line(),
            start_pragma@ == ignore_start(),
            end_pragma@ == ignore_end(),
            suppressed_flags(s@, 0, false, false) == mask@ + suppressed_flags(
                s@,
                from as int,
                skip,
                region,
            ),
        decreases s@.len() - from,
    {
        let mut end: usize = from;
        while end < s.len() && s[end] != 0x0a
            invariant
                from <= end <= s@.len(),
                from + full_line_len(s@, from as int) == end + full_line_len(s@, end as int),
            decreases s@.len() - end,
        {
            end += 1;
        }
        if end < s.len() {
            end += 1;
        }
        let ghost before = mask@;
        let flag = skip || region;
        let mut i: usize = from;
        while i < end
            invariant
                from <= i <= end,
                mask@ == before + Seq::new((i - from) as nat, |k: int| flag),
            decreases end - i,
        {
            mask.push(flag);
            i += 1;
        }
        let has_next = occurs(s, next_pragma, from, end);
        let has_end = occurs(s, end_pragma, from, end);
        let has_start = occurs(s, start_pragma, from, end);
        let region_after = if has_end {
            false
        } else if has_start {
            true
        } else {
            region
        };
        proof {
            let line = Seq::new((end - from) as nat, |k: int| flag);
            crate::text::lemma_concat_assoc(
                before,
                line,
                suppressed_flags(s@, end as int, has_next, region_after),
            );
        }
        skip = has_next;
        region = region_after;
        from = end;
    }
    assert(mask@ + Seq::<bool>::empty() == mask@);
    mask
}

/// The mask of a source text that says where markers are recognized: in
/// comments, outside the lines that pragmas suppress.
pub fn source_mask(text: &str) -> (mask: Vec<bool>)
    ensures
        mask@ == source_eligibility(text.spec_bytes()),
{
    let comments = comment_mask(text);
    let suppressed = suppression_mask(text);
    let len = text.as_bytes().len();
    let mut mask: Vec<bool> = Vec::new();
    let mut i: usize = 0;
    while i < len
        invariant
            i <= len,
            len == text.spec_bytes().len(),
            mask@.len() == i,
            forall|k: int|
                0 <= k < i ==> mask@[k] == (k < comments@.len() && comments@[k] && !(k
                    < suppressed@.len() && suppressed@[k])),
        decreases len - i,
    {
        mask.push(i < comments.len() && comments[i] && !(i < suppressed.len() && suppressed[i]));
        i += 1;
    }
    assert(mask@ == source_eligibility(text.spec_bytes()));
    mask
}

/// The verb of a marker in a source file: a marker without verb implements
/// its rule, and so does one that says `define`.
pub open spec fn source_verb(verb: Option<RefVerb>) -> RefVerb {
    match verb {
        None | Some(RefVerb::Define) => RefVerb::Impl,
        Some(other) => other,
    }
}

/// Whether `r` is the reference that the marker `m` makes in `file`.
pub open spec fn is_source_ref(r: Reference, file: Seq<char>, s: Seq<u8>, m: MarkerView) -> bool {
    &&& r.verb == source_verb(m.verb)
    &&& r.id.names((m.base, m.version))
    &&& r.prefix@ == ascii(m.prefix)
    &&& r.file@ == file
    &&& r.line == newlines_before(s, m.start) + 1
    &&& r.start == m.start
    &&& r.end == m.end
}

/// Whether `refs` holds the references that `markers` make in `file`, one
/// for each and in their order.
pub open spec fn are_source_refs(
    refs: Seq<Reference>,
    file: Seq<char>,
    s: Seq<u8>,
    markers: Seq<MarkerView>,
) -> bool {
    &&& refs.len() == markers.len()
    &&& forall|n: int| 0 <= n < refs.len() ==> is_source_ref(#[trigger] refs[n], file, s, markers[n])
}

/// The references of a source file: one for each marker that starts inside
/// a comment and is not suppressed by a pragma, in the order of the text.
pub fn scan_source_file(file: &str, text: &str) -> (refs: Vec<Reference>)
    ensures
        are_source_refs(
            refs@,
            file@,
            text.spec_bytes(),
            markers_from(text.spec_bytes(), source_eligibility(text.spec_bytes()), 0),
        ),
{
    let s = text.as_bytes();
    let mask = source_mask(text);
    let markers = scan_markers(text, mask.as_slice());
    let ghost mv = markers_from(s@, mask@, 0);
    proof {
        crate::marker::lemma_markers_eligible(s@, mask@, 0);
    }
    let mut refs: Vec<Reference> = Vec::new();
    let mut counted_to: usize = 0;
    let mut newlines: usize = 0;
    let mut n: usize = 0;
    while n < markers.len()
        invariant
            n <= markers@.len(),
            s@ == text.spec_bytes(),
            show_all(markers@, mv),
            forall|i: int| 0 <= i < mv.len() ==> 0 <= (#[trigger] mv[i]).start < mv[i].end <= s@.len(),
            counted_to <= s@.len(),
            newlines == newlines_before(s@, counted_to as int),
            refs@.len() == n,
            forall|k: int| 0 <= k < n ==> is_source_ref(#[trigger] refs@[k], file@, s@, mv[k]),
        decreases markers@.len() - n,
    {
        let m = &markers[n];
        assert(m.shows(mv[n as int]));
        assert(mv[n as int].start < mv[n as int].end <= s@.len());
        if m.start < counted_to {
            counted_to = 0;
            newlines = 0;
        }
        newlines = count_newlines(s, counted_to, m.start, newlines);
        counted_to = m.start;
        proof {
            lemma_newlines_bound(s@, m.start as int);
        }
        let verb = match m.verb {
            None => RefVerb::Impl,
            Some(RefVerb::Define) => RefVerb::Impl,
            Some(other) => other,
        };
        refs.push(
            Reference {
                file: file.to_owned(),
                prefix: m.prefix.clone(),
                verb,
                id: copy_id(&m.id),
                line: newlines + 1,
                start: m.start,
                end: m.end,
            },
        );
        n += 1;
    }
    refs
}

} // verus!
