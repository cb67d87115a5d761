//! Loading a spec: the definitions and references of its Markdown files, the
//! one definition that counts for each rule, and the prefix that the spec
//! uses.

use vstd::prelude::*;
use vstd::string::StringSliceAdditionalSpecFns;
use vstd::utf8::encode_utf8;
use crate::config::Config;
use crate::index::{definition_of, find_definition, lemma_definition_of, Definition, Reference};
use crate::text::{push_str, string_of};
use crate::markdown::is_line_start;
use crate::marker::{
    ascii, lemma_markers_eligible, marker_at, markers_from, scan_markers, show_all, MarkerView,
    RawMarker, RefVerb, RuleId,
};
use crate::text::{is_char_range, str_same, substring};

verus! {

/// What a marker in a Markdown file is.
#[derive(Debug, Clone, Copy, PartialEq, Eq, Structural)]
pub enum MarkdownRole {
    /// It declares a rule.
    Definition,
    /// It refers to a rule, with this verb.
    Reference(RefVerb),
}

/// The role of a marker in a Markdown file. A marker without verb, or with
/// the verb `define`, declares a rule where it stands in plain text; in an
/// inline code span it is a reference to a related rule. A marker with any
/// other verb is a reference with that verb.
pub open spec fn markdown_role(verb: Option<RefVerb>, in_code: bool) -> MarkdownRole {
    match verb {
        None | Some(RefVerb::Define) => if in_code {
            MarkdownRole::Reference(RefVerb::Related)
        } else {
            MarkdownRole::Definition
        },
        Some(other) => MarkdownRole::Reference(other),
    }
}

/// Whether the mask is set at `at`.
pub open spec fn mask_at(mask: Seq<bool>, at: int) -> bool {
    0 <= at < mask.len() && mask[at]
}

/// Decides the role of a marker from its verb and from whether it stands in
/// an inline code span.
pub fn role_of(verb: Option<RefVerb>, in_code: bool) -> (role: MarkdownRole)
    ensures
        role == markdown_role(verb, in_code),
{
    match verb {
        None => if in_code {
            MarkdownRole::Reference(RefVerb::Related)
        } else {
            MarkdownRole::Definition
        },
        Some(RefVerb::Define) => if in_code {
            MarkdownRole::Reference(RefVerb::Related)
        } else {
            MarkdownRole::Definition
        },
        Some(other) => MarkdownRole::Reference(other),
    }
}

/// The start of the first heading line in `from..limit`, or `limit`.
pub open spec fn heading_from(s: Seq<u8>, from: int, limit: int) -> int
    decreases limit - from,
{
    if from >= limit {
        limit
    } else if is_line_start(s, from) && s[from] == 0x23 {
        from
    } else {
        heading_from(s, from + 1, limit)
    }
}

/// The start of the first definition among the markers from `from` on, or
/// `len` where none follows.
pub open spec fn next_definition(markers: Seq<MarkerView>, code: Seq<bool>, from: int, len: int) -> int
    decreases markers.len() - from,
{
    if from < 0 || from >= markers.len() {
        len
    } else if markdown_role(markers[from].verb, mask_at(code, markers[from].start))
        == MarkdownRole::Definition {
        markers[from].start
    } else {
        next_definition(markers, code, from + 1, len)
    }
}

/// Where the body of the definition at `n` ends: at the next definition or
/// the next heading, whichever comes first, or at the end of the text.
pub open spec fn body_end(s: Seq<u8>, markers: Seq<MarkerView>, code: Seq<bool>, n: int) -> int {
    heading_from(s, markers[n].end, next_definition(markers, code, n + 1, s.len() as int))
}

/// The number of line feeds before `offset`.
pub open spec fn newlines_before(s: Seq<u8>, offset: int) -> nat
    decreases offset,
{
    if offset <= 0 || offset > s.len() {
        0
    } else {
        newlines_before(s, offset - 1) + if s[offset - 1] == 0x0a {
            1nat
        } else {
            0nat
        }
    }
}

/// The raw text of a body: the bytes of `start..end`, where that range cuts
/// the text at the edges of characters; nothing else.
pub open spec fn body_bytes(s: Seq<u8>, start: int, end: int) -> Seq<u8> {
    if is_char_range(s, start, end) {
        s.subrange(start, end)
    } else {
        Seq::empty()
    }
}

/// Whether `d` is the definition that the marker at `n` declares in `file`.
pub open spec fn is_definition_at(
    d: Definition,
    file: Seq<char>,
    s: Seq<u8>,
    markers: Seq<MarkerView>,
    code: Seq<bool>,
    n: int,
) -> bool {
    let m = markers[n];
    &&& d.id.names((m.base, m.version))
    &&& d.prefix@ == ascii(m.prefix)
    &&& d.file@ == file
    &&& d.line == newlines_before(s, m.start) + 1
    &&& d.start == m.start
    &&& d.end == m.end
    &&& encode_utf8(d.text@) == body_bytes(s, m.end, body_end(s, markers, code, n))
    &&& d.previous_text.is_none()
    &&& d.previous_version.is_none()
}

/// Whether `r` is the reference that the marker at `n` makes in `file`.
pub open spec fn is_reference_at(
    r: Reference,
    file: Seq<char>,
    s: Seq<u8>,
    markers: Seq<MarkerView>,
    code: Seq<bool>,
    n: int,
) -> bool {
    let m = markers[n];
    &&& markdown_role(m.verb, mask_at(code, m.start)) == MarkdownRole::Reference(r.verb)
    &&& r.id.names((m.base, m.version))
    &&& r.prefix@ == ascii(m.prefix)
    &&& r.file@ == file
    &&& r.line == newlines_before(s, m.start) + 1
    &&& r.start == m.start
    &&& r.end == m.end
}

/// The markers among the first `upto` that are definitions, or those that
/// are references, by their place.
pub open spec fn places(markers: Seq<MarkerView>, code: Seq<bool>, definitions: bool, upto: int) -> Seq<
    int,
>
    decreases upto,
{
    if upto <= 0 {
        Seq::empty()
    } else {
        let head = places(markers, code, definitions, upto - 1);
        let m = markers[upto - 1];
        if (markdown_role(m.verb, mask_at(code, m.start)) == MarkdownRole::Definition) == definitions {
            head.push(upto - 1)
        } else {
            head
        }
    }
}

/// The definitions and the references of one Markdown file.
#[derive(Debug)]
pub struct SpecFile {
    pub definitions: Vec<Definition>,
    pub references: Vec<Reference>,
}

/// Whether `found` holds what the markers of a Markdown file give: each
/// definition and each reference, in document order.
pub open spec fn is_spec_file(
    found: SpecFile,
    file: Seq<char>,
    s: Seq<u8>,
    markers: Seq<MarkerView>,
    code: Seq<bool>,
) -> bool {
    let defs = places(markers, code, true, markers.len() as int);
    let refs = places(markers, code, false, markers.len() as int);
    &&& found.definitions@.len() == defs.len()
    &&& found.references@.len() == refs.len()
    &&& forall|j: int|
        0 <= j < defs.len() ==> is_definition_at(
            #[trigger] found.definitions@[j],
            file,
            s,
            markers,
            code,
            defs[j],
        )
    &&& forall|j: int|
        0 <= j < refs.len() ==> is_reference_at(
            #[trigger] found.references@[j],
            file,
            s,
            markers,
            code,
            refs[j],
        )
}

/// The flags of `mask`, each turned around, for a text of `len` bytes.
pub fn negate(mask: &[bool], len: usize) -> (out: Vec<bool>)
    ensures
        out@.len() == len,
        forall|i: int| 0 <= i < len ==> #[trigger] out@[i] == !mask_at(mask@, i),
{
    let mut out: Vec<bool> = Vec::new();
    let mut i: usize = 0;
    while i < len
        invariant
            i <= len,
            out@.len() == i,
            forall|k: int| 0 <= k < i ==> #[trigger] out@[k] == !mask_at(mask@, k),
        decreases len - i,
    {
        out.push(!(i < mask.len() && mask[i]));
        i += 1;
    }
    out
}

/// The mask that allows a marker wherever `fence` does not hold a fenced
/// code block.
pub open spec fn outside_fences(fence: Seq<bool>, len: int) -> Seq<bool> {
    Seq::new(len as nat, |i: int| !mask_at(fence, i))
}

pub(crate) fn count_newlines(s: &[u8], from: usize, to: usize, already: usize) -> (count: usize)
    requires
        from <= to <= s@.len(),
        already == newlines_before(s@, from as int),
    ensures
        count == newlines_before(s@, to as int),
{
    let mut count = already;
    let mut i: usize = from;
    proof {
        lemma_newlines_bound(s@, from as int);
    }
    while i < to
        invariant
            from <= i <= to <= s@.len(),
            count == newlines_before(s@, i as int),
            count <= i,
        decreases to - i,
    {
        if s[i] == 0x0a {
            count += 1;
        }
        i += 1;
    }
    count
}

/// There are no more line feeds before an offset than bytes.
pub proof fn lemma_newlines_bound(s: Seq<u8>, offset: int)
    ensures
        newlines_before(s, offset) <= if offset < 0 {
            0
        } else {
            offset
        },
    decreases offset,
{
    if 0 < offset <= s.len() {
        lemma_newlines_bound(s, offset - 1);
    }
}

fn body_stop(s: &[u8], from: usize, limit: usize) -> (stop: usize)
    requires
        from <= limit <= s@.len(),
    ensures
        stop == heading_from(s@, from as int, limit as int),
        from <= stop <= limit,
{
    let mut i: usize = from;
    while i < limit
        invariant
            from <= i <= limit <= s@.len(),
            heading_from(s@, from as int, limit as int) == heading_from(s@, i as int, limit as int),
        decreases limit - i,
    {
        if (i == 0 || s[i - 1] == 0x0a) && s[i] == 0x23 {
            return i;
        }
        i += 1;
    }
    limit
}

fn next_definition_start(markers: &Vec<RawMarker>, code_mask: &[bool], from: usize, len: usize) -> (start:
    usize)
    ensures
        forall|mv: Seq<MarkerView>|
            show_all(markers@, mv) ==> start == #[trigger] next_definition(
                mv,
                code_mask@,
                from as int,
                len as int,
            ),
{
    let mut i: usize = from;
    while i < markers.len()
        invariant
            from <= i,
            forall|mv: Seq<MarkerView>|
                show_all(markers@, mv) ==> #[trigger] next_definition(
                    mv,
                    code_mask@,
                    from as int,
                    len as int,
                ) == next_definition(mv, code_mask@, i as int, len as int),
        decreases markers@.len() - i,
    {
        let m = &markers[i];
        let in_code = m.start < code_mask.len() && code_mask[m.start];
        match role_of(m.verb, in_code) {
            MarkdownRole::Definition => {
                assert forall|mv: Seq<MarkerView>| show_all(markers@, mv) implies m.start
                    == #[trigger] next_definition(mv, code_mask@, from as int, len as int) by {
                    assert(markers@[i as int].shows(mv[i as int]));
                }
                return m.start;
            },
            _ => {
                assert forall|mv: Seq<MarkerView>|
                    show_all(markers@, mv) implies #[trigger] next_definition(
                    mv,
                    code_mask@,
                    from as int,
                    len as int,
                ) == next_definition(mv, code_mask@, i + 1, len as int) by {
                    assert(markers@[i as int].shows(mv[i as int]));
                }
            },
        }
        i += 1;
    }
    len
}

pub(crate) fn copy_id(id: &RuleId) -> (copy: RuleId)
    ensures
        copy.base@ == id.base@,
        copy.version == id.version,
{
    RuleId { base: id.base.clone(), version: id.version }
}

/// Sorts the markers of a Markdown file into definitions and references.
/// `code_mask` says where inline code and fenced blocks stand, `fence_mask`
/// where fenced blocks alone stand: a marker in a fenced block is nothing, a
/// marker in inline code is a reference. The body of a definition runs from
/// its marker to the next definition or heading.
pub fn load_spec_file(file: &str, text: &str, code_mask: &[bool], fence_mask: &[bool]) -> (found:
    SpecFile)
    ensures
        is_spec_file(
            found,
            file@,
            text.spec_bytes(),
            markers_from(
                text.spec_bytes(),
                outside_fences(fence_mask@, text.spec_bytes().len() as int),
                0,
            ),
            code_mask@,
        ),
        forall|j: int|
            0 <= j < found.definitions@.len() ==> !mask_at(
                fence_mask@,
                (#[trigger] found.definitions@[j]).start as int,
            ),
        forall|j: int|
            0 <= j < found.references@.len() ==> !mask_at(
                fence_mask@,
                (#[trigger] found.references@[j]).start as int,
            ),
{
    let s = text.as_bytes();
    let len = s.len();
    let eligible = negate(fence_mask, len);
    assert(eligible@ == outside_fences(fence_mask@, len as int));
    let markers = scan_markers(text, eligible.as_slice());
    let ghost mv = markers_from(s@, eligible@, 0);
    proof {
        lemma_markers_eligible(s@, eligible@, 0);
    }
    let mut definitions: Vec<Definition> = Vec::new();
    let mut references: Vec<Reference> = Vec::new();
    let mut counted_to: usize = 0;
    let mut newlines: usize = 0;
    let mut n: usize = 0;
    while n < markers.len()
        invariant
            n <= markers@.len(),
            s@ == text.spec_bytes(),
            len == s@.len(),
            show_all(markers@, mv),
            forall|i: int|
                0 <= i < mv.len() ==> 0 <= (#[trigger] mv[i]).start < eligible@.len()
                    && eligible@[mv[i].start] && mv[i].start < mv[i].end <= s@.len(),
            forall|i: int| 0 <= i < len ==> #[trigger] eligible@[i] == !mask_at(fence_mask@, i),
            eligible@.len() == len,
            counted_to <= len,
            newlines == newlines_before(s@, counted_to as int),
            definitions@.len() == places(mv, code_mask@, true, n as int).len(),
            references@.len() == places(mv, code_mask@, false, n as int).len(),
            forall|j: int|
                0 <= j < definitions@.len() ==> is_definition_at(
                    #[trigger] definitions@[j],
                    file@,
                    s@,
                    mv,
                    code_mask@,
                    places(mv, code_mask@, true, n as int)[j],
                ),
            forall|j: int|
                0 <= j < references@.len() ==> is_reference_at(
                    #[trigger] references@[j],
                    file@,
                    s@,
                    mv,
                    code_mask@,
                    places(mv, code_mask@, false, n as int)[j],
                ),
            forall|j: int|
                0 <= j < definitions@.len() ==> !mask_at(
                    fence_mask@,
                    (#[trigger] definitions@[j]).start as int,
                ),
            forall|j: int|
                0 <= j < references@.len() ==> !mask_at(
                    fence_mask@,
                    (#[trigger] references@[j]).start as int,
                ),
        decreases markers@.len() - n,
    {
        let m = &markers[n];
        assert(m.shows(mv[n as int]));
        assert(mv[n as int].start < mv[n as int].end <= s@.len());
        let ghost old_defs = definitions@;
        let ghost old_refs = references@;
        let ghost def_places = places(mv, code_mask@, true, n as int);
        let ghost ref_places = places(mv, code_mask@, false, n as int);
        if m.start < counted_to {
            counted_to = 0;
            newlines = 0;
        }
        newlines = count_newlines(s, counted_to, m.start, newlines);
        counted_to = m.start;
        proof {
            lemma_newlines_bound(s@, m.start as int);
        }
        let line = newlines + 1;
        let in_code = m.start < code_mask.len() && code_mask[m.start];
        match role_of(m.verb, in_code) {
            MarkdownRole::Definition => {
                let next = next_definition_start(&markers, code_mask, n + 1, len);
                let limit = if next < m.end {
                    m.end
                } else if next > len {
                    len
                } else {
                    next
                };
                let stop = body_stop(s, m.end, limit);
                let body = match substring(text, m.end, stop) {
                    Some(part) => part.to_owned(),
                    None => String::new(),
                };
                proof {
                    let expected_next = next_definition(mv, code_mask@, n + 1, len as int);
                    assert(next == expected_next);
                    lemma_next_definition_bounds(mv, code_mask@, n + 1, len as int);
                    lemma_heading_limit(s@, m.end as int, next as int, limit as int);
                    assert(encode_utf8(Seq::<char>::empty()) == Seq::<u8>::empty()) by {
                        reveal_with_fuel(vstd::utf8::encode_utf8, 1);
                    }
                }
                let d = Definition {
                    id: copy_id(&m.id),
                    prefix: m.prefix.clone(),
                    file: file.to_owned(),
                    line,
                    start: m.start,
                    end: m.end,
                    text: body,
                    previous_text: None,
                    previous_version: None,
                };
                proof {
                    let mm = mv[n as int];
                    let want_end = body_end(s@, mv, code_mask@, n as int);
                    assert(d.id.names((mm.base, mm.version)));
                    assert(d.prefix@ == ascii(mm.prefix));
                    assert(d.file@ == file@);
                    assert(d.line == newlines_before(s@, mm.start) + 1);
                    if next < m.end {
                        assert(want_end == next);
                        assert(!is_char_range(s@, m.end as int, want_end));
                        assert(stop == m.end);
                    } else {
                        assert(want_end == stop);
                    }
                    assert(encode_utf8(d.text@) == body_bytes(s@, mm.end, want_end));
                    assert(is_definition_at(d, file@, s@, mv, code_mask@, n as int));
                }
                definitions.push(d);
                proof {
                    let now = places(mv, code_mask@, true, n + 1);
                    assert(now == def_places.push(n as int));
                    assert(places(mv, code_mask@, false, n + 1) == ref_places);
                    assert forall|j: int| 0 <= j < definitions@.len() implies is_definition_at(
                        #[trigger] definitions@[j],
                        file@,
                        s@,
                        mv,
                        code_mask@,
                        now[j],
                    ) by {
                        if j < old_defs.len() {
                            assert(definitions@[j] == old_defs[j]);
                        }
                    }
                }
            },
            MarkdownRole::Reference(verb) => {
                let r = Reference {
                    file: file.to_owned(),
                    prefix: m.prefix.clone(),
                    verb,
                    id: copy_id(&m.id),
                    line,
                    start: m.start,
                    end: m.end,
                };
                references.push(r);
                proof {
                    let now = places(mv, code_mask@, false, n + 1);
                    assert(now == ref_places.push(n as int));
                    assert(places(mv, code_mask@, true, n + 1) == def_places);
                    assert forall|j: int| 0 <= j < references@.len() implies is_reference_at(
                        #[trigger] references@[j],
                        file@,
                        s@,
                        mv,
                        code_mask@,
                        now[j],
                    ) by {
                        if j < old_refs.len() {
                            assert(references@[j] == old_refs[j]);
                        }
                    }
                }
            },
        }
        n += 1;
    }
    SpecFile { definitions, references }
}

/// The next definition starts within the text or at its end, where the
/// markers do.
pub proof fn lemma_next_definition_bounds(markers: Seq<MarkerView>, code: Seq<bool>, from: int, len: int)
    requires
        0 <= from,
        0 <= len,
        forall|i: int| 0 <= i < markers.len() ==> 0 <= (#[trigger] markers[i]).start < len,
    ensures
        0 <= next_definition(markers, code, from, len) <= len,
    decreases markers.len() - from,
{
    if from < markers.len() {
        if markdown_role(markers[from].verb, mask_at(code, markers[from].start))
            != MarkdownRole::Definition {
            lemma_next_definition_bounds(markers, code, from + 1, len);
        }
    }
}

/// A limit before the start is as good as the start.
pub proof fn lemma_heading_limit(s: Seq<u8>, from: int, next: int, limit: int)
    requires
        limit == if next < from {
            from
        } else {
            next
        },
    ensures
        next >= from ==> heading_from(s, from, next) == heading_from(s, from, limit),
{
}

/// The definitions that count after `d` came: a new base adds a rule; a later
/// version of a known rule takes its place and keeps the text it replaces as
/// the previous one; an earlier version only becomes the previous one, where
/// it is later than the previous one so far; the same version changes
/// nothing.
pub open spec fn absorb(current: Seq<Definition>, d: Definition) -> Seq<Definition> {
    let at = definition_of(current, d.id.base@, 0);
    if at < 0 {
        current.push(d)
    } else {
        let old = current[at];
        if d.id.version > old.id.version {
            current.update(
                at,
                Definition {
                    previous_text: Some(old.text),
                    previous_version: Some(old.id.version),
                    ..d
                },
            )
        } else if d.id.version < old.id.version && (old.previous_version.is_none() || d.id.version
            > old.previous_version.unwrap()) {
            current.update(
                at,
                Definition {
                    previous_text: Some(d.text),
                    previous_version: Some(d.id.version),
                    ..old
                },
            )
        } else {
            current
        }
    }
}

/// The definitions that count among the first `upto` found, in the order in
/// which their rules first appear.
pub open spec fn merged(found: Seq<Definition>, upto: int) -> Seq<Definition>
    decreases upto,
{
    if upto <= 0 {
        Seq::empty()
    } else {
        absorb(merged(found, upto - 1), found[upto - 1])
    }
}

/// Whether no two of `defs` define the same base.
pub open spec fn one_per_base(defs: Seq<Definition>) -> bool {
    forall|i: int, j: int|
        0 <= i < j < defs.len() ==> (#[trigger] defs[i]).id.base@ != (#[trigger] defs[j]).id.base@
}

/// After merging, each rule has one definition.
pub proof fn law_one_definition_per_rule(found: Seq<Definition>, upto: int)
    ensures
        one_per_base(merged(found, upto)),
    decreases upto,
{
    if upto > 0 {
        law_one_definition_per_rule(found, upto - 1);
        let current = merged(found, upto - 1);
        let d = found[upto - 1];
        lemma_definition_of(current, d.id.base@, 0);
        let next = absorb(current, d);
        let at = definition_of(current, d.id.base@, 0);
        assert forall|i: int, j: int| 0 <= i < j < next.len() implies (#[trigger] next[i]).id.base@ != (
        #[trigger] next[j]).id.base@ by {
            if at < 0 {
                if j == current.len() {
                    assert(next[i] == current[i]);
                } else {
                    assert(next[i] == current[i] && next[j] == current[j]);
                }
            } else {
                assert(next[i].id.base@ == current[i].id.base@);
                assert(next[j].id.base@ == current[j].id.base@);
            }
        }
    }
}

/// Whether one of `defs` defines `base` in `version` or a later one.
pub open spec fn defines_at_least(defs: Seq<Definition>, base: Seq<char>, version: u32) -> bool {
    exists|k: int|
        0 <= k < defs.len() && (#[trigger] defs[k]).id.base@ == base && defs[k].id.version >= version
}

/// After merging, no definition that was found is later than the one that
/// counts for its rule: the versions of a rule only rise.
pub proof fn law_latest_version_counts(found: Seq<Definition>, upto: int, i: int)
    requires
        0 <= i < upto <= found.len(),
    ensures
        defines_at_least(merged(found, upto), found[i].id.base@, found[i].id.version),
    decreases upto,
{
    let current = merged(found, upto - 1);
    let d = found[upto - 1];
    let next = absorb(current, d);
    let at = definition_of(current, d.id.base@, 0);
    lemma_definition_of(current, d.id.base@, 0);
    if i < upto - 1 {
        law_latest_version_counts(found, upto - 1, i);
        let k = choose|k: int|
            0 <= k < current.len() && (#[trigger] current[k]).id.base@ == found[i].id.base@
                && current[k].id.version >= found[i].id.version;
        assert(next[k].id.base@ == found[i].id.base@ && next[k].id.version >= found[i].id.version);
    } else {
        if at < 0 {
            assert(next[current.len() as int] == d);
        } else {
            assert(next[at].id.base@ == d.id.base@ && next[at].id.version >= d.id.version);
        }
    }
}

pub(crate) fn copy_definition(d: &Definition) -> (copy: Definition)
    ensures
        copy == *d,
{
    Definition {
        id: RuleId { base: d.id.base.clone(), version: d.id.version },
        prefix: d.prefix.clone(),
        file: d.file.clone(),
        line: d.line,
        start: d.start,
        end: d.end,
        text: d.text.clone(),
        previous_text: match &d.previous_text {
            Some(t) => Some(t.clone()),
            None => None,
        },
        previous_version: d.previous_version,
    }
}

/// Merges the definitions found in a spec's files, in document order, into
/// the list of rules: one definition for each base, which is the one with
/// the latest version, with the text of the version before it.
pub fn merge_definitions(found: &Vec<Definition>) -> (current: Vec<Definition>)
    ensures
        current@ == merged(found@, found@.len() as int),
        one_per_base(current@),
{
    let mut current: Vec<Definition> = Vec::new();
    let mut n: usize = 0;
    while n < found.len()
        invariant
            n <= found@.len(),
            current@ == merged(found@, n as int),
        decreases found@.len() - n,
    {
        let d = &found[n];
        match find_definition(&current, d.id.base.as_str()) {
            None => {
                current.push(copy_definition(d));
            },
            Some(at) => {
                let old = &current[at];
                if d.id.version > old.id.version {
                    let mut fresh = copy_definition(d);
                    fresh.previous_text = Some(old.text.clone());
                    fresh.previous_version = Some(old.id.version);
                    current.set(at, fresh);
                } else if d.id.version < old.id.version && (match old.previous_version {
                    None => true,
                    Some(v) => d.id.version > v,
                }) {
                    let mut kept = copy_definition(old);
                    kept.previous_text = Some(d.text.clone());
                    kept.previous_version = Some(d.id.version);
                    current.set(at, kept);
                }
            },
        }
        n += 1;
    }
    proof {
        law_one_definition_per_rule(found@, found@.len() as int);
    }
    current
}

/// Whether the definition at `j` repeats an earlier one: the same base in
/// the same version.
pub open spec fn repeats_earlier(found: Seq<Definition>, j: int) -> bool {
    exists|i: int|
        0 <= i < j && (#[trigger] found[i]).id.base@ == found[j].id.base@ && found[i].id.version
            == found[j].id.version
}

/// The definitions that repeat an earlier one, by their place, in order.
pub fn duplicate_definitions(found: &Vec<Definition>) -> (duplicates: Vec<usize>)
    ensures
        forall|n: int|
            0 <= n < duplicates@.len() ==> (#[trigger] duplicates@[n]) < found@.len()
                && repeats_earlier(found@, duplicates@[n] as int),
        forall|j: int|
            0 <= j < found@.len() && repeats_earlier(found@, j) ==> duplicates@.contains(j as usize),
        forall|m: int, n: int| 0 <= m < n < duplicates@.len() ==> duplicates@[m] < duplicates@[n],
{
    let mut duplicates: Vec<usize> = Vec::new();
    let mut j: usize = 0;
    while j < found.len()
        invariant
            j <= found@.len(),
            forall|n: int|
                0 <= n < duplicates@.len() ==> (#[trigger] duplicates@[n]) < j && repeats_earlier(
                    found@,
                    duplicates@[n] as int,
                ),
            forall|k: int|
                0 <= k < j && repeats_earlier(found@, k) ==> duplicates@.contains(k as usize),
            forall|m: int, n: int| 0 <= m < n < duplicates@.len() ==> duplicates@[m] < duplicates@[n],
        decreases found@.len() - j,
    {
        let mut repeated = false;
        let mut i: usize = 0;
        while i < j && !repeated
            invariant
                i <= j < found@.len(),
                repeated ==> repeats_earlier(found@, j as int),
                !repeated ==> forall|k: int|
                    0 <= k < i ==> !((#[trigger] found@[k]).id.base@ == found@[j as int].id.base@
                        && found@[k].id.version == found@[j as int].id.version),
            decreases j - i + if repeated {
                0int
            } else {
                1int
            },
        {
            if found[i].id.same(&found[j].id) {
                repeated = true;
            } else {
                i += 1;
            }
        }
        let ghost before = duplicates@;
        if repeated {
            duplicates.push(j);
        }
        assert forall|k: int| 0 <= k < j + 1 && repeats_earlier(found@, k) implies duplicates@.contains(
            k as usize,
        ) by {
            if k < j {
                let n = choose|n: int| 0 <= n < before.len() && before[n] == k as usize;
                assert(duplicates@[n] == k as usize);
            } else {
                assert(repeated);
                assert(duplicates@[before.len() as int] == k as usize);
            }
        }
        j += 1;
    }
    duplicates
}

/// For each definition, whether it repeats an earlier one.
pub fn duplicate_flags(found: &Vec<Definition>) -> (flags: Vec<bool>)
    ensures
        flags@.len() == found@.len(),
        forall|j: int| 0 <= j < found@.len() ==> #[trigger] flags@[j] == repeats_earlier(found@, j),
{
    let places = duplicate_definitions(found);
    let mut flags: Vec<bool> = Vec::new();
    let mut j: usize = 0;
    while j < found.len()
        invariant
            j <= found@.len(),
            flags@.len() == j,
            forall|n: int|
                0 <= n < places@.len() ==> (#[trigger] places@[n]) < found@.len() && repeats_earlier(
                    found@,
                    places@[n] as int,
                ),
            forall|k: int|
                0 <= k < found@.len() && repeats_earlier(found@, k) ==> places@.contains(k as usize),
            forall|k: int| 0 <= k < j ==> #[trigger] flags@[k] == repeats_earlier(found@, k),
        decreases found@.len() - j,
    {
        let mut listed = false;
        let mut n: usize = 0;
        while n < places.len()
            invariant
                n <= places@.len(),
                listed == exists|m: int| 0 <= m < n && #[trigger] places@[m] == j,
            decreases places@.len() - n,
        {
            if places[n] == j {
                listed = true;
            }
            n += 1;
        }
        proof {
            if listed {
                let m = choose|m: int| 0 <= m < places@.len() && #[trigger] places@[m] == j;
                assert(repeats_earlier(found@, places@[m] as int));
            } else if repeats_earlier(found@, j as int) {
                assert(places@.contains(j));
                let m = choose|m: int| 0 <= m < places@.len() && places@[m] == j;
                assert(places@[m] == j);
            }
        }
        flags.push(listed);
        j += 1;
    }
    flags
}

/// Why a spec has no prefix.
#[derive(Debug)]
pub enum PrefixError {
    /// The spec's files define no rule.
    NoDefinitions,
    /// The spec's files use more than one prefix: these two among them.
    Conflicting { first: String, other: String },
}

/// What is said of a spec without prefix.
pub open spec fn prefix_error_text(spec: Seq<char>, error: PrefixError) -> Seq<char> {
    match error {
        PrefixError::NoDefinitions => "spec `"@ + spec + "` defines no rule"@,
        PrefixError::Conflicting { first, other } => "spec `"@ + spec
            + "` uses more than one prefix: `"@ + first@ + "` and `"@ + other@ + "`"@,
    }
}

impl PrefixError {
    /// The configuration error for the spec named `spec`.
    pub fn message(&self, spec: &str) -> (text: String)
        ensures
            text@ == prefix_error_text(spec@, *self),
    {
        let mut out: Vec<char> = Vec::new();
        push_str(&mut out, "spec `");
        push_str(&mut out, spec);
        match self {
            PrefixError::NoDefinitions => {
                push_str(&mut out, "` defines no rule");
            },
            PrefixError::Conflicting { first, other } => {
                push_str(&mut out, "` uses more than one prefix: `");
                push_str(&mut out, first.as_str());
                push_str(&mut out, "` and `");
                push_str(&mut out, other.as_str());
                push_str(&mut out, "`");
            },
        }
        string_of(out.as_slice())
    }
}

/// Whether the file at the project-relative `path` belongs to a spec with
/// the given include globs: it is a Markdown file, and one of the globs
/// matches it.
pub fn is_spec_path(path: &str, includes: &Vec<String>) -> (yes: bool)
    ensures
        yes == (".md"@.is_suffix_of(path@) && crate::watcher::any_hit(
            crate::watcher::verdicts_for(crate::config::strs(includes@), path@),
        )),
{
    let p = crate::text::chars_of(path);
    crate::text::ends_with(p.as_slice(), crate::text::chars_of(".md").as_slice())
        && crate::watcher::matches_any(includes, path)
}

/// The index of the first definition from `from` on whose prefix is not
/// `prefix`, or the number of definitions.
pub open spec fn first_other_prefix(defs: Seq<Definition>, prefix: Seq<char>, from: int) -> int
    decreases defs.len() - from,
{
    if from < 0 || from >= defs.len() {
        defs.len() as int
    } else if defs[from].prefix@ != prefix {
        from
    } else {
        first_other_prefix(defs, prefix, from + 1)
    }
}

/// Infers the prefix of a spec from the definitions in its files: the one
/// prefix that all of them use. A spec without definitions has none, nor has
/// one whose definitions use more than one.
pub fn infer_prefix(definitions: &Vec<Definition>) -> (prefix: Result<String, PrefixError>)
    ensures
        match prefix {
            Ok(p) => definitions@.len() > 0 && p@ == definitions@[0].prefix@ && first_other_prefix(
                definitions@,
                p@,
                0,
            ) == definitions@.len(),
            Err(PrefixError::NoDefinitions) => definitions@.len() == 0,
            Err(PrefixError::Conflicting { first, other }) => {
                let at = first_other_prefix(definitions@, definitions@[0].prefix@, 0);
                &&& definitions@.len() > 0
                &&& at < definitions@.len()
                &&& first@ == definitions@[0].prefix@
                &&& other@ == definitions@[at].prefix@
            },
        },
{
    if definitions.len() == 0 {
        return Err(PrefixError::NoDefinitions);
    }
    let first = definitions[0].prefix.as_str();
    let mut i: usize = 0;
    while i < definitions.len()
        invariant
            i <= definitions@.len(),
            definitions@.len() > 0,
            first@ == definitions@[0].prefix@,
            first_other_prefix(definitions@, first@, 0) == first_other_prefix(
                definitions@,
                first@,
                i as int,
            ),
        decreases definitions@.len() - i,
    {
        if !str_same(definitions[i].prefix.as_str(), first) {
            return Err(
                PrefixError::Conflicting {
                    first: first.to_owned(),
                    other: definitions[i].prefix.clone(),
                },
            );
        }
        i += 1;
    }
    Ok(first.to_owned())
}

/// The index of the first spec from `from` on that still sets a prefix, or
/// -1.
pub open spec fn first_with_prefix(specs: Seq<crate::config::SpecConfig>, from: int) -> int
    decreases specs.len() - from,
{
    if from < 0 || from >= specs.len() {
        -1
    } else if specs[from].prefix.is_some() {
        from
    } else {
        first_with_prefix(specs, from + 1)
    }
}

/// The error for a spec that sets the deprecated prefix.
pub open spec fn deprecated_prefix_text(name: Seq<char>, prefix: Seq<char>) -> Seq<char> {
    "spec `"@ + name + "` sets the deprecated `prefix "@ + prefix
        + "`; remove it: the prefix is inferred from the markers in the spec's files"@
}

/// Checks the configuration for what is no longer allowed: the first spec
/// that sets a prefix gives an error that names it.
pub fn config_error(config: &Config) -> (error: Option<String>)
    ensures
        match error {
            Some(text) => {
                let at = first_with_prefix(config.specs@, 0);
                &&& 0 <= at < config.specs@.len()
                &&& config.specs@[at].prefix.is_some()
                &&& text@ == deprecated_prefix_text(
                    config.specs@[at].name@,
                    config.specs@[at].prefix.unwrap()@,
                )
            },
            None => first_with_prefix(config.specs@, 0) == -1,
        },
{
    let mut i: usize = 0;
    while i < config.specs.len()
        invariant
            i <= config.specs@.len(),
            first_with_prefix(config.specs@, 0) == first_with_prefix(config.specs@, i as int),
        decreases config.specs@.len() - i,
    {
        match &config.specs[i].prefix {
            Some(prefix) => {
                let mut out: Vec<char> = Vec::new();
                push_str(&mut out, "spec `");
                push_str(&mut out, config.specs[i].name.as_str());
                push_str(&mut out, "` sets the deprecated `prefix ");
                push_str(&mut out, prefix.as_str());
                push_str(
                    &mut out,
                    "`; remove it: the prefix is inferred from the markers in the spec's files",
                );
                return Some(string_of(out.as_slice()));
            },
            None => {},
        }
        i += 1;
    }
    None
}

/// Whether `found` is what a Markdown file gives with these two masks, and
/// the masks are the file's code mask and fence mask.
pub open spec fn is_scan_of(
    found: SpecFile,
    file: Seq<char>,
    s: Seq<u8>,
    code: Seq<bool>,
    fence: Seq<bool>,
) -> bool {
    &&& crate::markdown::is_markdown_mask(s, code, true)
    &&& crate::markdown::is_markdown_mask(s, fence, false)
    &&& is_spec_file(found, file, s, markers_from(s, outside_fences(fence, s.len() as int), 0), code)
    &&& forall|j: int|
        0 <= j < found.definitions@.len() ==> !mask_at(fence, (#[trigger] found.definitions@[j]).start as int)
    &&& forall|j: int|
        0 <= j < found.references@.len() ==> !mask_at(fence, (#[trigger] found.references@[j]).start as int)
}

/// The definitions and references of a Markdown file. No marker that starts
/// inside a fenced code block is among them.
pub fn scan_spec_file(file: &str, text: &str) -> (found: SpecFile)
    ensures
        exists|code: Seq<bool>, fence: Seq<bool>| #[trigger]
            is_scan_of(found, file@, text.spec_bytes(), code, fence),
{
    let code = crate::markdown::markdown_code_mask(text);
    let fence = crate::markdown::markdown_fence_mask(text);
    let found = load_spec_file(file, text, code.as_slice(), fence.as_slice());
    assert(is_scan_of(found, file@, text.spec_bytes(), code@, fence@));
    found
}

/// No marker of a Markdown file starts at a byte that the fence mask
/// covers: what stands verbatim inside a fenced code block gives neither a
/// definition nor a reference.
pub proof fn law_fenced_markers_are_not_recognized(s: Seq<u8>, fence: Seq<bool>, at: int)
    requires
        mask_at(fence, at),
    ensures
        forall|i: int|
            0 <= i < markers_from(s, outside_fences(fence, s.len() as int), 0).len() ==> (
            #[trigger] markers_from(s, outside_fences(fence, s.len() as int), 0)[i]).start != at,
{
    lemma_markers_eligible(s, outside_fences(fence, s.len() as int), 0);
}

} // verus!
