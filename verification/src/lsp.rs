//! The editor bridge: positions as editors count them, the edits of a
//! rename, the encoding of semantic tokens, which published findings to
//! clear, and the workspace root that an editor announces.

use vstd::prelude::*;
use vstd::string::StringSliceAdditionalSpecFns;
use crate::config::strs;
use crate::dashboard::ApiCodeRef;
use crate::index::{Reference, Severity};
use crate::marker::{all_eligible, markers_from, scan_markers, show_all, MarkerView, RawMarker, RuleId};
use crate::paths::{is_absolute, join_chars, join_of};
use crate::text::{
    chars_of, decimal, line_at, line_end, next_line, parse_unsigned, push_all, push_decimal, push_str,
    read_line, same_chars, slice_chars, starts_with, str_same, string_of, trim_chars, trimmed,
    unsigned_of,
};
use crate::uri::{file_uri_path, file_uri_to_path, path_file_uri, path_to_file_uri};

verus! {

/// Whether `b` continues a character that started before it.
pub open spec fn is_continuation(b: u8) -> bool {
    0x80 <= b && b <= 0xbf
}

/// A position in a text: a 0-based line, and the number of characters before
/// it in that line.
pub struct TextPoint {
    pub line: nat,
    pub column: nat,
}

/// The position behind the first `upto` bytes: each line feed starts a new
/// line, each other character adds a column.
pub open spec fn point_at(s: Seq<u8>, upto: int) -> TextPoint
    decreases upto,
{
    if upto <= 0 || upto > s.len() {
        TextPoint { line: 0, column: 0 }
    } else {
        let before = point_at(s, upto - 1);
        if s[upto - 1] == 0x0a {
            TextPoint { line: before.line + 1, column: 0 }
        } else if is_continuation(s[upto - 1]) {
            before
        } else {
            TextPoint { line: before.line, column: before.column + 1 }
        }
    }
}

/// The line and column of a byte offset, both 0-based, the column counted in
/// characters. An offset behind the text gives the position of its end.
pub fn offset_to_line_col(content: &str, offset: usize) -> (point: (u32, u32))
    requires
        content.spec_bytes().len() <= u32::MAX,
    ensures
        ({
            let len = content.spec_bytes().len() as int;
            let at = point_at(
                content.spec_bytes(),
                if offset <= len {
                    offset as int
                } else {
                    len
                },
            );
            point.0 == at.line && point.1 == at.column
        }),
{
    let s = content.as_bytes();
    let stop = if offset <= s.len() {
        offset
    } else {
        s.len()
    };
    let mut line: u32 = 0;
    let mut column: u32 = 0;
    let mut i: usize = 0;
    while i < stop
        invariant
            i <= stop <= s@.len() <= u32::MAX,
            line == point_at(s@, i as int).line,
            column == point_at(s@, i as int).column,
            line + column <= i,
        decreases stop - i,
    {
        let b = s[i];
        if b == 0x0a {
            line += 1;
            column = 0;
        } else if !(0x80 <= b && b <= 0xbf) {
            column += 1;
        }
        i += 1;
    }
    (line, column)
}

/// Whether a character starts at `at`, or the text ends there.
pub open spec fn is_char_start(s: Seq<u8>, at: int) -> bool {
    0 <= at <= s.len() && (at == s.len() || !is_continuation(s[at]))
}

/// Whether `at` is the offset of the position `line`, `column`.
pub open spec fn is_offset_of(s: Seq<u8>, at: int, line: u32, column: u32) -> bool {
    is_char_start(s, at) && point_at(s, at).line == line && point_at(s, at).column == column
}

/// The byte offset of a position that an editor names by line and column.
/// There is none where the text has no such position.
pub fn position_to_offset(content: &str, line: u32, column: u32) -> (offset: Option<usize>)
    ensures
        match offset {
            Some(at) => is_offset_of(content.spec_bytes(), at as int, line, column) && forall|k: int|
                0 <= k < at ==> !is_offset_of(content.spec_bytes(), k, line, column),
            None => forall|k: int| !is_offset_of(content.spec_bytes(), k, line, column),
        },
{
    let s = content.as_bytes();
    let mut at_line: usize = 0;
    let mut at_column: usize = 0;
    let mut i: usize = 0;
    while i < s.len()
        invariant
            i <= s@.len(),
            s@ == content.spec_bytes(),
            at_line == point_at(s@, i as int).line,
            at_column == point_at(s@, i as int).column,
            at_line + at_column <= i,
            forall|k: int| 0 <= k < i ==> !is_offset_of(s@, k, line, column),
        decreases s@.len() - i,
    {
        let b = s[i];
        let continues = 0x80 <= b && b <= 0xbf;
        if !continues && at_line == line as usize && at_column == column as usize {
            return Some(i);
        }
        if b == 0x0a {
            at_line += 1;
            at_column = 0;
        } else if !continues {
            at_column += 1;
        }
        i += 1;
    }
    if at_line == line as usize && at_column == column as usize {
        return Some(i);
    }
    assert forall|k: int| !is_offset_of(s@, k, line, column) by {}
    None
}

/// The place of the first marker from `from` on that covers the byte at
/// `offset`, or -1.
pub open spec fn marker_covering(markers: Seq<RawMarker>, offset: int, from: int) -> int
    decreases markers.len() - from,
{
    if from < 0 || from >= markers.len() {
        -1
    } else if markers[from].start <= offset < markers[from].end {
        from
    } else {
        marker_covering(markers, offset, from + 1)
    }
}

/// The marker under the cursor: the first one whose bytes hold `offset`.
pub fn marker_at_offset(markers: &Vec<RawMarker>, offset: usize) -> (found: Option<usize>)
    ensures
        match found {
            Some(place) => place == marker_covering(markers@, offset as int, 0) && place
                < markers@.len(),
            None => marker_covering(markers@, offset as int, 0) == -1,
        },
{
    let mut i: usize = 0;
    while i < markers.len()
        invariant
            i <= markers@.len(),
            marker_covering(markers@, offset as int, 0) == marker_covering(
                markers@,
                offset as int,
                i as int,
            ),
        decreases markers@.len() - i,
    {
        if markers[i].start <= offset && offset < markers[i].end {
            return Some(i);
        }
        i += 1;
    }
    None
}

/// A replacement of a range of text.
#[derive(Debug)]
pub struct TextEdit {
    pub start_line: u32,
    pub start_char: u32,
    pub end_line: u32,
    pub end_char: u32,
    pub new_text: String,
}

/// Whether the marker names the rule with the given base and version.
pub open spec fn names_rule(m: MarkerView, base: Seq<char>, version: u32) -> bool {
    crate::marker::ascii(m.base) == base && m.version == version
}

/// The markers among the first `upto` that the rename of a rule touches:
/// those that name the rule, unless they define it.
pub open spec fn renamed(markers: Seq<MarkerView>, base: Seq<char>, version: u32, upto: int) -> Seq<int>
    decreases upto,
{
    if upto <= 0 {
        Seq::empty()
    } else {
        let head = renamed(markers, base, version, upto - 1);
        let m = markers[upto - 1];
        if names_rule(m, base, version) && m.verb != Some(crate::marker::RefVerb::Define) {
            head.push(upto - 1)
        } else {
            head
        }
    }
}

/// Whether `edit` puts `new_text` in place of the rule id of the marker `m`.
pub open spec fn is_edit_of(edit: TextEdit, s: Seq<u8>, m: MarkerView, new_text: Seq<char>) -> bool {
    &&& edit.start_line == point_at(s, m.id_start).line
    &&& edit.start_char == point_at(s, m.id_start).column
    &&& edit.end_line == point_at(s, m.end - 1).line
    &&& edit.end_char == point_at(s, m.end - 1).column
    &&& edit.new_text@ == new_text
}

/// Whether `edits` are the edits of a rename in a text with these markers:
/// none where the new id is the old one; else one for each marker that the
/// rename touches, in the order of the text.
pub open spec fn are_rename_edits(
    edits: Seq<TextEdit>,
    s: Seq<u8>,
    markers: Seq<MarkerView>,
    old_id: RuleId,
    new_id: Seq<char>,
) -> bool {
    if new_id == old_id.rendered() {
        edits.len() == 0
    } else {
        let touched = renamed(markers, old_id.base@, old_id.version, markers.len() as int);
        &&& edits.len() == touched.len()
        &&& forall|n: int|
            0 <= n < edits.len() ==> is_edit_of(#[trigger] edits[n], s, markers[touched[n]], new_id)
    }
}

/// The edits that rename a rule among the given markers of a text.
pub fn rename_edits(content: &str, markers: &Vec<RawMarker>, old_id: &RuleId, new_id: &str) -> (edits:
    Vec<TextEdit>)
    requires
        content.spec_bytes().len() <= u32::MAX,
    ensures
        forall|mv: Seq<MarkerView>|
            show_all(markers@, mv) && (forall|i: int|
                0 <= i < mv.len() ==> 0 <= (#[trigger] mv[i]).id_start < mv[i].end
                    <= content.spec_bytes().len()) ==> #[trigger] are_rename_edits(
                edits@,
                content.spec_bytes(),
                mv,
                *old_id,
                new_id@,
            ),
        new_id@ == old_id.rendered() ==> edits@.len() == 0,
{
    let mut edits: Vec<TextEdit> = Vec::new();
    let old_text = old_id.render();
    if str_same(old_text.as_str(), new_id) {
        return edits;
    }
    let mut n: usize = 0;
    while n < markers.len()
        invariant
            n <= markers@.len(),
            content.spec_bytes().len() <= u32::MAX,
            new_id@ != old_id.rendered(),
            forall|mv: Seq<MarkerView>|
                show_all(markers@, mv) && (forall|i: int|
                    0 <= i < mv.len() ==> 0 <= (#[trigger] mv[i]).id_start < mv[i].end
                        <= content.spec_bytes().len()) ==> {
                    let touched = #[trigger] renamed(mv, old_id.base@, old_id.version, n as int);
                    &&& edits@.len() == touched.len()
                    &&& forall|k: int|
                        0 <= k < edits@.len() ==> is_edit_of(
                            #[trigger] edits@[k],
                            content.spec_bytes(),
                            mv[touched[k]],
                            new_id@,
                        )
                },
        decreases markers@.len() - n,
    {
        let m = &markers[n];
        let is_define = match m.verb {
            Some(crate::marker::RefVerb::Define) => true,
            _ => false,
        };
        let ghost before = edits@;
        let touches = m.id.same(old_id) && !is_define && m.end > 0;
        if touches {
            let (start_line, start_char) = offset_to_line_col(content, m.id_start);
            let (end_line, end_char) = offset_to_line_col(content, m.end - 1);
            edits.push(
                TextEdit { start_line, start_char, end_line, end_char, new_text: new_id.to_owned() },
            );
        }
        assert forall|mv: Seq<MarkerView>|
            show_all(markers@, mv) && (forall|i: int|
                0 <= i < mv.len() ==> 0 <= (#[trigger] mv[i]).id_start < mv[i].end
                    <= content.spec_bytes().len()) implies {
            let touched = #[trigger] renamed(mv, old_id.base@, old_id.version, n + 1);
            &&& edits@.len() == touched.len()
            &&& forall|k: int|
                0 <= k < edits@.len() ==> is_edit_of(
                    #[trigger] edits@[k],
                    content.spec_bytes(),
                    mv[touched[k]],
                    new_id@,
                )
        } by {
            let earlier = renamed(mv, old_id.base@, old_id.version, n as int);
            let touched = renamed(mv, old_id.base@, old_id.version, n + 1);
            assert(markers@[n as int].shows(mv[n as int]));
            assert(mv[n as int].id_start < mv[n as int].end);
            assert forall|k: int| 0 <= k < edits@.len() implies is_edit_of(
                #[trigger] edits@[k],
                content.spec_bytes(),
                mv[touched[k]],
                new_id@,
            ) by {
                if k < before.len() {
                    assert(edits@[k] == before[k]);
                    assert(touched[k] == earlier[k]);
                }
            }
        }
        n += 1;
    }
    edits
}

/// The markers among the first `upto` that carry `prefix` and name the rule
/// `base`, in any version and with any verb.
pub open spec fn carrying(markers: Seq<MarkerView>, prefix: Seq<char>, base: Seq<char>, upto: int) -> Seq<
    int,
>
    decreases upto,
{
    if upto <= 0 {
        Seq::empty()
    } else {
        let head = carrying(markers, prefix, base, upto - 1);
        let m = markers[upto - 1];
        if crate::marker::ascii(m.prefix) == prefix && crate::marker::ascii(m.base) == base {
            head.push(upto - 1)
        } else {
            head
        }
    }
}

/// Whether `edit` puts `new_base` in place of the base of the marker `m`,
/// and leaves its version alone.
pub open spec fn is_base_edit_of(edit: TextEdit, s: Seq<u8>, m: MarkerView, new_base: Seq<char>) -> bool {
    &&& edit.start_line == point_at(s, m.id_start).line
    &&& edit.start_char == point_at(s, m.id_start).column
    &&& edit.end_line == point_at(s, m.id_start + m.base.len()).line
    &&& edit.end_char == point_at(s, m.id_start + m.base.len()).column
    &&& edit.new_text@ == new_base
}

/// Whether `edits` rename the rule `old_base` to `new_base` in a text with
/// these markers: none where the two are the same; else one for each marker
/// that carries the prefix and names the rule, in the order of the text.
pub open spec fn are_base_edits(
    edits: Seq<TextEdit>,
    s: Seq<u8>,
    markers: Seq<MarkerView>,
    prefix: Seq<char>,
    old_base: Seq<char>,
    new_base: Seq<char>,
) -> bool {
    if new_base == old_base {
        edits.len() == 0
    } else {
        let touched = carrying(markers, prefix, old_base, markers.len() as int);
        &&& edits.len() == touched.len()
        &&& forall|n: int|
            0 <= n < edits.len() ==> #[trigger] is_nth_base_edit(edits, s, markers, touched, new_base, n)
    }
}

/// Whether the `n`-th of `edits` renames the marker at the `n`-th of
/// `touched`.
pub open spec fn is_nth_base_edit(
    edits: Seq<TextEdit>,
    s: Seq<u8>,
    markers: Seq<MarkerView>,
    touched: Seq<int>,
    new_base: Seq<char>,
    n: int,
) -> bool {
    is_base_edit_of(edits[n], s, markers[touched[n]], new_base)
}

/// Whether the base of each marker lies within the text, behind the start
/// of its id.
pub open spec fn bases_within(s: Seq<u8>, markers: Seq<MarkerView>) -> bool {
    forall|i: int|
        0 <= i < markers.len() ==> 0 <= (#[trigger] markers[i]).id_start && markers[i].id_start
            + markers[i].base.len() <= s.len()
}

/// The edits that rename a rule in one file: the base of every marker that
/// carries the prefix and names the rule is rewritten, whatever its verb; a
/// version suffix stays as it is. Renaming a rule to itself gives no edit.
pub fn rename_rule_edits(
    content: &str,
    markers: &Vec<RawMarker>,
    prefix: &str,
    old_base: &str,
    new_base: &str,
) -> (edits: Vec<TextEdit>)
    requires
        content.spec_bytes().len() <= u32::MAX,
    ensures
        forall|mv: Seq<MarkerView>|
            show_all(markers@, mv) && bases_within(content.spec_bytes(), mv) ==> #[trigger] are_base_edits(
                edits@,
                content.spec_bytes(),
                mv,
                prefix@,
                old_base@,
                new_base@,
            ),
        new_base@ == old_base@ ==> edits@.len() == 0,
{
    let mut edits: Vec<TextEdit> = Vec::new();
    if str_same(old_base, new_base) {
        return edits;
    }
    let len = content.as_bytes().len();
    let mut n: usize = 0;
    while n < markers.len()
        invariant
            n <= markers@.len(),
            len == content.spec_bytes().len(),
            content.spec_bytes().len() <= u32::MAX,
            new_base@ != old_base@,
            forall|mv: Seq<MarkerView>|
                show_all(markers@, mv) && bases_within(content.spec_bytes(), mv) ==> {
                    let touched = #[trigger] carrying(mv, prefix@, old_base@, n as int);
                    &&& edits@.len() == touched.len()
                    &&& forall|k: int|
                        0 <= k < edits@.len() ==> #[trigger] is_nth_base_edit(
                            edits@,
                            content.spec_bytes(),
                            mv,
                            touched,
                            new_base@,
                            k,
                        )
                },
        decreases markers@.len() - n,
    {
        let m = &markers[n];
        let ghost before = edits@;
        let base_len = chars_of(m.id.base.as_str()).len();
        let touches = str_same(m.prefix.as_str(), prefix) && str_same(m.id.base.as_str(), old_base)
            && m.id_start <= len && base_len <= len - m.id_start;
        if touches {
            let (start_line, start_char) = offset_to_line_col(content, m.id_start);
            let (end_line, end_char) = offset_to_line_col(content, m.id_start + base_len);
            edits.push(
                TextEdit { start_line, start_char, end_line, end_char, new_text: new_base.to_owned() },
            );
        }
        assert forall|mv: Seq<MarkerView>|
            show_all(markers@, mv) && bases_within(content.spec_bytes(), mv) implies {
            let touched = #[trigger] carrying(mv, prefix@, old_base@, n + 1);
            &&& edits@.len() == touched.len()
            &&& forall|k: int|
                0 <= k < edits@.len() ==> #[trigger] is_nth_base_edit(
                    edits@,
                    content.spec_bytes(),
                    mv,
                    touched,
                    new_base@,
                    k,
                )
        } by {
            let earlier = carrying(mv, prefix@, old_base@, n as int);
            let touched = carrying(mv, prefix@, old_base@, n + 1);
            assert(markers@[n as int].shows(mv[n as int]));
            assert(mv[n as int].id_start + mv[n as int].base.len() <= content.spec_bytes().len());
            assert(crate::marker::ascii(mv[n as int].base).len() == mv[n as int].base.len());
            assert forall|k: int| 0 <= k < edits@.len() implies #[trigger] is_nth_base_edit(
                edits@,
                content.spec_bytes(),
                mv,
                touched,
                new_base@,
                k,
            ) by {
                if k < before.len() {
                    assert(is_nth_base_edit(before, content.spec_bytes(), mv, earlier, new_base@, k));
                    assert(edits@[k] == before[k]);
                    assert(touched[k] == earlier[k]);
                }
            }
        }
        n += 1;
    }
    edits
}

/// The edits that rename the rule `old_id` to `new_id` in one file: one for
/// each marker that names the rule and does not define it. Renaming a rule to
/// itself gives no edit.
pub fn replacement_edits_for_file(content: &str, old_id: &RuleId, new_id: &str) -> (edits: Vec<TextEdit>)
    requires
        content.spec_bytes().len() <= u32::MAX,
    ensures
        exists|eligible: Seq<bool>|
            eligible.len() == content.spec_bytes().len() && (forall|i: int|
                0 <= i < eligible.len() ==> eligible[i]) && #[trigger] are_rename_edits(
                edits@,
                content.spec_bytes(),
                markers_from(content.spec_bytes(), eligible, 0),
                *old_id,
                new_id@,
            ),
        new_id@ == old_id.rendered() ==> edits@.len() == 0,
{
    let s = content.as_bytes();
    let eligible = all_eligible(s.len());
    let markers = scan_markers(content, eligible.as_slice());
    let ghost mv = markers_from(s@, eligible@, 0);
    let edits = rename_edits(content, &markers, old_id, new_id);
    proof {
        lemma_markers_ordered(s@, eligible@, 0);
        assert(are_rename_edits(edits@, content.spec_bytes(), mv, *old_id, new_id@));
    }
    edits
}

/// Every marker that the scan recognizes holds its rule id within its bytes.
pub proof fn lemma_markers_ordered(s: Seq<u8>, eligible: Seq<bool>, from: int)
    requires
        0 <= from,
    ensures
        forall|i: int|
            0 <= i < markers_from(s, eligible, from).len() ==> {
                let m = #[trigger] markers_from(s, eligible, from)[i];
                0 <= m.id_start < m.end <= s.len()
            },
    decreases s.len() - from,
{
    if from < s.len() {
        if crate::marker::may_start(s, eligible, from) && crate::marker::marker_at(s, from).is_some() {
            let m = crate::marker::marker_at(s, from).unwrap();
            crate::marker::lemma_marker_bounds(s, from);
            lemma_markers_ordered(s, eligible, m.end);
            let rest = markers_from(s, eligible, m.end);
            assert forall|i: int| 0 <= i < markers_from(s, eligible, from).len() implies {
                let x = #[trigger] markers_from(s, eligible, from)[i];
                0 <= x.id_start < x.end <= s.len()
            } by {
                if i > 0 {
                    assert(markers_from(s, eligible, from)[i] == rest[i - 1]);
                }
            }
        } else {
            lemma_markers_ordered(s, eligible, from + 1);
        }
    }
}

/// A semantic token at an absolute position.
#[derive(Debug, Clone, Copy, PartialEq, Eq, Structural)]
pub struct LspToken {
    pub line: u32,
    pub start_char: u32,
    pub length: u32,
    pub token_type: u32,
    pub modifiers: u32,
}

/// A semantic token at a position relative to the token before it.
#[derive(Debug, Clone, Copy, PartialEq, Eq, Structural)]
pub struct SemanticToken {
    pub delta_line: u32,
    pub delta_start: u32,
    pub length: u32,
    pub token_type: u32,
    pub token_modifiers_bitset: u32,
}

/// Whether the token `a` stands before `b` or at its place.
pub open spec fn token_le(a: LspToken, b: LspToken) -> bool {
    a.line < b.line || (a.line == b.line && a.start_char <= b.start_char)
}

/// Whether the tokens stand in the order of the text.
pub open spec fn tokens_in_order(tokens: Seq<LspToken>) -> bool {
    forall|i: int| 0 < i < tokens.len() ==> token_le(tokens[i - 1], #[trigger] tokens[i])
}

/// The relative form of `token`, which follows a token at `prev_line` and
/// `prev_char`: the lines between them, and the columns between them where
/// both stand in one line, else the token's own column.
pub open spec fn relative_token(token: LspToken, prev_line: u32, prev_char: u32) -> SemanticToken {
    SemanticToken {
        delta_line: (token.line - prev_line) as u32,
        delta_start: if token.line == prev_line {
            (token.start_char - prev_char) as u32
        } else {
            token.start_char
        },
        length: token.length,
        token_type: token.token_type,
        token_modifiers_bitset: token.modifiers,
    }
}

/// The relative form of the token at `i`: relative to the token before it,
/// or to the start of the text.
pub open spec fn encoded_at(tokens: Seq<LspToken>, i: int) -> SemanticToken {
    if i == 0 {
        relative_token(tokens[0], 0, 0)
    } else {
        relative_token(tokens[i], tokens[i - 1].line, tokens[i - 1].start_char)
    }
}

/// Encodes semantic tokens in the relative form that editors expect.
pub fn encode_semantic_tokens(tokens: &Vec<LspToken>) -> (encoded: Vec<SemanticToken>)
    requires
        tokens_in_order(tokens@),
    ensures
        encoded@.len() == tokens@.len(),
        forall|i: int| 0 <= i < tokens@.len() ==> #[trigger] encoded@[i] == encoded_at(tokens@, i),
{
    let mut prev_line: u32 = 0;
    let mut prev_char: u32 = 0;
    let mut encoded: Vec<SemanticToken> = Vec::new();
    let mut i: usize = 0;
    while i < tokens.len()
        invariant
            i <= tokens@.len(),
            tokens_in_order(tokens@),
            encoded@.len() == i,
            i > 0 ==> prev_line == tokens@[i - 1].line && prev_char == tokens@[i - 1].start_char,
            i == 0 ==> prev_line == 0 && prev_char == 0,
            forall|k: int| 0 <= k < i ==> #[trigger] encoded@[k] == encoded_at(tokens@, k),
        decreases tokens@.len() - i,
    {
        let token = tokens[i];
        assert(i > 0 ==> token_le(tokens@[i - 1], tokens@[i as int]));
        let delta_line = token.line - prev_line;
        let delta_start = if delta_line == 0 {
            token.start_char - prev_char
        } else {
            token.start_char
        };
        encoded.push(
            SemanticToken {
                delta_line,
                delta_start,
                length: token.length,
                token_type: token.token_type,
                token_modifiers_bitset: token.modifiers,
            },
        );
        prev_line = token.line;
        prev_char = token.start_char;
        i += 1;
    }
    encoded
}

/// Checks that tokens stand in the order of the text, as their encoding
/// needs them.
pub fn in_order(tokens: &Vec<LspToken>) -> (yes: bool)
    ensures
        yes == tokens_in_order(tokens@),
{
    let mut i: usize = 1;
    while i < tokens.len()
        invariant
            1 <= i,
            forall|k: int| 0 < k < i && k < tokens@.len() ==> token_le(tokens@[k - 1], #[trigger] tokens@[k]),
        decreases tokens@.len() - i,
    {
        let a = tokens[i - 1];
        let b = tokens[i];
        if !(a.line < b.line || (a.line == b.line && a.start_char <= b.start_char)) {
            return false;
        }
        i += 1;
    }
    true
}

/// The token type of a marker's prefix.
pub const TOKEN_PREFIX: u32 = 0;

/// The token type of a marker's verb.
pub const TOKEN_VERB: u32 = 1;

/// The token type of a marker's rule id.
pub const TOKEN_RULE: u32 = 2;

/// The token of `length` bytes at `offset`, on the line and at the column of
/// the offset.
pub open spec fn token_at(s: Seq<u8>, offset: int, length: int, token_type: u32, modifiers: u32) -> LspToken {
    LspToken {
        line: point_at(s, offset).line as u32,
        start_char: point_at(s, offset).column as u32,
        length: length as u32,
        token_type,
        modifiers,
    }
}

/// The tokens of one marker: its prefix, its verb where it has one, and its
/// rule id.
pub open spec fn marker_tokens_of(s: Seq<u8>, m: RawMarker, modifiers: u32) -> Seq<LspToken> {
    let prefix = token_at(s, m.start as int, m.prefix@.len() as int, TOKEN_PREFIX, modifiers);
    let verb_start = m.start + m.prefix@.len() + 1;
    let rule = token_at(s, m.id_start as int, m.end - 1 - m.id_start, TOKEN_RULE, modifiers);
    if m.verb.is_some() {
        seq![prefix, token_at(s, verb_start, m.id_start - 1 - verb_start, TOKEN_VERB, modifiers), rule]
    } else {
        seq![prefix, rule]
    }
}

/// Whether the parts of the marker lie in the text in their order: the
/// prefix, the bracket, the verb and a space where there is a verb, the id,
/// the closing bracket.
pub open spec fn is_laid_out(s: Seq<u8>, m: RawMarker) -> bool {
    &&& m.start + m.prefix@.len() + 1 <= m.id_start < m.end <= s.len() <= u32::MAX
    &&& m.verb.is_some() ==> m.start + m.prefix@.len() + 2 <= m.id_start
}

/// The semantic tokens of one marker. There are none for a marker whose
/// parts do not lie in the text in their order.
pub fn marker_tokens(content: &str, marker: &RawMarker, modifiers: u32) -> (tokens: Vec<LspToken>)
    ensures
        tokens@ == if is_laid_out(content.spec_bytes(), *marker) {
            marker_tokens_of(content.spec_bytes(), *marker, modifiers)
        } else {
            Seq::empty()
        },
{
    let mut tokens: Vec<LspToken> = Vec::new();
    let len = content.as_bytes().len();
    let prefix_len = chars_of(marker.prefix.as_str()).len();
    if len > 0xffff_ffff || marker.end > len || marker.id_start >= marker.end || prefix_len
        >= marker.id_start || marker.start >= marker.id_start - prefix_len {
        return tokens;
    }
    let verb_start = marker.start + prefix_len + 1;
    if marker.verb.is_some() && verb_start + 1 > marker.id_start {
        return tokens;
    }
    let (line, start_char) = offset_to_line_col(content, marker.start);
    tokens.push(
        LspToken { line, start_char, length: prefix_len as u32, token_type: TOKEN_PREFIX, modifiers },
    );
    if marker.verb.is_some() {
        let (line, start_char) = offset_to_line_col(content, verb_start);
        tokens.push(
            LspToken {
                line,
                start_char,
                length: (marker.id_start - 1 - verb_start) as u32,
                token_type: TOKEN_VERB,
                modifiers,
            },
        );
    }
    let (line, start_char) = offset_to_line_col(content, marker.id_start);
    tokens.push(
        LspToken {
            line,
            start_char,
            length: (marker.end - 1 - marker.id_start) as u32,
            token_type: TOKEN_RULE,
            modifiers,
        },
    );
    tokens
}

/// The references among the first `upto` that name the rule `base` under
/// `prefix`, in any version, by their place.
pub open spec fn naming(refs: Seq<Reference>, prefix: Seq<char>, base: Seq<char>, upto: int) -> Seq<usize>
    decreases upto,
{
    if upto <= 0 {
        Seq::empty()
    } else {
        let head = naming(refs, prefix, base, upto - 1);
        if refs[upto - 1].prefix@ == prefix && refs[upto - 1].id.base@ == base {
            head.push((upto - 1) as usize)
        } else {
            head
        }
    }
}

/// All references to a rule: those that carry its prefix and name its base,
/// whatever the version, in the order of the scan.
pub fn references_to(refs: &Vec<Reference>, prefix: &str, base: &str) -> (places: Vec<usize>)
    ensures
        places@ == naming(refs@, prefix@, base@, refs@.len() as int),
{
    let mut places: Vec<usize> = Vec::new();
    let mut i: usize = 0;
    while i < refs.len()
        invariant
            i <= refs@.len(),
            places@ == naming(refs@, prefix@, base@, i as int),
        decreases refs@.len() - i,
    {
        if str_same(refs[i].prefix.as_str(), prefix) && str_same(refs[i].id.base.as_str(), base) {
            places.push(i);
        }
        i += 1;
    }
    places
}

/// Whether the characters of `typed` occur in `text` in their order, from
/// the places `i` and `j` on.
pub open spec fn is_subsequence_from(typed: Seq<char>, text: Seq<char>, i: int, j: int) -> bool
    decreases text.len() - j,
{
    if i >= typed.len() {
        true
    } else if j < 0 || j >= text.len() {
        false
    } else if typed[i] == text[j] {
        is_subsequence_from(typed, text, i + 1, j + 1)
    } else {
        is_subsequence_from(typed, text, i, j + 1)
    }
}

/// Whether `text` matches what was typed, loosely: the typed characters
/// occur in it in their order.
pub fn fuzzy_matches(typed: &str, text: &str) -> (yes: bool)
    ensures
        yes == is_subsequence_from(typed@, text@, 0, 0),
{
    let t = chars_of(typed);
    let s = chars_of(text);
    let mut i: usize = 0;
    let mut j: usize = 0;
    while i < t.len() && j < s.len()
        invariant
            i <= t@.len(),
            j <= s@.len(),
            t@ == typed@,
            s@ == text@,
            is_subsequence_from(typed@, text@, 0, 0) == is_subsequence_from(
                typed@,
                text@,
                i as int,
                j as int,
            ),
        decreases s@.len() - j,
    {
        if t[i] == s[j] {
            i += 1;
        }
        j += 1;
    }
    i == t.len()
}

/// The absolute position that the relative token `delta` names after a
/// token at `prev_line` and `prev_char`.
pub open spec fn absolute_position(delta: SemanticToken, prev_line: u32, prev_char: u32) -> (int, int) {
    (
        prev_line + delta.delta_line,
        if delta.delta_line == 0 {
            prev_char + delta.delta_start
        } else {
            delta.delta_start as int
        },
    )
}

/// Decoding what was encoded gives each token's position back.
pub proof fn law_token_encoding_round_trips(tokens: Seq<LspToken>, i: int)
    requires
        tokens_in_order(tokens),
        0 <= i < tokens.len(),
    ensures
        absolute_position(
            encoded_at(tokens, i),
            if i == 0 {
                0
            } else {
                tokens[i - 1].line
            },
            if i == 0 {
                0
            } else {
                tokens[i - 1].start_char
            },
        ) == (tokens[i].line as int, tokens[i].start_char as int),
{
    if i > 0 {
        assert(token_le(tokens[i - 1], tokens[i]));
    }
}

/// The severity that a name stands for: `error`, `warning` and `info` by
/// name, anything else is a hint.
pub open spec fn severity_named(name: Seq<char>) -> Severity {
    if name == "error"@ {
        Severity::Error
    } else if name == "warning"@ {
        Severity::Warning
    } else if name == "info"@ {
        Severity::Info
    } else {
        Severity::Hint
    }
}

/// Reads the severity of a finding from its name.
pub fn severity_from_name(name: &str) -> (severity: Severity)
    ensures
        severity == severity_named(name@),
{
    if str_same(name, "error") {
        Severity::Error
    } else if str_same(name, "warning") {
        Severity::Warning
    } else if str_same(name, "info") {
        Severity::Info
    } else {
        Severity::Hint
    }
}

/// What kind of thing a completion offers.
#[derive(Debug, Clone, Copy, PartialEq, Eq, Structural)]
pub enum CompletionKind {
    Keyword,
    Constant,
    Text,
}

/// Reads the kind of a completion from its name: verbs are keywords, rules
/// are constants, anything else is text.
pub fn completion_kind(name: &str) -> (kind: CompletionKind)
    ensures
        kind == if name@ == "verb"@ {
            CompletionKind::Keyword
        } else if name@ == "rule"@ {
            CompletionKind::Constant
        } else {
            CompletionKind::Text
        },
{
    if str_same(name, "verb") {
        CompletionKind::Keyword
    } else if str_same(name, "rule") {
        CompletionKind::Constant
    } else {
        CompletionKind::Text
    }
}

/// Whether `path` is among `paths`.
pub open spec fn has_path(paths: Seq<Seq<char>>, path: Seq<char>) -> bool {
    exists|i: int| 0 <= i < paths.len() && #[trigger] paths[i] == path
}

fn contains_path(paths: &Vec<String>, path: &str) -> (yes: bool)
    ensures
        yes == has_path(strs(paths@), path@),
{
    let mut i: usize = 0;
    while i < paths.len()
        invariant
            i <= paths@.len(),
            forall|k: int| 0 <= k < i ==> #[trigger] strs(paths@)[k] != path@,
        decreases paths@.len() - i,
    {
        if str_same(paths[i].as_str(), path) {
            assert(strs(paths@)[i as int] == path@);
            return true;
        }
        i += 1;
    }
    false
}

/// The paths among the first `upto` published before that have no findings
/// now.
pub open spec fn vanished(previous: Seq<Seq<char>>, current: Seq<Seq<char>>, upto: int) -> Seq<
    Seq<char>,
>
    decreases upto,
{
    if upto <= 0 {
        Seq::empty()
    } else {
        let head = vanished(previous, current, upto - 1);
        if has_path(current, previous[upto - 1]) {
            head
        } else {
            head.push(previous[upto - 1])
        }
    }
}

/// The files whose published findings are to be cleared: those that had
/// findings published before and have none now.
pub fn paths_to_clear(previous: &Vec<String>, current: &Vec<String>) -> (clear: Vec<String>)
    ensures
        strs(clear@) == vanished(strs(previous@), strs(current@), previous@.len() as int),
{
    let mut clear: Vec<String> = Vec::new();
    let mut i: usize = 0;
    assert(strs(clear@) == Seq::<Seq<char>>::empty());
    while i < previous.len()
        invariant
            i <= previous@.len(),
            strs(clear@) == vanished(strs(previous@), strs(current@), i as int),
        decreases previous@.len() - i,
    {
        assert(strs(previous@)[i as int] == previous@[i as int]@);
        if !contains_path(current, previous[i].as_str()) {
            let ghost before = strs(clear@);
            clear.push(previous[i].clone());
            assert(strs(clear@) == before.push(previous@[i as int]@));
        }
        i += 1;
    }
    clear
}

/// The length that the header lines from `from` on announce. A line
/// `Content-Length: <n>` or `content-length: <n>` sets it, also to nothing
/// where its number does not parse; an empty line ends the header.
pub open spec fn content_length_from(s: Seq<char>, from: int, length: Option<usize>) -> Option<usize>
    decreases s.len() - from,
{
    if from < 0 || from >= s.len() {
        length
    } else {
        let line = trimmed(line_at(s, from));
        if line.len() == 0 {
            length
        } else if "Content-Length:"@.is_prefix_of(line) {
            content_length_from(
                s,
                next_line(s, from),
                length_of(line.subrange("Content-Length:"@.len() as int, line.len() as int)),
            )
        } else if "content-length:"@.is_prefix_of(line) {
            content_length_from(
                s,
                next_line(s, from),
                length_of(line.subrange("content-length:"@.len() as int, line.len() as int)),
            )
        } else {
            content_length_from(s, next_line(s, from), length)
        }
    }
}

/// The length that a header value writes, without the white space around it.
pub open spec fn length_of(value: Seq<char>) -> Option<usize> {
    match unsigned_of(trimmed(value), usize::MAX as nat) {
        Some(n) => Some(n as usize),
        None => None,
    }
}

fn header_value(line: &[char], key: &[char]) -> (length: Option<usize>)
    requires
        key@.is_prefix_of(line@),
    ensures
        length == length_of(line@.subrange(key@.len() as int, line@.len() as int)),
{
    let rest = slice_chars(line, key.len(), line.len());
    let value = trim_chars(rest.as_slice());
    match parse_unsigned(value.as_slice(), usize::MAX as u64) {
        Some(n) => Some(n as usize),
        None => None,
    }
}

/// Reads the length of the body from the header of a message.
pub fn parse_content_length(header: &str) -> (length: Option<usize>)
    ensures
        length == content_length_from(header@, 0, None),
{
    let s = chars_of(header);
    let upper = chars_of("Content-Length:");
    let lower = chars_of("content-length:");
    let mut length: Option<usize> = None;
    let mut from: usize = 0;
    while from < s.len()
        invariant
            from <= s@.len(),
            upper@ == "Content-Length:"@,
            lower@ == "content-length:"@,
            content_length_from(header@, 0, None) == content_length_from(s@, from as int, length),
            s@ == header@,
        decreases s@.len() - from,
    {
        let raw = read_line(s.as_slice(), from);
        let line = trim_chars(raw.as_slice());
        let end = line_end(s.as_slice(), from);
        if line.len() == 0 {
            return length;
        }
        if starts_with(line.as_slice(), upper.as_slice()) {
            length = header_value(line.as_slice(), upper.as_slice());
        } else if starts_with(line.as_slice(), lower.as_slice()) {
            length = header_value(line.as_slice(), lower.as_slice());
        }
        if end == s.len() {
            from = end;
        } else {
            from = end + 1;
        }
    }
    length
}

/// What an `initialize` request says of the workspace: its root as a URI,
/// the URI of its first workspace folder, and its root as a path.
#[derive(Debug)]
pub struct InitializeRoots {
    pub root_uri: Option<String>,
    pub first_folder_uri: Option<String>,
    pub root_path: Option<String>,
}

/// The three fields, with their strings as sequences.
pub struct InitializeRootsView {
    pub root_uri: Option<Seq<char>>,
    pub first_folder_uri: Option<Seq<char>>,
    pub root_path: Option<Seq<char>>,
}

impl View for InitializeRoots {
    type V = InitializeRootsView;

    open spec fn view(&self) -> InitializeRootsView {
        InitializeRootsView {
            root_uri: crate::mcp::opt_string_view(self.root_uri),
            first_folder_uri: crate::mcp::opt_string_view(self.first_folder_uri),
            root_path: crate::mcp::opt_string_view(self.root_path),
        }
    }
}

/// What the JSON body of a request says under `params`: the strings at
/// `rootUri`, at `workspaceFolders[0].uri` and at `rootPath`, as `serde_json`
/// reads them. There is nothing where the body is no JSON or has no `params`.
pub uninterp spec fn initialize_roots(body: Seq<u8>) -> Option<InitializeRootsView>;

/// `serde_json::from_slice` into a `Value`, then `Value::get`,
/// `Value::as_str` and `Value::as_array` to pick the three strings. A field
/// that is missing, or is no string, is `None`.
#[verifier::external_body]
fn read_initialize_roots(body: &[u8]) -> (roots: Option<InitializeRoots>)
    ensures
        match roots {
            Some(r) => initialize_roots(body@) == Some(r@),
            None => initialize_roots(body@).is_none(),
        },
{
    let value: serde_json::Value = serde_json::from_slice(body).ok()?;
    let params = value.get("params")?;
    let text = |v: &serde_json::Value| v.as_str().map(String::from);
    Some(InitializeRoots {
        root_uri: params.get("rootUri").and_then(text),
        first_folder_uri: params.get("workspaceFolders").and_then(|v| v.as_array())
            .and_then(|folders| folders.first()).and_then(|folder| folder.get("uri")).and_then(text),
        root_path: params.get("rootPath").and_then(text),
    })
}

/// The path of a URI, where there is a URI and it names a local file.
pub open spec fn uri_path(uri: Option<Seq<char>>) -> Option<Seq<char>> {
    match uri {
        Some(text) => file_uri_path(text),
        None => None,
    }
}

/// The workspace root that the three fields name: the path of the root URI,
/// else the path of the first workspace folder's URI, else the root path.
pub open spec fn root_of(roots: InitializeRootsView) -> Option<Seq<char>> {
    match uri_path(roots.root_uri) {
        Some(path) => Some(path),
        None => match uri_path(roots.first_folder_uri) {
            Some(path) => Some(path),
            None => roots.root_path,
        },
    }
}

fn path_of(uri: &Option<String>) -> (path: Option<String>)
    ensures
        crate::mcp::opt_string_view(path) == uri_path(crate::mcp::opt_string_view(*uri)),
{
    match uri {
        Some(text) => file_uri_to_path(text.as_str()),
        None => None,
    }
}

/// Picks the workspace root from what an `initialize` request says.
pub fn select_root(roots: &InitializeRoots) -> (root: Option<String>)
    ensures
        crate::mcp::opt_string_view(root) == root_of(roots@),
{
    match path_of(&roots.root_uri) {
        Some(path) => Some(path),
        None => match path_of(&roots.first_folder_uri) {
            Some(path) => Some(path),
            None => match &roots.root_path {
                Some(path) => Some(path.clone()),
                None => None,
            },
        },
    }
}

/// Extracts the workspace root from the JSON body of an `initialize`
/// request.
pub fn extract_root_from_initialize(body: &[u8]) -> (root: Option<String>)
    ensures
        crate::mcp::opt_string_view(root) == match initialize_roots(body@) {
            Some(roots) => root_of(roots),
            None => None,
        },
{
    match read_initialize_roots(body) {
        Some(roots) => select_root(&roots),
        None => None,
    }
}

/// The absolute form of a path: itself where it is absolute, else the path
/// below the project root.
pub open spec fn absolute_of(project_root: Seq<char>, path: Seq<char>) -> Seq<char> {
    if is_absolute(path) {
        path
    } else {
        join_of(project_root, path)
    }
}

/// The URI of a symbol's file: that of its path, taken below the project
/// root where it is relative. A symbol without path has none.
pub fn symbol_uri_from_path(project_root: &str, path: Option<&str>) -> (uri: Option<String>)
    ensures
        crate::mcp::opt_string_view(uri) == match path {
            Some(p) => path_file_uri(absolute_of(project_root@, p@)),
            None => None,
        },
{
    match path {
        None => None,
        Some(p) => {
            let chars = chars_of(p);
            let absolute = if chars.len() > 0 && chars[0] == '/' {
                string_of(chars.as_slice())
            } else {
                let root = chars_of(project_root);
                let joined = join_chars(root.as_slice(), chars.as_slice());
                assert(joined@ == join_of(project_root@, p@));
                string_of(joined.as_slice())
            };
            path_to_file_uri(absolute.as_str())
        },
    }
}

/// What the daemon says of the rule under the cursor.
#[derive(Debug)]
pub struct HoverInfo {
    pub rule_id: String,
    /// The raw Markdown of the rule.
    pub raw: String,
    pub spec_name: String,
    pub spec_url: Option<String>,
    pub impl_refs: Vec<ApiCodeRef>,
    pub verify_refs: Vec<ApiCodeRef>,
    /// The word-level diff from the previous version of the rule.
    pub version_diff: Option<String>,
}

/// One reference in a hover: a link to its file and line where the file has
/// a URI, else the file and line alone.
pub open spec fn hover_ref_line(root: Seq<char>, file: Seq<char>, line: usize) -> Seq<char> {
    match path_file_uri(join_of(root, file)) {
        Some(uri) => "\n- ["@ + file + ":"@ + decimal(line as nat) + "]("@ + uri + "#L"@ + decimal(
            line as nat,
        ) + ")"@,
        None => "\n- "@ + file + ":"@ + decimal(line as nat),
    }
}

/// The lines of the first `upto` references.
pub open spec fn hover_ref_lines(root: Seq<char>, refs: Seq<ApiCodeRef>, upto: int) -> Seq<char>
    decreases upto,
{
    if upto <= 0 {
        Seq::empty()
    } else {
        hover_ref_lines(root, refs, upto - 1) + hover_ref_line(
            root,
            refs[upto - 1].file@,
            refs[upto - 1].line,
        )
    }
}

/// A list of references under its title, or nothing where the list is
/// empty.
pub open spec fn hover_section(title: Seq<char>, root: Seq<char>, refs: Seq<ApiCodeRef>) -> Seq<char> {
    if refs.len() == 0 {
        Seq::empty()
    } else {
        title + hover_ref_lines(root, refs, refs.len() as int)
    }
}

/// The head of a hover: the rule's id and text, and the spec it belongs to
/// with a link to its source where that is known.
pub open spec fn hover_head(info: HoverInfo) -> Seq<char> {
    "## "@ + info.rule_id@ + "\n\n"@ + info.raw@ + "\n\n**Spec:** "@ + info.spec_name@ + match info.spec_url {
        Some(url) => " ([source]("@ + url@ + "))"@,
        None => Seq::empty(),
    }
}

/// The end of a hover: a note where the rule has no references at all, and
/// the changes from the previous version where there is one.
pub open spec fn hover_tail(info: HoverInfo) -> Seq<char> {
    (if info.impl_refs@.len() == 0 && info.verify_refs@.len() == 0 {
        "\n\n*No implementations or verifications*"@
    } else {
        Seq::empty()
    }) + match info.version_diff {
        Some(diff) => "\n\n**Changes from previous version:**\n\n"@ + diff@,
        None => Seq::empty(),
    }
}

/// The Markdown of a hover.
pub open spec fn hover_text(info: HoverInfo, root: Seq<char>) -> Seq<char> {
    hover_head(info) + hover_section("\n\n**Implementations:**"@, root, info.impl_refs@)
        + hover_section("\n\n**Verifications:**"@, root, info.verify_refs@) + hover_tail(info)
}

fn push_ref_line(out: &mut Vec<char>, root: &[char], r: &ApiCodeRef)
    ensures
        final(out)@ == old(out)@ + hover_ref_line(root@, r.file@, r.line),
{
    let file = chars_of(r.file.as_str());
    let absolute = join_chars(root, file.as_slice());
    let absolute_text = string_of(absolute.as_slice());
    match path_to_file_uri(absolute_text.as_str()) {
        Some(uri) => {
            push_str(out, "\n- [");
            push_all(out, file.as_slice());
            push_str(out, ":");
            push_decimal(out, r.line as u64);
            push_str(out, "](");
            push_str(out, uri.as_str());
            push_str(out, "#L");
            push_decimal(out, r.line as u64);
            push_str(out, ")");
        },
        None => {
            push_str(out, "\n- ");
            push_all(out, file.as_slice());
            push_str(out, ":");
            push_decimal(out, r.line as u64);
        },
    }
}

fn push_section(out: &mut Vec<char>, title: &str, root: &[char], refs: &Vec<ApiCodeRef>)
    ensures
        final(out)@ == old(out)@ + hover_section(title@, root@, refs@),
{
    if refs.len() == 0 {
        assert(out@ + Seq::<char>::empty() == out@);
        return ;
    }
    push_str(out, title);
    let ghost start = out@;
    let mut i: usize = 0;
    assert(start + hover_ref_lines(root@, refs@, 0) == start);
    while i < refs.len()
        invariant
            i <= refs@.len(),
            out@ == start + hover_ref_lines(root@, refs@, i as int),
        decreases refs@.len() - i,
    {
        let ghost done = hover_ref_lines(root@, refs@, i as int);
        push_ref_line(out, root, &refs[i]);
        proof {
            crate::json::lemma_append(
                start,
                done,
                hover_ref_line(root@, refs@[i as int].file@, refs@[i as int].line),
            );
        }
        i += 1;
    }
    proof {
        crate::json::lemma_append(old(out)@, title@, hover_ref_lines(root@, refs@, refs@.len() as int));
    }
}

fn push_head(out: &mut Vec<char>, info: &HoverInfo)
    ensures
        final(out)@ == old(out)@ + hover_head(*info),
{
    push_str(out, "## ");
    push_str(out, info.rule_id.as_str());
    push_str(out, "\n\n");
    push_str(out, info.raw.as_str());
    push_str(out, "\n\n**Spec:** ");
    push_str(out, info.spec_name.as_str());
    match &info.spec_url {
        Some(url) => {
            push_str(out, " ([source](");
            push_str(out, url.as_str());
            push_str(out, "))");
        },
        None => {},
    }
}

fn push_tail(out: &mut Vec<char>, info: &HoverInfo)
    ensures
        final(out)@ == old(out)@ + hover_tail(*info),
{
    if info.impl_refs.len() == 0 && info.verify_refs.len() == 0 {
        push_str(out, "\n\n*No implementations or verifications*");
    }
    match &info.version_diff {
        Some(diff) => {
            push_str(out, "\n\n**Changes from previous version:**\n\n");
            push_str(out, diff.as_str());
        },
        None => {},
    }
}

/// Formats a hover as Markdown: the rule, its spec, its implementing and
/// verifying references as links, and the changes from the previous version.
pub fn hover_markdown(info: &HoverInfo, project_root: &str) -> (markdown: String)
    ensures
        markdown@ == hover_text(*info, project_root@),
{
    let root = chars_of(project_root);
    let mut out: Vec<char> = Vec::new();
    push_head(&mut out, info);
    push_section(&mut out, "\n\n**Implementations:**", root.as_slice(), &info.impl_refs);
    push_section(&mut out, "\n\n**Verifications:**", root.as_slice(), &info.verify_refs);
    push_tail(&mut out, info);
    string_of(out.as_slice())
}

} // verus!
