//! Markers: the `prefix[verb rule.id+version]` units that tie code and prose
//! to rules, and the rule ids they name.

use vstd::prelude::*;
use vstd::string::StringSliceAdditionalSpecFns;
use vstd::utf8::encode_utf8;
use crate::text::{decimal, push_char, push_decimal, push_str, string_of};

verus! {

/// What a marker says of its rule.
#[derive(Debug, Clone, Copy, PartialEq, Eq, Structural)]
pub enum RefVerb {
    /// The marker defines the rule.
    Define,
    /// The code implements the rule.
    Impl,
    /// The code verifies the rule.
    Verify,
    /// The code depends on the rule.
    Depends,
    /// The code is related to the rule.
    Related,
}

/// Whether `b` is a lower-case ASCII letter.
pub open spec fn is_lower(b: u8) -> bool {
    0x61 <= b && b <= 0x7a
}

/// Whether `b` is an ASCII digit.
pub open spec fn is_digit(b: u8) -> bool {
    0x30 <= b && b <= 0x39
}

/// Whether `s` from `from` on continues the base of a rule id. `dotted` says
/// whether a dot came before: hyphens stand only after the first dot, and a
/// base ends only after one.
pub open spec fn base_tail(s: Seq<u8>, from: int, dotted: bool) -> bool
    decreases s.len() - from,
{
    if from < 0 || from >= s.len() {
        dotted
    } else if is_lower(s[from]) || is_digit(s[from]) {
        base_tail(s, from + 1, dotted)
    } else if s[from] == 0x2d {
        dotted && base_tail(s, from + 1, dotted)
    } else if s[from] == 0x2e {
        from + 1 < s.len() && is_lower(s[from + 1]) && base_tail(s, from + 2, true)
    } else {
        false
    }
}

/// Whether `s` is the base of a rule id: two or more components separated by
/// dots, each starting with a lower-case letter; the first made of lower-case
/// letters and digits, the others also of hyphens.
pub open spec fn is_base(s: Seq<u8>) -> bool {
    s.len() > 0 && is_lower(s[0]) && base_tail(s, 1, false)
}

/// The index of the first `b` at or after `from`, or the length of `s`.
pub open spec fn index_of_from(s: Seq<u8>, b: u8, from: int) -> int
    decreases s.len() - from,
{
    if from < 0 || from >= s.len() {
        s.len() as int
    } else if s[from] == b {
        from
    } else {
        index_of_from(s, b, from + 1)
    }
}

/// What `index_of_from` finds lies at or after `from`.
pub proof fn lemma_index_of_from(s: Seq<u8>, b: u8, from: int)
    requires
        0 <= from <= s.len(),
    ensures
        from <= index_of_from(s, b, from) <= s.len(),
        index_of_from(s, b, from) < s.len() ==> s[index_of_from(s, b, from)] == b,
        forall|k: int| from <= k < index_of_from(s, b, from) ==> s[k] != b,
    decreases s.len() - from,
{
    if from < s.len() && s[from] != b {
        lemma_index_of_from(s, b, from + 1);
    }
}

/// The number that a run of ASCII digits writes. There is none where a byte
/// is no digit, or where the number passes `limit`.
pub open spec fn number_of(s: Seq<u8>, limit: nat) -> Option<nat>
    decreases s.len(),
{
    if s.len() == 0 {
        Some(0)
    } else {
        match number_of(s.drop_last(), limit) {
            Some(high) => if is_digit(s.last()) && high * 10 + (s.last() - 0x30) <= limit {
                Some((high * 10 + (s.last() - 0x30)) as nat)
            } else {
                None
            },
            None => None,
        }
    }
}

/// Once a prefix writes no number, no longer run does.
pub proof fn lemma_number_none_extends(s: Seq<u8>, len: int, limit: nat)
    requires
        0 <= len <= s.len(),
        number_of(s.subrange(0, len), limit).is_none(),
    ensures
        number_of(s, limit).is_none(),
    decreases s.len() - len,
{
    if len < s.len() {
        assert(s.subrange(0, len + 1).drop_last() == s.subrange(0, len));
        lemma_number_none_extends(s, len + 1, limit);
    } else {
        assert(s.subrange(0, len) == s);
    }
}

/// The base and the version that `s` names: a base, and after it either
/// nothing, for version 1, or `+` and the version in digits.
pub open spec fn rule_id_of(s: Seq<u8>) -> Option<(Seq<u8>, u32)> {
    let plus = index_of_from(s, 0x2b, 0);
    let base = s.subrange(0, plus);
    if !is_base(base) {
        None
    } else if plus >= s.len() {
        Some((base, 1u32))
    } else if plus + 1 >= s.len() {
        None
    } else {
        match number_of(s.subrange(plus + 1, s.len() as int), u32::MAX as nat) {
            Some(version) => Some((base, version as u32)),
            None => None,
        }
    }
}

/// `n` in ASCII digits, without leading zeros.
pub open spec fn digit_bytes(n: nat) -> Seq<u8>
    decreases n,
{
    if n < 10 {
        seq![(0x30 + n) as u8]
    } else {
        digit_bytes(n / 10).push((0x30 + n % 10) as u8)
    }
}

/// A rule id as it is written: the base alone for version 1, else the base,
/// `+` and the version in digits.
pub open spec fn written(base: Seq<u8>, version: u32) -> Seq<u8> {
    if version == 1 {
        base
    } else {
        base + seq![0x2bu8] + digit_bytes(version as nat)
    }
}

/// What continues a base holds letters, digits, dots and hyphens only.
pub proof fn lemma_base_bytes(s: Seq<u8>, from: int, dotted: bool)
    requires
        0 <= from,
        base_tail(s, from, dotted),
    ensures
        forall|i: int|
            from <= i < s.len() ==> is_lower(#[trigger] s[i]) || is_digit(s[i]) || s[i] == 0x2d || s[i]
                == 0x2e,
    decreases s.len() - from,
{
    if from < s.len() {
        if is_lower(s[from]) || is_digit(s[from]) || s[from] == 0x2d {
            lemma_base_bytes(s, from + 1, dotted);
        } else {
            lemma_base_bytes(s, from + 2, true);
        }
    }
}

/// Where a text holds no `b` up to `end`, the search for `b` arrives at
/// `end`.
pub proof fn lemma_index_skips(s: Seq<u8>, b: u8, from: int, end: int)
    requires
        0 <= from <= end <= s.len(),
        forall|i: int| from <= i < end ==> s[i] != b,
    ensures
        index_of_from(s, b, from) == index_of_from(s, b, end),
    decreases end - from,
{
    if from < end {
        lemma_index_skips(s, b, from + 1, end);
    }
}

/// The digits of a number read as the number.
pub proof fn lemma_digit_bytes_round_trip(n: nat, limit: nat)
    requires
        n <= limit,
    ensures
        digit_bytes(n).len() >= 1,
        number_of(digit_bytes(n), limit) == Some(n),
    decreases n,
{
    let s = digit_bytes(n);
    if n < 10 {
        assert(s.drop_last() == Seq::<u8>::empty());
        assert(number_of(s.drop_last(), limit) == Some(0nat));
        assert(s.last() == (0x30 + n) as u8);
    } else {
        lemma_digit_bytes_round_trip(n / 10, limit);
        assert(s.drop_last() == digit_bytes(n / 10));
        assert(s.last() == (0x30 + n % 10) as u8);
        assert((n / 10) * 10 + n % 10 == n);
    }
}

/// A rule id that is written and read back is the same: its base and its
/// version.
pub proof fn law_rule_id_round_trips(base: Seq<u8>, version: u32)
    requires
        is_base(base),
    ensures
        rule_id_of(written(base, version)) == Some((base, version)),
{
    let s = written(base, version);
    lemma_base_bytes(base, 1, false);
    assert forall|i: int| 0 <= i < base.len() implies base[i] != 0x2b by {
        if i >= 1 {
            assert(is_lower(base[i]) || is_digit(base[i]) || base[i] == 0x2d || base[i] == 0x2e);
        }
    }
    if version == 1 {
        lemma_index_skips(s, 0x2b, 0, s.len() as int);
        assert(s.subrange(0, s.len() as int) == base);
    } else {
        let digits = digit_bytes(version as nat);
        lemma_digit_bytes_round_trip(version as nat, u32::MAX as nat);
        assert forall|i: int| 0 <= i < base.len() implies s[i] != 0x2b by {
            assert(s[i] == base[i]);
        }
        lemma_index_skips(s, 0x2b, 0, base.len() as int);
        assert(s[base.len() as int] == 0x2b);
        assert(index_of_from(s, 0x2b, 0) == base.len());
        assert(s.subrange(0, base.len() as int) == base);
        assert(s.subrange(base.len() as int + 1, s.len() as int) == digits);
    }
}

/// The characters of ASCII bytes.
pub open spec fn ascii(bytes: Seq<u8>) -> Seq<char> {
    bytes.map_values(|b: u8| b as char)
}

/// The digits of a number, as characters and as bytes, are the same.
pub proof fn lemma_decimal_bytes(n: nat)
    ensures
        decimal(n).len() == digit_bytes(n).len(),
        forall|i: int|
            0 <= i < decimal(n).len() ==> (#[trigger] decimal(n)[i]) as u8 == digit_bytes(n)[i] && '\0'
                <= decimal(n)[i] && decimal(n)[i] <= '\u{7f}',
    decreases n,
{
    if n >= 10 {
        lemma_decimal_bytes(n / 10);
        let head = decimal(n / 10);
        assert forall|i: int| 0 <= i < decimal(n).len() implies (#[trigger] decimal(n)[i]) as u8
            == digit_bytes(n)[i] && '\0' <= decimal(n)[i] && decimal(n)[i] <= '\u{7f}' by {
            if i < head.len() {
                assert(decimal(n)[i] == head[i]);
                assert(digit_bytes(n)[i] == digit_bytes(n / 10)[i]);
            }
        }
    }
}

/// What `render` writes for a rule id is the id as written, byte by byte.
pub proof fn law_render_writes_the_id(r: RuleId, base: Seq<u8>)
    requires
        is_base(base),
        r.base@ == ascii(base),
    ensures
        encode_utf8(r.rendered()) == written(base, r.version),
        rule_id_of(encode_utf8(r.rendered())) == Some((base, r.version)),
{
    let chars = r.rendered();
    let bytes = written(base, r.version);
    lemma_base_bytes(base, 1, false);
    lemma_decimal_bytes(r.version as nat);
    assert forall|i: int| 0 <= i < base.len() implies base[i] < 0x80 by {
        if i >= 1 {
            assert(is_lower(base[i]) || is_digit(base[i]) || base[i] == 0x2d || base[i] == 0x2e);
        }
    }
    assert(chars.len() == bytes.len());
    assert forall|i: int| 0 <= i < chars.len() implies '\0' <= #[trigger] chars[i] && chars[i]
        <= '\u{7f}' && chars[i] as u8 == bytes[i] by {
        if i < base.len() {
            assert(chars[i] == base[i] as char);
            assert(bytes[i] == base[i]);
        } else if i == base.len() {
            assert(chars[i] == '+');
        } else {
            assert(chars[i] == decimal(r.version as nat)[i - base.len() - 1]);
            assert(bytes[i] == digit_bytes(r.version as nat)[i - base.len() - 1]);
        }
    }
    assert(vstd::utf8::is_ascii_chars(chars));
    vstd::utf8::is_ascii_chars_encode_utf8(chars);
    assert(encode_utf8(chars) =~= bytes);
    law_rule_id_round_trips(base, r.version);
}

/// The identity of a rule: its dotted base and its version.
#[derive(Debug, Clone)]
pub struct RuleId {
    pub base: String,
    pub version: u32,
}

impl RuleId {
    /// How the id is written: the base alone for version 1, else the base,
    /// `+` and the version.
    pub open spec fn rendered(&self) -> Seq<char> {
        if self.version == 1 {
            self.base@
        } else {
            self.base@ + seq!['+'] + decimal(self.version as nat)
        }
    }

    /// Whether the id names what `parts` holds.
    pub open spec fn names(&self, parts: (Seq<u8>, u32)) -> bool {
        self.base@ == ascii(parts.0) && self.version == parts.1
    }

    /// The id as it is written in markers.
    pub fn render(&self) -> (text: String)
        ensures
            text@ == self.rendered(),
    {
        let mut out: Vec<char> = Vec::new();
        push_str(&mut out, self.base.as_str());
        if self.version != 1 {
            out.push('+');
            push_decimal(&mut out, self.version as u64);
        }
        string_of(out.as_slice())
    }

    /// Whether two ids name the same rule in the same version.
    pub fn same(&self, other: &RuleId) -> (yes: bool)
        ensures
            yes == (self.base@ == other.base@ && self.version == other.version),
    {
        self.base == other.base && self.version == other.version
    }
}

fn lower(b: u8) -> (yes: bool)
    ensures
        yes == is_lower(b),
{
    0x61 <= b && b <= 0x7a
}

fn digit(b: u8) -> (yes: bool)
    ensures
        yes == is_digit(b),
{
    0x30 <= b && b <= 0x39
}

/// Whether `s[start..end]` is a base.
fn check_base(s: &[u8], start: usize, end: usize) -> (yes: bool)
    requires
        start <= end <= s@.len(),
    ensures
        yes == is_base(s@.subrange(start as int, end as int)),
{
    let ghost sub = s@.subrange(start as int, end as int);
    if start == end || !lower(s[start]) {
        return false;
    }
    let mut i: usize = start + 1;
    let mut dotted = false;
    while i < end
        invariant
            start < i <= end + 1,
            end <= s@.len(),
            sub == s@.subrange(start as int, end as int),
            i <= end ==> is_base(sub) == base_tail(sub, i - start, dotted),
            i == end + 1 ==> is_base(sub) == dotted,
        decreases end + 1 - i,
    {
        let b = s[i];
        assert(sub[i - start] == b);
        if lower(b) || digit(b) {
            i += 1;
        } else if b == 0x2d {
            if !dotted {
                return false;
            }
            i += 1;
        } else if b == 0x2e {
            if i + 1 >= end || !lower(s[i + 1]) {
                assert(i + 1 < end ==> sub[i + 1 - start] == s@[i + 1]);
                return false;
            }
            assert(sub[i + 1 - start] == s@[i + 1]);
            dotted = true;
            i += 2;
        } else {
            return false;
        }
    }
    dotted
}

/// The first index of `b` in `s[from..end]`, or `end`.
fn find_byte(s: &[u8], b: u8, from: usize, end: usize) -> (at: usize)
    requires
        from <= end <= s@.len(),
    ensures
        from <= at <= end,
        at == index_of_from(s@.subrange(0, end as int), b, from as int),
{
    let ghost sub = s@.subrange(0, end as int);
    let mut at: usize = from;
    while at < end && s[at] != b
        invariant
            from <= at <= end <= s@.len(),
            sub == s@.subrange(0, end as int),
            index_of_from(sub, b, from as int) == index_of_from(sub, b, at as int),
        decreases end - at,
    {
        assert(sub[at as int] == s@[at as int]);
        at += 1;
    }
    assert(at < end ==> sub[at as int] == s@[at as int]);
    at
}

/// The number at `s[from..to]`.
fn parse_number(s: &[u8], from: usize, to: usize, limit: u64) -> (value: Option<u64>)
    requires
        from <= to <= s@.len(),
    ensures
        match value {
            Some(v) => number_of(s@.subrange(from as int, to as int), limit as nat) == Some(v as nat),
            None => number_of(s@.subrange(from as int, to as int), limit as nat).is_none(),
        },
{
    let mut acc: u64 = 0;
    let mut i: usize = from;
    assert(s@.subrange(from as int, from as int) == Seq::<u8>::empty());
    while i < to
        invariant
            from <= i <= to <= s@.len(),
            acc <= limit,
            number_of(s@.subrange(from as int, i as int), limit as nat) == Some(acc as nat),
        decreases to - i,
    {
        let b = s[i];
        let ghost upto = s@.subrange(from as int, i + 1);
        assert(upto.drop_last() == s@.subrange(from as int, i as int));
        assert(upto.last() == b);
        let ok = if digit(b) {
            let d: u64 = (b - 0x30) as u64;
            if limit < d || acc > (limit - d) / 10 {
                proof {
                    assert(acc * 10 + d > limit) by (nonlinear_arith)
                        requires
                            limit < d || acc > (limit - d) / 10,
                            0 <= d < 10,
                            0 <= acc,
                            0 <= limit,
                    ;
                }
                false
            } else {
                assert(acc * 10 + d <= limit) by (nonlinear_arith)
                    requires
                        acc <= (limit - d) / 10,
                        limit >= d,
                ;
                acc = acc * 10 + d;
                true
            }
        } else {
            false
        };
        if !ok {
            proof {
                assert(number_of(upto, limit as nat).is_none());
                assert(s@.subrange(from as int, to as int).subrange(0, i + 1 - from) == upto);
                lemma_number_none_extends(
                    s@.subrange(from as int, to as int),
                    i + 1 - from,
                    limit as nat,
                );
            }
            return None;
        }
        i += 1;
    }
    Some(acc)
}

/// The string of the ASCII bytes `s[from..to]`.
fn ascii_string(s: &[u8], from: usize, to: usize) -> (text: String)
    requires
        from <= to <= s@.len(),
    ensures
        text@ == ascii(s@.subrange(from as int, to as int)),
{
    let mut out = String::new();
    let mut i: usize = from;
    while i < to
        invariant
            from <= i <= to <= s@.len(),
            out@ == ascii(s@.subrange(from as int, i as int)),
        decreases to - i,
    {
        push_char(&mut out, s[i] as char);
        assert(s@.subrange(from as int, i + 1) == s@.subrange(from as int, i as int).push(
            s@[i as int],
        ));
        i += 1;
    }
    out
}

/// The rule id that `s[start..end]` names.
fn rule_id_in(s: &[u8], start: usize, end: usize) -> (id: Option<RuleId>)
    requires
        start <= end <= s@.len(),
    ensures
        match id {
            Some(r) => match rule_id_of(s@.subrange(start as int, end as int)) {
                Some(parts) => r.names(parts),
                None => false,
            },
            None => rule_id_of(s@.subrange(start as int, end as int)).is_none(),
        },
{
    let ghost sub = s@.subrange(start as int, end as int);
    let plus = find_byte(s, 0x2b, start, end);
    proof {
        lemma_index_shift(s@, 0x2b, start as int, end as int, start as int);
        assert(sub.subrange(0, plus - start) == s@.subrange(start as int, plus as int));
    }
    if !check_base(s, start, plus) {
        return None;
    }
    if plus >= end {
        return Some(RuleId { base: ascii_string(s, start, plus), version: 1 });
    }
    if plus + 1 >= end {
        return None;
    }
    assert(sub.subrange(plus + 1 - start, sub.len() as int) == s@.subrange(plus + 1, end as int));
    match parse_number(s, plus + 1, end, 0xffff_ffff) {
        Some(version) => Some(RuleId { base: ascii_string(s, start, plus), version: version as u32 }),
        None => None,
    }
}

/// Searching a part of `s` finds what searching `s` up to the part's end
/// finds, counted from the part's start.
pub proof fn lemma_index_shift(s: Seq<u8>, b: u8, start: int, end: int, from: int)
    requires
        0 <= start <= from <= end <= s.len(),
    ensures
        index_of_from(s.subrange(start, end), b, from - start) == index_of_from(
            s.subrange(0, end),
            b,
            from,
        ) - start,
    decreases end - from,
{
    let part = s.subrange(start, end);
    let head = s.subrange(0, end);
    if from < end {
        assert(part[from - start] == s[from]);
        assert(head[from] == s[from]);
        if s[from] != b {
            lemma_index_shift(s, b, start, end, from + 1);
        }
    }
}

/// Parses a rule id: `base` or `base+version`. Anything else is no rule id.
pub fn parse_rule_id(text: &str) -> (id: Option<RuleId>)
    ensures
        match id {
            Some(r) => match rule_id_of(text.spec_bytes()) {
                Some(parts) => r.names(parts),
                None => false,
            },
            None => rule_id_of(text.spec_bytes()).is_none(),
        },
{
    let bytes = text.as_bytes();
    assert(bytes@.subrange(0, bytes@.len() as int) == bytes@);
    rule_id_in(bytes, 0, bytes.len())
}

/// The number of lower-case letters that stand in `s` from `from` on.
pub open spec fn lower_run(s: Seq<u8>, from: int) -> nat
    decreases s.len() - from,
{
    if from < 0 || from >= s.len() || !is_lower(s[from]) {
        0
    } else {
        1 + lower_run(s, from + 1)
    }
}

/// A run of letters ends within the text.
pub proof fn lemma_lower_run_bound(s: Seq<u8>, from: int)
    requires
        0 <= from <= s.len(),
    ensures
        from + lower_run(s, from) <= s.len(),
    decreases s.len() - from,
{
    if from < s.len() && is_lower(s[from]) {
        lemma_lower_run_bound(s, from + 1);
    }
}

/// The keyword of a verb, with the space that follows it in a marker.
pub open spec fn keyword(verb: RefVerb) -> Seq<u8> {
    match verb {
        RefVerb::Define => "define ".spec_bytes(),
        RefVerb::Impl => "impl ".spec_bytes(),
        RefVerb::Verify => "verify ".spec_bytes(),
        RefVerb::Depends => "depends ".spec_bytes(),
        RefVerb::Related => "related ".spec_bytes(),
    }
}

/// The verb with whose keyword a marker's body starts, if it starts with one.
pub open spec fn verb_of(body: Seq<u8>) -> Option<RefVerb> {
    if keyword(RefVerb::Impl).is_prefix_of(body) {
        Some(RefVerb::Impl)
    } else if keyword(RefVerb::Verify).is_prefix_of(body) {
        Some(RefVerb::Verify)
    } else if keyword(RefVerb::Depends).is_prefix_of(body) {
        Some(RefVerb::Depends)
    } else if keyword(RefVerb::Related).is_prefix_of(body) {
        Some(RefVerb::Related)
    } else if keyword(RefVerb::Define).is_prefix_of(body) {
        Some(RefVerb::Define)
    } else {
        None
    }
}

/// A marker as it stands in a text: its parts and its bytes, `start` counted
/// and `end` not.
pub struct MarkerView {
    pub prefix: Seq<u8>,
    pub verb: Option<RefVerb>,
    pub base: Seq<u8>,
    pub version: u32,
    pub start: int,
    /// Where the rule id starts: behind the bracket and the verb.
    pub id_start: int,
    pub end: int,
}

/// The marker that starts at `pos`: a run of lower-case letters, `[`, an
/// optional verb, a rule id, and `]`.
pub open spec fn marker_at(s: Seq<u8>, pos: int) -> Option<MarkerView> {
    let open = pos + lower_run(s, pos);
    if pos < 0 || open == pos || open >= s.len() || s[open] != 0x5b {
        None
    } else {
        let close = index_of_from(s, 0x5d, open + 1);
        if close >= s.len() {
            None
        } else {
            let body = s.subrange(open + 1, close);
            let skip = match verb_of(body) {
                Some(verb) => keyword(verb).len(),
                None => 0,
            };
            match rule_id_of(body.subrange(skip as int, body.len() as int)) {
                Some(parts) => Some(
                    MarkerView {
                        prefix: s.subrange(pos, open),
                        verb: verb_of(body),
                        base: parts.0,
                        version: parts.1,
                        start: pos,
                        id_start: open + 1 + skip,
                        end: close + 1,
                    },
                ),
                None => None,
            }
        }
    }
}

/// Whether a marker may start at `pos`: no letter stands before it, and the
/// mask allows the place.
pub open spec fn may_start(s: Seq<u8>, eligible: Seq<bool>, pos: int) -> bool {
    &&& 0 <= pos < s.len()
    &&& (pos == 0 || !is_lower(s[pos - 1]))
    &&& pos < eligible.len()
    &&& eligible[pos]
}

/// The markers of `s` from `from` on, in order. A marker is recognized where
/// it may start; the scan goes on behind it.
pub open spec fn markers_from(s: Seq<u8>, eligible: Seq<bool>, from: int) -> Seq<MarkerView>
    decreases s.len() - from,
{
    if from < 0 || from >= s.len() {
        Seq::empty()
    } else if may_start(s, eligible, from) && marker_at(s, from).is_some() {
        let m = marker_at(s, from).unwrap();
        proof {
            lemma_lower_run_bound(s, from);
            lemma_index_of_from(s, 0x5d, from + lower_run(s, from) + 1);
        }
        seq![m] + markers_from(s, eligible, m.end)
    } else {
        markers_from(s, eligible, from + 1)
    }
}

/// What `marker_at` finds starts at `pos` and ends within the text, behind
/// its start.
pub proof fn lemma_marker_bounds(s: Seq<u8>, pos: int)
    requires
        marker_at(s, pos).is_some(),
    ensures
        marker_at(s, pos).unwrap().start == pos,
        pos + 2 < marker_at(s, pos).unwrap().end <= s.len(),
        pos + 2 <= marker_at(s, pos).unwrap().id_start < marker_at(s, pos).unwrap().end,
{
    lemma_lower_run_bound(s, pos);
    lemma_index_of_from(s, 0x5d, pos + lower_run(s, pos) + 1);
}

/// Every marker that the scan recognizes starts where the mask allows it.
pub proof fn lemma_markers_eligible(s: Seq<u8>, eligible: Seq<bool>, from: int)
    requires
        0 <= from,
    ensures
        forall|i: int|
            0 <= i < markers_from(s, eligible, from).len() ==> {
                let m = #[trigger] markers_from(s, eligible, from)[i];
                from <= m.start < eligible.len() && eligible[m.start] && m.start < m.end <= s.len()
            },
    decreases s.len() - from,
{
    if from < s.len() {
        if may_start(s, eligible, from) && marker_at(s, from).is_some() {
            let m = marker_at(s, from).unwrap();
            lemma_marker_bounds(s, from);
            lemma_markers_eligible(s, eligible, m.end);
            let rest = markers_from(s, eligible, m.end);
            assert forall|i: int| 0 <= i < markers_from(s, eligible, from).len() implies {
                let x = #[trigger] markers_from(s, eligible, from)[i];
                from <= x.start < eligible.len() && eligible[x.start] && x.start < x.end <= s.len()
            } by {
                if i > 0 {
                    assert(markers_from(s, eligible, from)[i] == rest[i - 1]);
                }
            }
        } else {
            lemma_markers_eligible(s, eligible, from + 1);
        }
    }
}

/// A marker found in a text.
#[derive(Debug, Clone)]
pub struct RawMarker {
    /// The letters before the bracket.
    pub prefix: String,
    /// The verb, where the marker names one.
    pub verb: Option<RefVerb>,
    /// The rule that the marker names.
    pub id: RuleId,
    /// The offset of the marker's first byte.
    pub start: usize,
    /// The offset of the first byte of the rule id.
    pub id_start: usize,
    /// The offset behind the marker's last byte.
    pub end: usize,
}

impl RawMarker {
    /// Whether this is the marker `m`.
    pub open spec fn shows(&self, m: MarkerView) -> bool {
        &&& self.prefix@ == ascii(m.prefix)
        &&& self.verb == m.verb
        &&& self.id.names((m.base, m.version))
        &&& self.start == m.start
        &&& self.id_start == m.id_start
        &&& self.end == m.end
    }
}

/// Whether each of `found` is the marker of `expected` in its place.
pub open spec fn show_all(found: Seq<RawMarker>, expected: Seq<MarkerView>) -> bool {
    &&& found.len() == expected.len()
    &&& forall|i: int| 0 <= i < found.len() ==> (#[trigger] found[i]).shows(expected[i])
}

/// Whether `kw` stands in `s[at..end]` at its start.
fn has_keyword(s: &[u8], at: usize, end: usize, kw: &[u8]) -> (yes: bool)
    requires
        at <= end <= s@.len(),
    ensures
        yes == kw@.is_prefix_of(s@.subrange(at as int, end as int)),
{
    let ghost sub = s@.subrange(at as int, end as int);
    if kw.len() > end - at {
        return false;
    }
    let mut i: usize = 0;
    while i < kw.len()
        invariant
            i <= kw@.len() <= end - at,
            at <= end <= s@.len(),
            sub == s@.subrange(at as int, end as int),
            forall|k: int| 0 <= k < i ==> sub[k] == kw@[k],
        decreases kw@.len() - i,
    {
        assert(sub[i as int] == s@[at + i]);
        if s[at + i] != kw[i] {
            assert(sub.subrange(0, kw@.len() as int)[i as int] != kw@[i as int]);
            return false;
        }
        i += 1;
    }
    assert(sub.subrange(0, kw@.len() as int) =~= kw@);
    true
}

/// The verb at the start of the body `s[at..end]`, and the length of its
/// keyword.
fn read_verb(s: &[u8], at: usize, end: usize) -> (found: (Option<RefVerb>, usize))
    requires
        at <= end <= s@.len(),
    ensures
        found.0 == verb_of(s@.subrange(at as int, end as int)),
        found.1 == match found.0 {
            Some(verb) => keyword(verb).len(),
            None => 0,
        },
        at + found.1 <= end,
{
    let k_impl = "impl ".as_bytes();
    let k_verify = "verify ".as_bytes();
    let k_depends = "depends ".as_bytes();
    let k_related = "related ".as_bytes();
    let k_define = "define ".as_bytes();
    if has_keyword(s, at, end, k_impl) {
        (Some(RefVerb::Impl), k_impl.len())
    } else if has_keyword(s, at, end, k_verify) {
        (Some(RefVerb::Verify), k_verify.len())
    } else if has_keyword(s, at, end, k_depends) {
        (Some(RefVerb::Depends), k_depends.len())
    } else if has_keyword(s, at, end, k_related) {
        (Some(RefVerb::Related), k_related.len())
    } else if has_keyword(s, at, end, k_define) {
        (Some(RefVerb::Define), k_define.len())
    } else {
        (None, 0)
    }
}

/// The marker that starts at `pos`, if one does.
fn read_marker(s: &[u8], pos: usize) -> (found: Option<RawMarker>)
    requires
        pos < s@.len(),
    ensures
        match found {
            Some(marker) => marker_at(s@, pos as int).is_some() && marker.shows(
                marker_at(s@, pos as int).unwrap(),
            ),
            None => marker_at(s@, pos as int).is_none(),
        },
{
    let len = s.len();
    let mut open: usize = pos;
    while open < len && lower(s[open])
        invariant
            pos <= open <= len,
            len == s@.len(),
            pos + lower_run(s@, pos as int) == open + lower_run(s@, open as int),
        decreases len - open,
    {
        open += 1;
    }
    if open == pos || open >= len || s[open] != 0x5b {
        return None;
    }
    let close = find_byte(s, 0x5d, open + 1, len);
    assert(s@.subrange(0, len as int) == s@);
    if close >= len {
        return None;
    }
    let (verb, skip) = read_verb(s, open + 1, close);
    let ghost body = s@.subrange(open + 1, close as int);
    assert(body.subrange(skip as int, body.len() as int) == s@.subrange(
        open + 1 + skip,
        close as int,
    ));
    match rule_id_in(s, open + 1 + skip, close) {
        Some(id) => Some(
            RawMarker {
                prefix: ascii_string(s, pos, open),
                verb,
                id,
                start: pos,
                id_start: open + 1 + skip,
                end: close + 1,
            },
        ),
        None => None,
    }
}

/// Scans `text` for markers. A marker is recognized only where `eligible`
/// holds `true` for its first byte, and only where no letter stands before
/// it; bytes behind the end of `eligible` are not eligible.
pub fn scan_markers(text: &str, eligible: &[bool]) -> (markers: Vec<RawMarker>)
    ensures
        show_all(markers@, markers_from(text.spec_bytes(), eligible@, 0)),
        forall|i: int|
            0 <= i < markers@.len() ==> (#[trigger] markers@[i]).start < eligible@.len()
                && eligible@[markers@[i].start as int],
{
    let s = text.as_bytes();
    let mut out: Vec<RawMarker> = Vec::new();
    let ghost mut seen: Seq<MarkerView> = Seq::empty();
    let mut pos: usize = 0;
    while pos < s.len()
        invariant
            pos <= s@.len(),
            s@ == text.spec_bytes(),
            show_all(out@, seen),
            markers_from(s@, eligible@, 0) == seen + markers_from(s@, eligible@, pos as int),
        decreases s@.len() - pos,
    {
        let allowed = (pos == 0 || !lower(s[pos - 1])) && pos < eligible.len() && eligible[pos];
        let found = if allowed {
            read_marker(s, pos)
        } else {
            None
        };
        match found {
            Some(marker) => {
                proof {
                    lemma_marker_bounds(s@, pos as int);
                    let m = marker_at(s@, pos as int).unwrap();
                    assert(seen + (seq![m] + markers_from(s@, eligible@, m.end)) == seen.push(m)
                        + markers_from(s@, eligible@, m.end));
                    seen = seen.push(m);
                }
                pos = marker.end;
                out.push(marker);
            },
            None => {
                pos += 1;
            },
        }
    }
    proof {
        assert(seen + Seq::<MarkerView>::empty() == seen);
        lemma_markers_eligible(s@, eligible@, 0);
    }
    out
}

/// A mask that allows a marker everywhere in a text of `len` bytes.
pub fn all_eligible(len: usize) -> (mask: Vec<bool>)
    ensures
        mask@.len() == len,
        forall|i: int| 0 <= i < len ==> mask@[i],
{
    let mut mask: Vec<bool> = Vec::new();
    let mut i: usize = 0;
    while i < len
        invariant
            i <= len,
            mask@.len() == i,
            forall|k: int| 0 <= k < i ==> mask@[k],
        decreases len - i,
    {
        mask.push(true);
        i += 1;
    }
    mask
}

} // verus!
