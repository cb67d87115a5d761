//! Text helpers shared by the parsers and the printers: strings as sequences
//! of characters, searching, and decimal numbers.

use vstd::prelude::*;
use vstd::string::StringSliceAdditionalSpecFns;
use vstd::utf8::is_char_boundary;

verus! {

/// `String::push`: appends one character.
#[verifier::external_body]
pub(crate) fn push_char(s: &mut String, c: char)
    ensures
        final(s)@ == old(s)@.push(c),
{
    s.push(c)
}

/// The characters of `s`, in order.
pub fn chars_of(s: &str) -> (v: Vec<char>)
    ensures
        v@ == s@,
{
    let mut v: Vec<char> = Vec::new();
    for c in it: s.chars()
        invariant
            it.seq() == s@,
            v@ == s@.subrange(0, it.index()),
    {
        v.push(c);
    }
    assert(v@ == s@);
    v
}

/// The string made of `v`'s characters.
pub fn string_of(v: &[char]) -> (s: String)
    ensures
        s@ == v@,
{
    let mut s = String::new();
    let mut i: usize = 0;
    while i < v.len()
        invariant
            i <= v@.len(),
            s@ == v@.subrange(0, i as int),
        decreases v@.len() - i,
    {
        push_char(&mut s, v[i]);
        i += 1;
    }
    assert(v@.subrange(0, v@.len() as int) == v@);
    s
}

/// Appends `tail` to `out`.
pub fn push_all(out: &mut Vec<char>, tail: &[char])
    ensures
        final(out)@ == old(out)@ + tail@,
{
    let mut i: usize = 0;
    while i < tail.len()
        invariant
            i <= tail@.len(),
            out@ == old(out)@ + tail@.subrange(0, i as int),
        decreases tail@.len() - i,
    {
        out.push(tail[i]);
        i += 1;
    }
    assert(tail@.subrange(0, tail@.len() as int) == tail@);
}

/// Appends the characters of `tail` to `out`.
pub fn push_str(out: &mut Vec<char>, tail: &str)
    ensures
        final(out)@ == old(out)@ + tail@,
{
    let t = chars_of(tail);
    push_all(out, t.as_slice());
}

/// Whether `p` stands in `s` at index `at`.
pub open spec fn matches_at(s: Seq<char>, p: Seq<char>, at: int) -> bool {
    0 <= at && at + p.len() <= s.len() && s.subrange(at, at + p.len()) == p
}

/// Whether `p` occurs somewhere in `s`.
pub open spec fn occurs_in(p: Seq<char>, s: Seq<char>) -> bool {
    exists|at: int| matches_at(s, p, at)
}

/// Whether `a` and `b` hold the same characters.
pub fn same_chars(a: &[char], b: &[char]) -> (same: bool)
    ensures
        same == (a@ == b@),
{
    if a.len() != b.len() {
        return false;
    }
    let mut i: usize = 0;
    while i < a.len()
        invariant
            i <= a@.len(),
            a@.len() == b@.len(),
            a@.subrange(0, i as int) == b@.subrange(0, i as int),
        decreases a@.len() - i,
    {
        if a[i] != b[i] {
            return false;
        }
        assert(a@.subrange(0, i + 1) == a@.subrange(0, i as int).push(a@[i as int]));
        assert(b@.subrange(0, i + 1) == b@.subrange(0, i as int).push(b@[i as int]));
        i += 1;
    }
    assert(a@.subrange(0, a@.len() as int) == a@);
    assert(b@.subrange(0, b@.len() as int) == b@);
    true
}

/// Whether `p` stands in `s` at index `at`.
pub fn has_at(s: &[char], p: &[char], at: usize) -> (yes: bool)
    ensures
        yes == matches_at(s@, p@, at as int),
{
    if p.len() > s.len() || at > s.len() - p.len() {
        return false;
    }
    let mut i: usize = 0;
    while i < p.len()
        invariant
            i <= p@.len(),
            at + p@.len() <= s@.len() <= usize::MAX,
            s@.subrange(at as int, at + i) == p@.subrange(0, i as int),
        decreases p@.len() - i,
    {
        if s[at + i] != p[i] {
            assert(s@.subrange(at as int, at + p@.len())[i as int] != p@[i as int]);
            return false;
        }
        assert(s@.subrange(at as int, at + i + 1) == s@.subrange(at as int, at + i).push(
            s@[at + i],
        ));
        assert(p@.subrange(0, i + 1) == p@.subrange(0, i as int).push(p@[i as int]));
        i += 1;
    }
    assert(p@.subrange(0, p@.len() as int) == p@);
    true
}

/// Whether `s` starts with `p`.
pub fn starts_with(s: &[char], p: &[char]) -> (yes: bool)
    ensures
        yes == p@.is_prefix_of(s@),
{
    has_at(s, p, 0)
}

/// Whether `s` ends with `p`.
pub fn ends_with(s: &[char], p: &[char]) -> (yes: bool)
    ensures
        yes == p@.is_suffix_of(s@),
{
    if p.len() > s.len() {
        return false;
    }
    has_at(s, p, s.len() - p.len())
}

/// The first index at or after `from` where `p` stands in `s`, or -1 where
/// it stands nowhere from there on.
pub open spec fn first_occurrence(s: Seq<char>, p: Seq<char>, from: int) -> int
    decreases s.len() - from,
{
    if from < 0 || from + p.len() > s.len() {
        -1
    } else if matches_at(s, p, from) {
        from
    } else {
        proof {
            if from == s.len() {
                assert(s.subrange(from, from + p.len()) =~= p);
            }
        }
        first_occurrence(s, p, from + 1)
    }
}

/// What `first_occurrence` finds is the first place where `p` stands.
pub proof fn lemma_first_occurrence(s: Seq<char>, p: Seq<char>, from: int)
    requires
        0 <= from,
    ensures
        ({
            let at = first_occurrence(s, p, from);
            if at < 0 {
                at == -1 && forall|j: int| from <= j ==> !matches_at(s, p, j)
            } else {
                from <= at && matches_at(s, p, at) && forall|j: int|
                    from <= j < at ==> !matches_at(s, p, j)
            }
        }),
    decreases s.len() - from,
{
    if from + p.len() <= s.len() && !matches_at(s, p, from) {
        if from == s.len() {
            assert(s.subrange(from, from + p.len()) =~= p);
        }
        lemma_first_occurrence(s, p, from + 1);
    }
}

/// The first index at or after `from` where `p` stands in `s`.
pub fn find_from(s: &[char], p: &[char], from: usize) -> (found: Option<usize>)
    ensures
        match found {
            Some(at) => at == first_occurrence(s@, p@, from as int) && from <= at && at + p@.len()
                <= s@.len(),
            None => first_occurrence(s@, p@, from as int) == -1,
        },
{
    if p.len() > s.len() {
        return None;
    }
    let last = s.len() - p.len();
    let mut at: usize = from;
    while at <= last
        invariant
            from <= at,
            last + p@.len() == s@.len(),
            first_occurrence(s@, p@, from as int) == first_occurrence(s@, p@, at as int),
        decreases last + 1 - at,
    {
        if has_at(s, p, at) {
            return Some(at);
        }
        if at == last {
            assert(first_occurrence(s@, p@, at + 1) == -1);
            return None;
        }
        at += 1;
    }
    None
}

/// Whether `p` occurs somewhere in `s`.
pub fn contains(s: &[char], p: &[char]) -> (yes: bool)
    ensures
        yes == occurs_in(p@, s@),
{
    proof {
        lemma_first_occurrence(s@, p@, 0);
    }
    match find_from(s, p, 0) {
        Some(at) => {
            assert(matches_at(s@, p@, at as int));
            true
        },
        None => {
            assert forall|at: int| !matches_at(s@, p@, at) by {
                if at < 0 {
                }
            }
            false
        },
    }
}

/// The decimal digit for `d`.
pub open spec fn digit_char(d: nat) -> char {
    if d == 0 {
        '0'
    } else if d == 1 {
        '1'
    } else if d == 2 {
        '2'
    } else if d == 3 {
        '3'
    } else if d == 4 {
        '4'
    } else if d == 5 {
        '5'
    } else if d == 6 {
        '6'
    } else if d == 7 {
        '7'
    } else if d == 8 {
        '8'
    } else {
        '9'
    }
}

/// `n` written in base ten, without leading zeros.
pub open spec fn decimal(n: nat) -> Seq<char>
    decreases n,
{
    if n < 10 {
        seq![digit_char(n)]
    } else {
        decimal(n / 10).push(digit_char(n % 10))
    }
}

fn digit(d: u64) -> (c: char)
    requires
        d < 10,
    ensures
        c == digit_char(d as nat),
{
    if d == 0 {
        '0'
    } else if d == 1 {
        '1'
    } else if d == 2 {
        '2'
    } else if d == 3 {
        '3'
    } else if d == 4 {
        '4'
    } else if d == 5 {
        '5'
    } else if d == 6 {
        '6'
    } else if d == 7 {
        '7'
    } else if d == 8 {
        '8'
    } else {
        '9'
    }
}

/// Appends `n` in base ten.
pub fn push_decimal(out: &mut Vec<char>, n: u64)
    ensures
        final(out)@ == old(out)@ + decimal(n as nat),
    decreases n,
{
    if n >= 10 {
        push_decimal(out, n / 10);
    }
    out.push(digit(n % 10));
}

/// The value of a decimal digit.
pub open spec fn digit_value(c: char) -> Option<nat> {
    if '0' <= c && c <= '9' {
        Some((c as nat - '0' as nat) as nat)
    } else {
        None
    }
}

/// The number that a run of decimal digits writes. There is none where a
/// character is no digit, or where the number passes `limit`.
pub open spec fn digits_value(s: Seq<char>, limit: nat) -> Option<nat>
    decreases s.len(),
{
    if s.len() == 0 {
        Some(0)
    } else {
        match (digits_value(s.drop_last(), limit), digit_value(s.last())) {
            (Some(high), Some(low)) => if high * 10 + low <= limit {
                Some(high * 10 + low)
            } else {
                None
            },
            _ => None,
        }
    }
}

/// The unsigned number that `s` writes: decimal digits, at least one, after
/// an optional `+`.
pub open spec fn unsigned_of(s: Seq<char>, limit: nat) -> Option<nat> {
    let digits = if s.len() > 0 && s[0] == '+' {
        s.subrange(1, s.len() as int)
    } else {
        s
    };
    if digits.len() == 0 {
        None
    } else {
        digits_value(digits, limit)
    }
}

/// The number at `s[from..to]`, read as `digits_value` reads it.
pub fn parse_digits(s: &[char], from: usize, to: usize, limit: u64) -> (value: Option<u64>)
    requires
        from <= to <= s@.len(),
    ensures
        match value {
            Some(v) => digits_value(s@.subrange(from as int, to as int), limit as nat) == Some(
                v as nat,
            ),
            None => digits_value(s@.subrange(from as int, to as int), limit as nat).is_none(),
        },
{
    let mut acc: u64 = 0;
    let mut i: usize = from;
    assert(s@.subrange(from as int, from as int) == Seq::<char>::empty());
    while i < to
        invariant
            from <= i <= to <= s@.len(),
            acc <= limit,
            digits_value(s@.subrange(from as int, i as int), limit as nat) == Some(acc as nat),
        decreases to - i,
    {
        let c = s[i];
        let ghost upto = s@.subrange(from as int, i + 1);
        assert(upto.drop_last() == s@.subrange(from as int, i as int));
        assert(upto.last() == c);
        if !(c >= '0' && c <= '9') {
            proof {
                assert(digit_value(c).is_none());
                assert(digits_value(upto, limit as nat).is_none());
                assert(s@.subrange(from as int, to as int).subrange(0, i + 1 - from) == upto);
                lemma_digits_none_extends(
                    s@.subrange(from as int, to as int),
                    i + 1 - from,
                    limit as nat,
                );
            }
            return None;
        }
        let d: u64 = (c as u32 - '0' as u32) as u64;
        assert(digit_value(c) == Some(d as nat));
        if limit < d || acc > (limit - d) / 10 {
            proof {
                assert(acc * 10 + d > limit) by (nonlinear_arith)
                    requires
                        limit < d || acc > (limit - d) / 10,
                        0 <= d < 10,
                        0 <= acc,
                        0 <= limit,
                ;
                assert(digits_value(upto, limit as nat).is_none());
                assert(s@.subrange(from as int, to as int).subrange(0, i + 1 - from) == upto);
                lemma_digits_none_extends(
                    s@.subrange(from as int, to as int),
                    i + 1 - from,
                    limit as nat,
                );
            }
            return None;
        }
        assert(acc * 10 + d <= limit) by (nonlinear_arith)
            requires
                acc <= (limit - d) / 10,
                limit >= d,
        ;
        acc = acc * 10 + d;
        i += 1;
    }
    Some(acc)
}

/// Once a prefix writes no number, no longer run does.
pub proof fn lemma_digits_none_extends(s: Seq<char>, len: int, limit: nat)
    requires
        0 <= len <= s.len(),
        digits_value(s.subrange(0, len), limit).is_none(),
    ensures
        digits_value(s, limit).is_none(),
    decreases s.len() - len,
{
    if len < s.len() {
        assert(s.subrange(0, len + 1).drop_last() == s.subrange(0, len));
        lemma_digits_none_extends(s, len + 1, limit);
    } else {
        assert(s.subrange(0, len) == s);
    }
}

/// The number that `s` writes, read as `unsigned_of` reads it.
pub fn parse_unsigned(s: &[char], limit: u64) -> (value: Option<u64>)
    ensures
        match value {
            Some(v) => unsigned_of(s@, limit as nat) == Some(v as nat),
            None => unsigned_of(s@, limit as nat).is_none(),
        },
{
    let from: usize = if s.len() > 0 && s[0] == '+' {
        1
    } else {
        0
    };
    if from == s.len() {
        return None;
    }
    assert(s@.subrange(0, s@.len() as int) == s@);
    parse_digits(s, from, s.len(), limit)
}

/// The number of characters from `from` up to the next line feed, or to the
/// end of `s`.
pub open spec fn line_len(s: Seq<char>, from: int) -> nat
    decreases s.len() - from,
{
    if from < 0 || from >= s.len() || s[from] == '\n' {
        0
    } else {
        1 + line_len(s, from + 1)
    }
}

/// The line that starts at `from`, without its line ending: a line feed, or a
/// carriage return and a line feed.
pub open spec fn line_at(s: Seq<char>, from: int) -> Seq<char> {
    let end = from + line_len(s, from);
    if end < s.len() && from < end && s[end - 1] == '\r' {
        s.subrange(from, end - 1)
    } else {
        s.subrange(from, end)
    }
}

/// Where the line after the one at `from` starts.
pub open spec fn next_line(s: Seq<char>, from: int) -> int {
    if from + line_len(s, from) >= s.len() {
        s.len() as int
    } else {
        from + line_len(s, from) + 1
    }
}

/// The end of the line that starts at `from`: the index of its line feed, or
/// the length of `s`.
pub fn line_end(s: &[char], from: usize) -> (end: usize)
    requires
        from <= s@.len(),
    ensures
        end == from + line_len(s@, from as int),
        from <= end <= s@.len(),
{
    let mut end: usize = from;
    while end < s.len() && s[end] != '\n'
        invariant
            from <= end <= s@.len(),
            from + line_len(s@, from as int) == end + line_len(s@, end as int),
        decreases s@.len() - end,
    {
        end += 1;
    }
    end
}

/// The line that starts at `from`, without its ending.
pub fn read_line(s: &[char], from: usize) -> (line: Vec<char>)
    requires
        from <= s@.len(),
    ensures
        line@ == line_at(s@, from as int),
{
    let end = line_end(s, from);
    let stop = if end < s.len() && from < end && s[end - 1] == '\r' {
        end - 1
    } else {
        end
    };
    let mut out: Vec<char> = Vec::new();
    let mut i: usize = from;
    while i < stop
        invariant
            from <= i <= stop <= s@.len(),
            out@ == s@.subrange(from as int, i as int),
        decreases stop - i,
    {
        out.push(s[i]);
        i += 1;
    }
    out
}

/// A copy of `s[from..to]`.
pub fn slice_chars(s: &[char], from: usize, to: usize) -> (part: Vec<char>)
    requires
        from <= to <= s@.len(),
    ensures
        part@ == s@.subrange(from as int, to as int),
{
    let mut out: Vec<char> = Vec::new();
    let mut i: usize = from;
    while i < to
        invariant
            from <= i <= to <= s@.len(),
            out@ == s@.subrange(from as int, i as int),
        decreases to - i,
    {
        out.push(s[i]);
        i += 1;
    }
    out
}

/// Whether `a` comes before `b` or equals it, character by character: the
/// order of strings.
pub open spec fn lex_le(a: Seq<char>, b: Seq<char>) -> bool
    decreases a.len(),
{
    if a.len() == 0 {
        true
    } else if b.len() == 0 {
        false
    } else if a[0] != b[0] {
        (a[0] as int) < (b[0] as int)
    } else {
        lex_le(a.drop_first(), b.drop_first())
    }
}

/// Of two strings, one comes before the other or equals it.
pub proof fn lemma_lex_total(a: Seq<char>, b: Seq<char>)
    ensures
        lex_le(a, b) || lex_le(b, a),
    decreases a.len(),
{
    if a.len() > 0 && b.len() > 0 && a[0] == b[0] {
        lemma_lex_total(a.drop_first(), b.drop_first());
    }
}

/// The order of strings is transitive.
pub proof fn lemma_lex_transitive(a: Seq<char>, b: Seq<char>, c: Seq<char>)
    requires
        lex_le(a, b),
        lex_le(b, c),
    ensures
        lex_le(a, c),
    decreases a.len(),
{
    if a.len() > 0 && b.len() > 0 && c.len() > 0 {
        if a[0] == b[0] && b[0] == c[0] {
            lemma_lex_transitive(a.drop_first(), b.drop_first(), c.drop_first());
        }
    }
}

/// Whether `a` comes before `b` or equals it.
pub fn chars_le(a: &[char], b: &[char]) -> (le: bool)
    ensures
        le == lex_le(a@, b@),
{
    let mut i: usize = 0;
    assert(a@.skip(0) == a@);
    assert(b@.skip(0) == b@);
    while i < a.len()
        invariant
            i <= a@.len(),
            i <= b@.len(),
            lex_le(a@, b@) == lex_le(a@.skip(i as int), b@.skip(i as int)),
        decreases a@.len() - i,
    {
        if i >= b.len() {
            return false;
        }
        assert(a@.skip(i as int)[0] == a@[i as int]);
        assert(b@.skip(i as int)[0] == b@[i as int]);
        if a[i] != b[i] {
            return a[i] < b[i];
        }
        assert(a@.skip(i as int).drop_first() == a@.skip(i + 1));
        assert(b@.skip(i as int).drop_first() == b@.skip(i + 1));
        i += 1;
    }
    true
}

/// Whether `a` comes before `b` or equals it.
pub fn str_le(a: &str, b: &str) -> (le: bool)
    ensures
        le == lex_le(a@, b@),
{
    let x = chars_of(a);
    let y = chars_of(b);
    chars_le(x.as_slice(), y.as_slice())
}

/// Whether `c` is white space, as Unicode's `White_Space` property has it.
pub open spec fn is_whitespace(c: char) -> bool {
    ||| ('\u{9}' <= c && c <= '\u{d}')
    ||| c == ' '
    ||| c == '\u{85}'
    ||| c == '\u{a0}'
    ||| c == '\u{1680}'
    ||| ('\u{2000}' <= c && c <= '\u{200a}')
    ||| c == '\u{2028}'
    ||| c == '\u{2029}'
    ||| c == '\u{202f}'
    ||| c == '\u{205f}'
    ||| c == '\u{3000}'
}

/// The index of the first character at or after `from` that is no white
/// space, or the length of `s`.
pub open spec fn content_start(s: Seq<char>, from: int) -> int
    decreases s.len() - from,
{
    if from < 0 || from >= s.len() {
        s.len() as int
    } else if !is_whitespace(s[from]) {
        from
    } else {
        content_start(s, from + 1)
    }
}

/// The index after the last character that is no white space, or 0.
pub open spec fn content_end(s: Seq<char>) -> int
    decreases s.len(),
{
    if s.len() == 0 {
        0
    } else if !is_whitespace(s.last()) {
        s.len() as int
    } else {
        content_end(s.drop_last())
    }
}

/// `s` without the white space at its two ends.
pub open spec fn trimmed(s: Seq<char>) -> Seq<char> {
    if content_start(s, 0) >= content_end(s) {
        Seq::empty()
    } else {
        s.subrange(content_start(s, 0), content_end(s))
    }
}

/// Whether `c` is white space.
pub fn whitespace(c: char) -> (yes: bool)
    ensures
        yes == is_whitespace(c),
{
    (c >= '\u{9}' && c <= '\u{d}') || c == ' ' || c == '\u{85}' || c == '\u{a0}' || c == '\u{1680}'
        || (c >= '\u{2000}' && c <= '\u{200a}') || c == '\u{2028}' || c == '\u{2029}' || c
        == '\u{202f}' || c == '\u{205f}' || c == '\u{3000}'
}

/// `s` without the white space at its two ends.
pub fn trim_chars(s: &[char]) -> (out: Vec<char>)
    ensures
        out@ == trimmed(s@),
{
    let mut start: usize = 0;
    while start < s.len() && whitespace(s[start])
        invariant
            start <= s@.len(),
            content_start(s@, 0) == content_start(s@, start as int),
        decreases s@.len() - start,
    {
        start += 1;
    }
    let mut end: usize = s.len();
    assert(s@.subrange(0, s@.len() as int) == s@);
    while end > 0 && whitespace(s[end - 1])
        invariant
            end <= s@.len(),
            content_end(s@) == content_end(s@.subrange(0, end as int)),
        decreases end,
    {
        assert(s@.subrange(0, end as int).drop_last() == s@.subrange(0, end - 1));
        end -= 1;
    }
    if start >= end {
        Vec::new()
    } else {
        slice_chars(s, start, end)
    }
}

/// Whether two strings hold the same characters.
pub fn str_same(a: &str, b: &str) -> (same: bool)
    ensures
        same == (a@ == b@),
{
    let x = chars_of(a);
    let y = chars_of(b);
    same_chars(x.as_slice(), y.as_slice())
}

/// Whether `from..to` cuts `bytes` at the edges of characters.
pub open spec fn is_char_range(bytes: Seq<u8>, from: int, to: int) -> bool {
    0 <= from <= to <= bytes.len() && is_char_boundary(bytes, from) && is_char_boundary(bytes, to)
}

/// The part of `text` between the byte offsets `from` and `to`, where they
/// lie in order within the text and at the edges of characters.
pub fn substring<'a>(text: &'a str, from: usize, to: usize) -> (part: Option<&'a str>)
    ensures
        match part {
            Some(p) => is_char_range(text.spec_bytes(), from as int, to as int) && p.spec_bytes()
                == text.spec_bytes().subrange(from as int, to as int),
            None => !is_char_range(text.spec_bytes(), from as int, to as int),
        },
{
    broadcast use vstd::utf8::encode_utf8_valid_utf8;
    broadcast use vstd::utf8::is_char_boundary_iff_not_is_continuation_byte;
    broadcast use vstd::utf8::is_char_boundary_start_end_of_seq;

    let bytes = text.as_bytes();
    if from > to || to > bytes.len() || !text.is_char_boundary(from) || !text.is_char_boundary(to) {
        return None;
    }
    let (head, _) = text.split_at(to);
    proof {
        let all = text.spec_bytes();
        let h = head.spec_bytes();
        assert(h == all.subrange(0, to as int));
        vstd::utf8::encode_utf8_valid_utf8(text@);
        vstd::utf8::encode_utf8_valid_utf8(head@);
        if from < to {
            assert(h[from as int] == all[from as int]);
            vstd::utf8::is_char_boundary_iff_not_is_continuation_byte(all, from as int);
            vstd::utf8::is_char_boundary_iff_not_is_continuation_byte(h, from as int);
        } else {
            vstd::utf8::is_char_boundary_start_end_of_seq(h);
        }
    }
    let (_, part) = head.split_at(from);
    assert(part.spec_bytes() == text.spec_bytes().subrange(from as int, to as int));
    Some(part)
}

/// Sequences are joined from the left as from the right.
pub proof fn lemma_concat_assoc<T>(a: Seq<T>, b: Seq<T>, c: Seq<T>)
    ensures
        (a + b) + c == a + (b + c),
{
    assert((a + b) + c =~= a + (b + c));
}

/// The lower-case hexadecimal digit for `n`.
pub open spec fn hex_digit(n: int) -> char {
    if n == 0 {
        '0'
    } else if n == 1 {
        '1'
    } else if n == 2 {
        '2'
    } else if n == 3 {
        '3'
    } else if n == 4 {
        '4'
    } else if n == 5 {
        '5'
    } else if n == 6 {
        '6'
    } else if n == 7 {
        '7'
    } else if n == 8 {
        '8'
    } else if n == 9 {
        '9'
    } else if n == 10 {
        'a'
    } else if n == 11 {
        'b'
    } else if n == 12 {
        'c'
    } else if n == 13 {
        'd'
    } else if n == 14 {
        'e'
    } else {
        'f'
    }
}

/// `bytes` in lower-case hexadecimal, two digits each.
pub open spec fn hex_of(bytes: Seq<u8>) -> Seq<char>
    decreases bytes.len(),
{
    if bytes.len() == 0 {
        Seq::empty()
    } else {
        hex_of(bytes.drop_last()).push(hex_digit(bytes.last() as int / 16)).push(
            hex_digit(bytes.last() as int % 16),
        )
    }
}

/// Whether `c` is a digit or one of the letters `a` to `f`.
pub open spec fn is_lower_hex(c: char) -> bool {
    ('0' <= c && c <= '9') || ('a' <= c && c <= 'f')
}

/// Hexadecimal text has two digits for each byte, and nothing else.
pub proof fn lemma_hex_of(bytes: Seq<u8>)
    ensures
        hex_of(bytes).len() == 2 * bytes.len(),
        forall|i: int| 0 <= i < hex_of(bytes).len() ==> is_lower_hex(#[trigger] hex_of(bytes)[i]),
    decreases bytes.len(),
{
    if bytes.len() > 0 {
        lemma_hex_of(bytes.drop_last());
        let hi = bytes.last() as int / 16;
        let lo = bytes.last() as int % 16;
        assert(0 <= hi < 16 && 0 <= lo < 16);
        assert(is_lower_hex(hex_digit(hi)));
        assert(is_lower_hex(hex_digit(lo)));
    }
}

/// The lower-case hexadecimal digit for `n`.
pub fn hex_char(n: u8) -> (c: char)
    requires
        n < 16,
    ensures
        c == hex_digit(n as int),
{
    if n == 0 {
        '0'
    } else if n == 1 {
        '1'
    } else if n == 2 {
        '2'
    } else if n == 3 {
        '3'
    } else if n == 4 {
        '4'
    } else if n == 5 {
        '5'
    } else if n == 6 {
        '6'
    } else if n == 7 {
        '7'
    } else if n == 8 {
        '8'
    } else if n == 9 {
        '9'
    } else if n == 10 {
        'a'
    } else if n == 11 {
        'b'
    } else if n == 12 {
        'c'
    } else if n == 13 {
        'd'
    } else if n == 14 {
        'e'
    } else {
        'f'
    }
}

/// The first `count` bytes of `bytes` in hexadecimal.
pub fn hex_prefix(bytes: &[u8], count: usize) -> (hex: Vec<char>)
    requires
        count <= bytes@.len(),
    ensures
        hex@ == hex_of(bytes@.subrange(0, count as int)),
{
    let mut out: Vec<char> = Vec::new();
    let mut i: usize = 0;
    while i < count
        invariant
            i <= count <= bytes@.len(),
            out@ == hex_of(bytes@.subrange(0, i as int)),
        decreases count - i,
    {
        let ghost upto = bytes@.subrange(0, i + 1);
        assert(upto.drop_last() == bytes@.subrange(0, i as int));
        assert(upto.last() == bytes@[i as int]);
        let b = bytes[i];
        out.push(hex_char(b / 16));
        out.push(hex_char(b % 16));
        i += 1;
    }
    out
}

/// The digits of a number are decimal digits.
pub proof fn lemma_decimal_digits(n: nat)
    ensures
        decimal(n).len() >= 1,
        forall|i: int|
            0 <= i < decimal(n).len() ==> '0' <= #[trigger] decimal(n)[i] && decimal(n)[i] <= '9',
    decreases n,
{
    if n >= 10 {
        lemma_decimal_digits(n / 10);
        let head = decimal(n / 10);
        assert forall|i: int| 0 <= i < decimal(n).len() implies '0' <= #[trigger] decimal(n)[i]
            && decimal(n)[i] <= '9' by {
            if i < head.len() {
                assert(decimal(n)[i] == head[i]);
            }
        }
    }
}

/// Reading the digits of a number gives the number back.
pub proof fn lemma_decimal_round_trip(n: nat, limit: nat)
    requires
        n <= limit,
    ensures
        digits_value(decimal(n), limit) == Some(n),
    decreases n,
{
    if n < 10 {
        let s = decimal(n);
        assert(s.drop_last() == Seq::<char>::empty());
        assert(digits_value(s.drop_last(), limit) == Some(0nat));
        assert(s.last() == digit_char(n));
        assert(digit_value(s.last()) == Some(n));
    } else {
        lemma_decimal_round_trip(n / 10, limit);
        let s = decimal(n);
        assert(s.drop_last() == decimal(n / 10));
        assert(s.last() == digit_char(n % 10));
        assert(digit_value(s.last()) == Some(n % 10));
        assert((n / 10) * 10 + n % 10 == n);
    }
}

/// A number in digits reads as the number.
pub proof fn lemma_unsigned_of_decimal(n: nat, limit: nat)
    requires
        n <= limit,
    ensures
        unsigned_of(decimal(n), limit) == Some(n),
{
    lemma_decimal_digits(n);
    lemma_decimal_round_trip(n, limit);
    assert(decimal(n)[0] != '+');
}

/// A text without line feed, followed by a line feed, is one line.
pub proof fn lemma_line_of(line: Seq<char>, rest: Seq<char>, from: int)
    requires
        0 <= from <= line.len(),
        forall|i: int| 0 <= i < line.len() ==> line[i] != '\n',
    ensures
        line_len(line + seq!['\n'] + rest, from) == line.len() - from,
    decreases line.len() - from,
{
    let s = line + seq!['\n'] + rest;
    if from < line.len() {
        assert(s[from] == line[from]);
        lemma_line_of(line, rest, from + 1);
    } else {
        assert(s[from] == '\n');
    }
}

} // verus!
