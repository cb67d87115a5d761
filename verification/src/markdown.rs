//! The Markdown code mask: which bytes of a spec file stand inside code, where
//! markers are not recognized. Indented spec blocks are tolerated: the text is
//! parsed without its common indentation, and what the parser reports is
//! mapped back to the bytes of the text as it stands.

use pulldown_cmark::{CodeBlockKind, Event, Options, Parser, Tag, TagEnd};
use vstd::prelude::*;
use vstd::string::StringSliceAdditionalSpecFns;

verus! {

/// Whether `b` is a space or a tab.
pub open spec fn is_indent(b: u8) -> bool {
    b == 0x20 || b == 0x09
}

/// Whether `b` is ASCII white space.
pub open spec fn is_blank_byte(b: u8) -> bool {
    (0x09 <= b && b <= 0x0d) || b == 0x20
}

/// The byte of `s` at `at`, or 0 behind its end.
pub open spec fn byte_at(s: Seq<u8>, at: int) -> u8 {
    if 0 <= at < s.len() {
        s[at]
    } else {
        0
    }
}

/// The number of bytes that the white-space character at `at` takes in
/// UTF-8, or 0 where no white-space character stands there. White space is
/// what Unicode calls so: beside the ASCII characters, U+0085, U+00A0,
/// U+1680, U+2000 to U+200A, U+2028, U+2029, U+202F, U+205F and U+3000.
pub open spec fn blank_len(s: Seq<u8>, at: int) -> nat {
    let a = byte_at(s, at);
    let b = byte_at(s, at + 1);
    let c = byte_at(s, at + 2);
    if is_blank_byte(a) {
        1
    } else if a == 0xc2 && (b == 0x85 || b == 0xa0) {
        2
    } else if a == 0xe1 && b == 0x9a && c == 0x80 {
        3
    } else if a == 0xe2 && b == 0x80 && ((0x80 <= c && c <= 0x8a) || c == 0xa8 || c == 0xa9 || c
        == 0xaf) {
        3
    } else if a == 0xe2 && b == 0x81 && c == 0x9f {
        3
    } else if a == 0xe3 && b == 0x80 && c == 0x80 {
        3
    } else {
        0
    }
}

/// The offset at which the line that holds byte `i` starts.
pub open spec fn line_start_of(s: Seq<u8>, i: int) -> int
    decreases i,
{
    if i <= 0 {
        0
    } else if s[i - 1] == 0x0a {
        i
    } else {
        line_start_of(s, i - 1)
    }
}

/// The number of spaces and tabs that stand in `s` from `from` on.
pub open spec fn indent_len(s: Seq<u8>, from: int) -> nat
    decreases s.len() - from,
{
    if from < 0 || from >= s.len() || !is_indent(s[from]) {
        0
    } else {
        1 + indent_len(s, from + 1)
    }
}

/// Whether the line that starts at `from` holds anything but white space.
pub open spec fn line_has_content(s: Seq<u8>, from: int) -> bool
    decreases s.len() - from,
{
    if from < 0 || from >= s.len() || s[from] == 0x0a {
        false
    } else if blank_len(s, from) == 0 {
        true
    } else {
        line_has_content(s, from + blank_len(s, from))
    }
}

/// Whether a line starts at `i`.
pub open spec fn is_line_start(s: Seq<u8>, i: int) -> bool {
    0 <= i < s.len() && (i == 0 || s[i - 1] == 0x0a)
}

/// Whether a line with content starts at `i`.
pub open spec fn is_content_line(s: Seq<u8>, i: int) -> bool {
    is_line_start(s, i) && line_has_content(s, i)
}

/// Whether `n` is the common indentation of `s`: the least indentation of
/// its lines with content, or 0 where no line has any.
pub open spec fn is_common_indent(s: Seq<u8>, n: nat) -> bool {
    &&& forall|i: int| #[trigger] is_content_line(s, i) ==> n <= indent_len(s, i)
    &&& if exists|i: int| is_content_line(s, i) {
        exists|i: int| #[trigger] is_content_line(s, i) && n == indent_len(s, i)
    } else {
        n == 0
    }
}

/// Whether byte `i` stays when `n` columns of indentation go: it stands
/// behind the first `n` columns of its line, or behind the line's whole
/// indentation where that is shorter.
pub open spec fn is_kept(s: Seq<u8>, n: nat, i: int) -> bool {
    let start = line_start_of(s, i);
    let gone = if indent_len(s, start) < n {
        indent_len(s, start)
    } else {
        n
    };
    i - start >= gone
}

/// Whether `map` lists, in order, the bytes of `s` that stay when `n`
/// columns of indentation go, and `normalized` holds those bytes.
pub open spec fn is_dedent(s: Seq<u8>, n: nat, normalized: Seq<u8>, map: Seq<usize>) -> bool {
    &&& normalized.len() == map.len()
    &&& forall|k: int| 0 <= k < map.len() ==> 0 <= #[trigger] map[k] < s.len()
    &&& forall|k: int| 0 <= k < map.len() ==> normalized[k] == s[#[trigger] map[k] as int]
    &&& forall|j: int, k: int| 0 <= j < k < map.len() ==> map[j] < map[k]
    &&& forall|k: int| 0 <= k < map.len() ==> is_kept(s, n, #[trigger] map[k] as int)
    &&& forall|i: int| 0 <= i < s.len() && is_kept(s, n, i) ==> map.contains(i as usize)
}

/// Within a line, every byte's line starts where the line starts.
pub proof fn lemma_line_start_within(s: Seq<u8>, start: int, i: int)
    requires
        0 <= start <= i <= s.len(),
        start == 0 || s[start - 1] == 0x0a,
        forall|k: int| start <= k < i ==> s[k] != 0x0a,
    ensures
        line_start_of(s, i) == start,
    decreases i - start,
{
    if i > start {
        lemma_line_start_within(s, start, i - 1);
    }
}

/// A line starts at or before each of its bytes.
pub proof fn lemma_line_start_bounds(s: Seq<u8>, i: int)
    ensures
        i >= 0 ==> 0 <= line_start_of(s, i) <= i,
    decreases i,
{
    if i > 0 && s[i - 1] != 0x0a {
        lemma_line_start_bounds(s, i - 1);
    }
}

proof fn lemma_map_is_identity(s: Seq<u8>, normalized: Seq<u8>, map: Seq<usize>, upto: int)
    requires
        is_dedent(s, 0, normalized, map),
        0 <= upto <= map.len(),
    ensures
        forall|k: int| 0 <= k < upto ==> #[trigger] map[k] == k,
    decreases upto,
{
    if upto > 0 {
        lemma_map_is_identity(s, normalized, map, upto - 1);
        let k = upto - 1;
        lemma_line_start_bounds(s, k);
        if k > 0 {
            assert(map[k - 1] == k - 1);
            assert(map[k - 1] < map[k]);
        }
        assert(k <= map[k] < s.len());
        assert(is_kept(s, 0, k));
        assert(map.contains(k as usize));
        let j = choose|j: int| 0 <= j < map.len() && map[j] == k as usize;
        if j < k {
            assert(map[j] == j);
        } else if j > k {
            assert(map[k] < map[j]);
        }
        assert(j == k);
    }
}

/// Where no indentation goes, nothing goes: the dedent of a text by no
/// columns is the text itself, and each byte stands where it stood.
pub proof fn law_dedent_by_nothing(s: Seq<u8>, normalized: Seq<u8>, map: Seq<usize>)
    requires
        s.len() <= usize::MAX,
        is_dedent(s, 0, normalized, map),
    ensures
        normalized == s,
        map.len() == s.len(),
        forall|k: int| 0 <= k < map.len() ==> #[trigger] map[k] == k,
{
    lemma_map_is_identity(s, normalized, map, map.len() as int);
    if s.len() > 0 {
        let last = s.len() - 1;
        lemma_line_start_bounds(s, last);
        assert(is_kept(s, 0, last));
        assert(map.contains(last as usize));
        let j = choose|j: int| 0 <= j < map.len() && map[j] == last as usize;
        assert(map[j] == j);
    }
    if map.len() > 0 {
        let top = map.len() - 1;
        assert(map[top] == top);
        assert(map[top] < s.len());
    }
    assert forall|k: int| 0 <= k < normalized.len() implies normalized[k] == s[k] by {
        assert(map[k] == k);
        assert(normalized[k] == s[map[k] as int]);
    }
    assert(normalized =~= s);
}

/// Along a run of indentation the line's content stays the same, and behind
/// the run stands no indentation.
proof fn lemma_indent_run(s: Seq<u8>, i: int, n: nat)
    requires
        0 <= i <= s.len(),
        indent_len(s, i) == n,
    ensures
        forall|m: int| i <= m < i + n ==> m < s.len() && is_indent(#[trigger] s[m]),
        i + n <= s.len(),
        i + n < s.len() ==> !is_indent(s[i + n]),
        line_has_content(s, i) == line_has_content(s, i + n),
    decreases n,
{
    if n > 0 {
        assert(is_indent(s[i]));
        assert(blank_len(s, i) == 1);
        lemma_indent_run(s, i + 1, (n - 1) as nat);
    }
}

/// A run of indentation ends before the first byte that is none.
proof fn lemma_indent_stops(s: Seq<u8>, a: int, b: int)
    requires
        0 <= a <= b < s.len(),
        !is_indent(s[b]),
    ensures
        indent_len(s, a) <= b - a,
    decreases b - a,
{
    if a < b && is_indent(s[a]) {
        lemma_indent_stops(s, a + 1, b);
    }
}

/// A line feed stays, whatever indentation goes.
proof fn lemma_line_feed_is_kept(s: Seq<u8>, n: nat, p: int)
    requires
        0 <= p < s.len(),
        s[p] == 0x0a,
    ensures
        is_kept(s, n, p),
{
    lemma_line_start_bounds(s, p);
    lemma_indent_stops(s, line_start_of(s, p), p);
}

/// What stays of a text is no longer than the text.
proof fn lemma_map_grows(s: Seq<u8>, n: nat, normalized: Seq<u8>, map: Seq<usize>, k: int)
    requires
        is_dedent(s, n, normalized, map),
        0 <= k < map.len(),
    ensures
        k <= map[k],
    decreases k,
{
    if k > 0 {
        lemma_map_grows(s, n, normalized, map, k - 1);
        assert(map[k - 1] < map[k]);
    }
}

/// Two bytes that stay and are neighbours in the text are neighbours in
/// what stays of it.
proof fn lemma_next_kept(s: Seq<u8>, n: nat, normalized: Seq<u8>, map: Seq<usize>, k: int, p: int)
    requires
        s.len() <= usize::MAX,
        is_dedent(s, n, normalized, map),
        0 <= k < map.len(),
        map[k] == p,
        p + 1 < s.len() ==> is_kept(s, n, p + 1),
    ensures
        p + 1 < s.len() ==> k + 1 < map.len() && map[k + 1] == p + 1,
        p + 1 >= s.len() ==> map.len() == k + 1,
{
    if p + 1 < s.len() {
        assert(map.contains((p + 1) as usize));
        let j = choose|j: int| 0 <= j < map.len() && map[j] == (p + 1) as usize;
        if j <= k {
            if j < k {
                assert(map[j] < map[k]);
            }
        } else if j > k + 1 {
            assert(map[k] < map[k + 1]);
            assert(map[k + 1] < map[j]);
        }
    } else if map.len() > k + 1 {
        assert(map[k] < map[k + 1]);
        assert(map[k + 1] < s.len());
    }
}

/// Behind the indentation that goes, a line stays byte for byte: where byte
/// `i + n` of the text is byte `k` of what stays, byte `x` of the same line
/// is byte `k + (x - i - n)`, and the two end together.
proof fn lemma_line_maps(
    s: Seq<u8>,
    n: nat,
    normalized: Seq<u8>,
    map: Seq<usize>,
    i: int,
    k: int,
    x: int,
)
    requires
        s.len() <= usize::MAX,
        is_dedent(s, n, normalized, map),
        0 <= i,
        i == 0 || s[i - 1] == 0x0a,
        indent_len(s, i) == n,
        0 <= k < map.len(),
        map[k] == i + n,
        i + n <= x <= s.len(),
        forall|p: int| i <= p < x ==> s[p] != 0x0a,
    ensures
        x < s.len() ==> k + (x - i - n) < map.len() && map[k + (x - i - n)] == x && normalized[k + (x
            - i - n)] == s[x],
        x >= s.len() ==> normalized.len() == k + (x - i - n),
    decreases x,
{
    if x > i + n {
        lemma_line_maps(s, n, normalized, map, i, k, x - 1);
        if x < s.len() {
            lemma_line_start_within(s, i, x);
        }
        lemma_next_kept(s, n, normalized, map, k + (x - 1 - i - n), x - 1);
    }
    if x < s.len() {
        let y = k + (x - i - n);
        assert(normalized[y] == s[map[y] as int]);
    }
}

/// Behind the indentation that goes, a line has content in what stays
/// where it has content in the text.
proof fn lemma_content_maps(
    s: Seq<u8>,
    n: nat,
    normalized: Seq<u8>,
    map: Seq<usize>,
    i: int,
    k: int,
    x: int,
)
    requires
        s.len() <= usize::MAX,
        is_dedent(s, n, normalized, map),
        0 <= i,
        i == 0 || s[i - 1] == 0x0a,
        indent_len(s, i) == n,
        0 <= k < map.len(),
        map[k] == i + n,
        i + n <= x <= s.len(),
        forall|p: int| i <= p < x ==> s[p] != 0x0a,
    ensures
        line_has_content(normalized, k + (x - i - n)) == line_has_content(s, x),
    decreases s.len() - x,
{
    let y = k + (x - i - n);
    lemma_line_maps(s, n, normalized, map, i, k, x);
    if x < s.len() && s[x] != 0x0a {
        lemma_line_maps(s, n, normalized, map, i, k, x + 1);
        assert(byte_at(normalized, y + 1) == byte_at(s, x + 1));
        if x + 1 < s.len() && s[x + 1] != 0x0a {
            lemma_line_maps(s, n, normalized, map, i, k, x + 2);
            assert(byte_at(normalized, y + 2) == byte_at(s, x + 2));
        }
        assert(blank_len(normalized, y) == blank_len(s, x));
        let w = blank_len(s, x);
        if w > 0 {
            assert(x + w <= s.len());
            assert forall|p: int| i <= p < x + w implies s[p] != 0x0a by {}
            lemma_content_maps(s, n, normalized, map, i, k, x + w);
        }
    }
}

/// What stays of a text when its common indentation goes has no common
/// indentation.
pub proof fn lemma_dedent_is_flush(s: Seq<u8>, n: nat, normalized: Seq<u8>, map: Seq<usize>)
    requires
        s.len() <= usize::MAX,
        is_common_indent(s, n),
        is_dedent(s, n, normalized, map),
    ensures
        is_common_indent(normalized, 0),
{
    if n == 0 {
        law_dedent_by_nothing(s, normalized, map);
    } else {
        let i = choose|i: int| #[trigger] is_content_line(s, i) && n == indent_len(s, i);
        lemma_indent_run(s, i, n);
        assert(i + n < s.len() && s[i + n] != 0x0a);
        assert forall|p: int| i <= p < i + n implies s[p] != 0x0a by {
            assert(is_indent(s[p]));
        }
        lemma_line_start_within(s, i, i + n);
        assert(is_kept(s, n, i + n));
        assert(map.contains((i + n) as usize));
        let k = choose|k: int| 0 <= k < map.len() && map[k] == (i + n) as usize;
        assert(normalized[k] == s[map[k] as int]);
        assert(indent_len(normalized, k) == 0);
        lemma_content_maps(s, n, normalized, map, i, k, i + n);
        assert(line_has_content(normalized, k));
        if k > 0 {
            let q = map[k - 1] as int;
            assert(map[k - 1] < map[k]);
            assert(is_kept(s, n, q));
            if i <= q {
                lemma_line_start_within(s, i, q);
            }
            assert(q < i);
            lemma_line_feed_is_kept(s, n, i - 1);
            assert(map.contains((i - 1) as usize));
            let j = choose|j: int| 0 <= j < map.len() && map[j] == (i - 1) as usize;
            if j < k - 1 {
                assert(map[j] < map[k - 1]);
            } else if j > k - 1 {
                if j > k {
                    assert(map[k] < map[j]);
                }
            }
            assert(j == k - 1);
            assert(normalized[k - 1] == s[map[k - 1] as int]);
        }
        assert(is_content_line(normalized, k));
    }
}

/// Dedenting a dedented text changes nothing: what stays of a text when its
/// common indentation goes has the common indentation 0, and is its own
/// dedent.
pub proof fn law_dedent_is_idempotent(
    s: Seq<u8>,
    n: nat,
    once: Seq<u8>,
    map: Seq<usize>,
    m: nat,
    twice: Seq<u8>,
    again: Seq<usize>,
)
    requires
        s.len() <= usize::MAX,
        is_common_indent(s, n),
        is_dedent(s, n, once, map),
        is_common_indent(once, m),
        is_dedent(once, m, twice, again),
    ensures
        m == 0,
        twice == once,
        forall|k: int| 0 <= k < again.len() ==> #[trigger] again[k] == k,
{
    lemma_dedent_is_flush(s, n, once, map);
    if once.len() > 0 {
        lemma_map_grows(s, n, once, map, once.len() - 1);
        assert(map[once.len() - 1] < s.len());
    }
    law_dedent_by_nothing(once, twice, again);
}

fn indent(b: u8) -> (yes: bool)
    ensures
        yes == is_indent(b),
{
    b == 0x20 || b == 0x09
}

fn blank_width(s: &[u8], at: usize) -> (n: usize)
    requires
        at < s@.len(),
    ensures
        n == blank_len(s@, at as int),
        n <= 3,
        at + n <= s@.len(),
{
    let len = s.len();
    let a = s[at];
    let b = if at + 1 < len {
        s[at + 1]
    } else {
        0
    };
    let c = if at + 1 < len && at + 2 < len {
        s[at + 2]
    } else {
        0
    };
    if (0x09 <= a && a <= 0x0d) || a == 0x20 {
        1
    } else if a == 0xc2 && (b == 0x85 || b == 0xa0) {
        2
    } else if a == 0xe1 && b == 0x9a && c == 0x80 {
        3
    } else if a == 0xe2 && b == 0x80 && ((0x80 <= c && c <= 0x8a) || c == 0xa8 || c == 0xa9 || c
        == 0xaf) {
        3
    } else if a == 0xe2 && b == 0x81 && c == 0x9f {
        3
    } else if a == 0xe3 && b == 0x80 && c == 0x80 {
        3
    } else {
        0
    }
}

/// The end of the line that starts at `from`: the offset behind its line
/// feed, or the length of `s`.
fn line_stop(s: &[u8], from: usize) -> (stop: usize)
    requires
        from < s@.len(),
    ensures
        from < stop <= s@.len(),
        forall|k: int| from <= k < stop - 1 ==> s@[k] != 0x0a,
        stop < s@.len() ==> s@[stop - 1] == 0x0a,
        stop == s@.len() ==> s@[stop - 1] == 0x0a || forall|k: int| from <= k < stop ==> s@[k] != 0x0a,
{
    let mut i: usize = from;
    while i < s.len() && s[i] != 0x0a
        invariant
            from <= i <= s@.len(),
            forall|k: int| from <= k < i ==> s@[k] != 0x0a,
        decreases s@.len() - i,
    {
        i += 1;
    }
    if i < s.len() {
        i + 1
    } else {
        i
    }
}

/// The indentation of the line that starts at `from`, counted up to `cap`.
fn count_indent(s: &[u8], from: usize, cap: usize) -> (n: usize)
    requires
        from <= s@.len(),
    ensures
        n <= cap,
        n == if indent_len(s@, from as int) < cap {
            indent_len(s@, from as int)
        } else {
            cap as nat
        },
        from + n <= s@.len(),
{
    let len = s.len();
    let mut n: usize = 0;
    while n < cap && n < len - from && indent(s[from + n])
        invariant
            n <= cap,
            from + n <= s@.len(),
            len == s@.len(),
            indent_len(s@, from as int) == n + indent_len(s@, from + n),
        decreases cap - n,
    {
        n += 1;
    }
    n
}

/// Whether the line that starts at `from` holds anything but white space.
fn has_content(s: &[u8], from: usize) -> (yes: bool)
    requires
        from <= s@.len(),
    ensures
        yes == line_has_content(s@, from as int),
{
    let mut i: usize = from;
    while i < s.len() && s[i] != 0x0a
        invariant
            from <= i <= s@.len(),
            line_has_content(s@, from as int) == line_has_content(s@, i as int),
        decreases s@.len() - i,
    {
        let width = blank_width(s, i);
        if width == 0 {
            return true;
        }
        i += width;
    }
    false
}

/// The common indentation of `s`.
pub fn common_indent(s: &[u8]) -> (n: usize)
    ensures
        is_common_indent(s@, n as nat),
{
    let len = s.len();
    let mut least: Option<usize> = None;
    let mut start: usize = 0;
    while start < len
        invariant
            start <= len,
            len == s@.len(),
            start == 0 || s@[start - 1] == 0x0a || start == len,
            forall|i: int|
                #[trigger] is_content_line(s@, i) && i < start ==> least.is_some() && least.unwrap()
                    <= indent_len(s@, i),
            least.is_some() ==> exists|i: int|
                #[trigger] is_content_line(s@, i) && least.unwrap() == indent_len(s@, i),
        decreases len - start,
    {
        let stop = line_stop(s, start);
        if has_content(s, start) {
            let here = count_indent(s, start, len);
            proof {
                assert(is_content_line(s@, start as int));
                lemma_indent_bound(s@, start as int);
            }
            match least {
                Some(n) => {
                    if here < n {
                        least = Some(here);
                    }
                },
                None => {
                    least = Some(here);
                },
            }
        }
        assert forall|i: int| #[trigger] is_content_line(s@, i) && i < stop implies least.is_some()
            && least.unwrap() <= indent_len(s@, i) by {
            if i > start {
                assert(s@[i - 1] == 0x0a);
            }
        }
        start = stop;
    }
    match least {
        Some(n) => n,
        None => 0,
    }
}

/// A line's indentation ends within the text.
pub proof fn lemma_indent_bound(s: Seq<u8>, from: int)
    requires
        0 <= from <= s.len(),
    ensures
        from + indent_len(s, from) <= s.len(),
    decreases s.len() - from,
{
    if from < s.len() && is_indent(s[from]) {
        lemma_indent_bound(s, from + 1);
    }
}

/// Takes `n` columns of indentation from each line of `s`, or the line's
/// whole indentation where that is shorter. Gives the bytes that stay, and for
/// each of them its offset in `s`.
pub fn dedent_by(s: &[u8], n: usize) -> (out: (Vec<u8>, Vec<usize>))
    ensures
        is_dedent(s@, n as nat, out.0@, out.1@),
{
    let len = s.len();
    let mut normalized: Vec<u8> = Vec::new();
    let mut map: Vec<usize> = Vec::new();
    let mut start: usize = 0;
    while start < len
        invariant
            start <= len,
            len == s@.len(),
            start == 0 || s@[start - 1] == 0x0a || start == len,
            normalized@.len() == map@.len(),
            forall|k: int| 0 <= k < map@.len() ==> 0 <= #[trigger] map@[k] < start,
            forall|k: int| 0 <= k < map@.len() ==> normalized@[k] == s@[#[trigger] map@[k] as int],
            forall|j: int, k: int| 0 <= j < k < map@.len() ==> map@[j] < map@[k],
            forall|k: int| 0 <= k < map@.len() ==> is_kept(s@, n as nat, #[trigger] map@[k] as int),
            forall|i: int| 0 <= i < start && is_kept(s@, n as nat, i) ==> map@.contains(i as usize),
        decreases len - start,
    {
        let stop = line_stop(s, start);
        let gone = count_indent(s, start, n);
        let mut i: usize = start;
        while i < stop
            invariant
                start <= i <= stop <= len,
                len == s@.len(),
                start == 0 || s@[start - 1] == 0x0a,
                forall|k: int| start <= k < stop - 1 ==> s@[k] != 0x0a,
                gone == if indent_len(s@, start as int) < n {
                    indent_len(s@, start as int)
                } else {
                    n as nat
                },
                normalized@.len() == map@.len(),
                forall|k: int| 0 <= k < map@.len() ==> 0 <= #[trigger] map@[k] < i,
                forall|k: int|
                    0 <= k < map@.len() ==> normalized@[k] == s@[#[trigger] map@[k] as int],
                forall|j: int, k: int| 0 <= j < k < map@.len() ==> map@[j] < map@[k],
                forall|k: int|
                    0 <= k < map@.len() ==> is_kept(s@, n as nat, #[trigger] map@[k] as int),
                forall|x: int| 0 <= x < i && is_kept(s@, n as nat, x) ==> map@.contains(x as usize),
            decreases stop - i,
        {
            proof {
                lemma_line_start_within(s@, start as int, i as int);
            }
            if i - start >= gone {
                let ghost before = map@;
                normalized.push(s[i]);
                map.push(i);
                assert forall|x: int| 0 <= x < i + 1 && is_kept(s@, n as nat, x) implies map@.contains(
                    x as usize,
                ) by {
                    if x < i {
                        let k = choose|k: int| 0 <= k < before.len() && before[k] == x as usize;
                        assert(map@[k] == x as usize);
                    } else {
                        assert(map@[before.len() as int] == x as usize);
                    }
                }
            }
            i += 1;
        }
        start = stop;
    }
    (normalized, map)
}

/// Takes the common indentation from each line of `text`. Gives the bytes
/// that stay, and for each of them its offset in `text`.
pub fn dedent_with_index_map(text: &str) -> (out: (Vec<u8>, Vec<usize>))
    ensures
        exists|n: nat|
            is_common_indent(text.spec_bytes(), n) && is_dedent(text.spec_bytes(), n, out.0@, out.1@),
{
    let s = text.as_bytes();
    let n = common_indent(s);
    dedent_by(s, n)
}

/// What the Markdown parser reports of a piece of text, as far as the mask
/// needs it.
#[derive(Debug, Clone, Copy, PartialEq, Eq, Structural)]
pub enum MdKind {
    /// An inline code span.
    InlineCode,
    /// The start of a fenced code block.
    FencedStart,
    /// The start of an indented code block.
    IndentedStart,
    /// The end of a code block.
    CodeBlockEnd,
    /// Anything else.
    Other,
}

/// One event of the Markdown parser with the bytes it covers, `start`
/// counted and `end` not.
#[derive(Debug, Clone, Copy, PartialEq, Eq, Structural)]
pub struct MdEvent {
    pub kind: MdKind,
    pub start: usize,
    pub end: usize,
}

/// The events that the `pulldown-cmark` parser reports for a text, with all
/// of its extensions enabled, in the order it reports them.
pub uninterp spec fn markdown_events(text: Seq<u8>) -> Seq<MdEvent>;

/// `pulldown_cmark::Parser::new_ext` with `Options::all()`, then
/// `Parser::into_offset_iter`: parses the text and gives each event with its
/// byte range. Bytes that are no UTF-8 are read as replacement characters. Of an event, only what the mask asks is kept: whether it is an
/// inline code span, the start of a fenced or of an indented code block, or
/// the end of a code block.
#[verifier::external_body]
fn parse_markdown(text: &[u8]) -> (events: Vec<MdEvent>)
    ensures
        events@ == markdown_events(text@),
{
    let source = String::from_utf8_lossy(text);
    let mut events = Vec::new();
    for (event, range) in Parser::new_ext(&source, Options::all()).into_offset_iter() {
        let kind = match event {
            Event::Code(_) => MdKind::InlineCode,
            Event::Start(Tag::CodeBlock(CodeBlockKind::Fenced(_))) => MdKind::FencedStart,
            Event::Start(Tag::CodeBlock(CodeBlockKind::Indented)) => MdKind::IndentedStart,
            Event::End(TagEnd::CodeBlock) => MdKind::CodeBlockEnd,
            _ => MdKind::Other,
        };
        events.push(MdEvent { kind, start: range.start, end: range.end });
    }
    events
}

/// Whether a fenced code block is open before event `k`.
pub open spec fn fenced_before(events: Seq<MdEvent>, k: int) -> bool
    decreases k,
{
    if k <= 0 || k > events.len() {
        false
    } else {
        match events[k - 1].kind {
            MdKind::FencedStart => true,
            MdKind::CodeBlockEnd => false,
            _ => fenced_before(events, k - 1),
        }
    }
}

/// Whether event `k` marks its bytes as code: the fences of a fenced block
/// and all that comes between them, and, where `inline` is set, inline code
/// spans. Indented code blocks do not count.
pub open spec fn marks(events: Seq<MdEvent>, k: int, inline: bool) -> bool {
    match events[k].kind {
        MdKind::InlineCode => inline || fenced_before(events, k),
        MdKind::FencedStart => true,
        MdKind::IndentedStart => false,
        MdKind::CodeBlockEnd => fenced_before(events, k),
        MdKind::Other => fenced_before(events, k),
    }
}

/// Whether event `k` marks the byte `j` of the given text through the
/// byte `i` of the parsed text.
pub open spec fn hits(
    events: Seq<MdEvent>,
    map: Seq<usize>,
    inline: bool,
    k: int,
    i: int,
    j: int,
) -> bool {
    &&& 0 <= k < events.len()
    &&& marks(events, k, inline)
    &&& events[k].start <= i < events[k].end
    &&& 0 <= i < map.len()
    &&& map[i] == j
}

/// Whether one of the first `bound` events marks the byte `j`.
pub open spec fn is_masked_upto(
    events: Seq<MdEvent>,
    map: Seq<usize>,
    inline: bool,
    bound: int,
    j: int,
) -> bool {
    exists|k: int, i: int| k < bound && #[trigger] hits(events, map, inline, k, i, j)
}

/// Whether an event marks the byte `j` of the given text as code.
pub open spec fn is_masked(events: Seq<MdEvent>, map: Seq<usize>, inline: bool, j: int) -> bool {
    is_masked_upto(events, map, inline, events.len() as int, j)
}

/// Whether `mask` is the code mask of a text of its length, for these events
/// and this map from parsed bytes to given bytes.
pub open spec fn is_mask_of(
    mask: Seq<bool>,
    events: Seq<MdEvent>,
    map: Seq<usize>,
    inline: bool,
) -> bool {
    forall|j: int| 0 <= j < mask.len() ==> #[trigger] mask[j] == is_masked(events, map, inline, j)
}

/// Maps what the parser marked as code back to the given text: a mask of
/// `len` bytes in which a byte is set where an event marks it.
pub fn apply_events(events: &Vec<MdEvent>, map: &Vec<usize>, len: usize, inline: bool) -> (mask: Vec<
    bool,
>)
    ensures
        mask@.len() == len,
        is_mask_of(mask@, events@, map@, inline),
{
    let mut mask: Vec<bool> = Vec::new();
    let mut n: usize = 0;
    while n < len
        invariant
            n <= len,
            mask@.len() == n,
            forall|j: int| 0 <= j < n ==> !mask@[j],
        decreases len - n,
    {
        mask.push(false);
        n += 1;
    }
    let mut fenced = false;
    let mut k: usize = 0;
    while k < events.len()
        invariant
            k <= events@.len(),
            mask@.len() == len,
            fenced == fenced_before(events@, k as int),
            forall|j: int|
                0 <= j < len ==> #[trigger] mask@[j] == is_masked_upto(
                    events@,
                    map@,
                    inline,
                    k as int,
                    j,
                ),
        decreases events@.len() - k,
    {
        let event = events[k];
        let mark = match event.kind {
            MdKind::InlineCode => inline || fenced,
            MdKind::FencedStart => true,
            MdKind::IndentedStart => false,
            MdKind::CodeBlockEnd => fenced,
            MdKind::Other => fenced,
        };
        assert(mark == marks(events@, k as int, inline));
        match event.kind {
            MdKind::FencedStart => {
                fenced = true;
            },
            MdKind::CodeBlockEnd => {
                fenced = false;
            },
            _ => {},
        }
        let stop: usize = if !mark {
            event.start
        } else if event.end < map.len() {
            event.end
        } else {
            map.len()
        };
        let mut i: usize = event.start;
        while i < stop
            invariant
                event.start <= i,
                stop > event.start ==> mark && stop <= event.end,
                stop <= map@.len() || stop == event.start,
                k < events@.len(),
                event == events@[k as int],
                mark == marks(events@, k as int, inline),
                mask@.len() == len,
                forall|j: int|
                    0 <= j < len ==> #[trigger] mask@[j] == (is_masked_upto(
                        events@,
                        map@,
                        inline,
                        k as int,
                        j,
                    ) || exists|x: int|
                        event.start <= x < i && #[trigger] hits(events@, map@, inline, k as int, x, j)),
            decreases stop - i,
        {
            let target = map[i];
            let ghost before = mask@;
            if target < len {
                mask.set(target, true);
            }
            assert forall|j: int| 0 <= j < len implies #[trigger] mask@[j] == (is_masked_upto(
                events@,
                map@,
                inline,
                k as int,
                j,
            ) || exists|x: int|
                event.start <= x < i + 1 && #[trigger] hits(events@, map@, inline, k as int, x, j)) by {
                if j == target {
                    assert(hits(events@, map@, inline, k as int, i as int, j));
                } else {
                    assert(mask@[j] == before[j]);
                    assert(!hits(events@, map@, inline, k as int, i as int, j));
                }
            }
            i += 1;
        }
        assert forall|j: int| 0 <= j < len implies #[trigger] mask@[j] == is_masked_upto(
            events@,
            map@,
            inline,
            k + 1,
            j,
        ) by {
            if mask@[j] {
                if !is_masked_upto(events@, map@, inline, k as int, j) {
                    let x = choose|x: int|
                        event.start <= x < i && #[trigger] hits(events@, map@, inline, k as int, x, j);
                    assert(hits(events@, map@, inline, k as int, x, j));
                } else {
                    let (k0, i0) = choose|k0: int, i0: int|
                        k0 < k && #[trigger] hits(events@, map@, inline, k0, i0, j);
                    assert(hits(events@, map@, inline, k0, i0, j));
                }
            }
            if is_masked_upto(events@, map@, inline, k + 1, j) {
                let (k0, i0) = choose|k0: int, i0: int|
                    k0 < k + 1 && #[trigger] hits(events@, map@, inline, k0, i0, j);
                if k0 < k {
                    assert(is_masked_upto(events@, map@, inline, k as int, j));
                } else {
                    assert(event.start <= i0 < i);
                }
            }
        }
        k += 1;
    }
    mask
}

/// Whether `mask` is the mask of the text `s`: one flag for each byte, set
/// where an event of the parser marks the byte, for the text parsed without
/// its common indentation.
pub open spec fn is_markdown_mask(s: Seq<u8>, mask: Seq<bool>, inline: bool) -> bool {
    &&& mask.len() == s.len()
    &&& exists|n: nat, normalized: Seq<u8>, map: Seq<usize>| #[trigger]
        is_dedent(s, n, normalized, map) && is_common_indent(s, n) && is_mask_of(
            mask,
            markdown_events(normalized),
            map,
            inline,
        )
}

/// The code mask of a Markdown text: one flag for each byte, set where the
/// byte stands in a fenced code block or in an inline code span. The text is
/// parsed without its common indentation.
pub fn markdown_code_mask(text: &str) -> (mask: Vec<bool>)
    ensures
        is_markdown_mask(text.spec_bytes(), mask@, true),
{
    mask_of(text, true)
}

/// The fence mask of a Markdown text: as the code mask, but inline code spans
/// stay open to markers.
pub fn markdown_fence_mask(text: &str) -> (mask: Vec<bool>)
    ensures
        is_markdown_mask(text.spec_bytes(), mask@, false),
{
    mask_of(text, false)
}

fn mask_of(text: &str, inline: bool) -> (mask: Vec<bool>)
    ensures
        is_markdown_mask(text.spec_bytes(), mask@, inline),
{
    let s = text.as_bytes();
    let n = common_indent(s);
    let (normalized, map) = dedent_by(s, n);
    let events = parse_markdown(normalized.as_slice());
    let mask = apply_events(&events, &map, s.len(), inline);
    assert(is_dedent(text.spec_bytes(), n as nat, normalized@, map@));
    mask
}

/// Whether the byte at `index` stands in code. Bytes behind the mask do not.
pub fn is_code_index(index: usize, code_mask: &[bool]) -> (yes: bool)
    ensures
        yes == (index < code_mask@.len() && code_mask@[index as int]),
{
    index < code_mask.len() && code_mask[index]
}

} // verus!
