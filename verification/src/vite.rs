//! Reading the output of the Vite dev server: stripping terminal escapes and
//! finding the port it listens on.

use vstd::prelude::*;
use crate::text::{
    chars_of, digits_value, find_from, first_occurrence, parse_digits, string_of,
};

verus! {

/// Whether `c` is an ASCII letter.
pub open spec fn is_ascii_letter(c: char) -> bool {
    ('a' <= c && c <= 'z') || ('A' <= c && c <= 'Z')
}

/// The number of characters of an escape sequence's body from `from` on: up
/// to and with its first letter, or to the end of `s`.
pub open spec fn escape_body_len(s: Seq<char>, from: int) -> nat
    decreases s.len() - from,
{
    if from < 0 || from >= s.len() {
        0
    } else if is_ascii_letter(s[from]) {
        1
    } else {
        1 + escape_body_len(s, from + 1)
    }
}

/// An escape's body ends within the text.
pub proof fn lemma_escape_body_bound(s: Seq<char>, from: int)
    requires
        0 <= from <= s.len(),
    ensures
        from + escape_body_len(s, from) <= s.len(),
    decreases s.len() - from,
{
    if from < s.len() && !is_ascii_letter(s[from]) {
        lemma_escape_body_bound(s, from + 1);
    }
}

/// `s` from `from` on without its terminal escapes: an escape character
/// followed by `[` goes with everything up to and with the next letter; an
/// escape character alone goes alone.
pub open spec fn stripped_from(s: Seq<char>, from: int) -> Seq<char>
    decreases s.len() - from,
{
    if from < 0 || from >= s.len() {
        Seq::empty()
    } else if s[from] == '\x1b' {
        if from + 1 < s.len() && s[from + 1] == '[' {
            proof {
                lemma_escape_body_bound(s, from + 2);
            }
            stripped_from(s, from + 2 + escape_body_len(s, from + 2))
        } else {
            stripped_from(s, from + 1)
        }
    } else {
        seq![s[from]] + stripped_from(s, from + 1)
    }
}

fn is_letter(c: char) -> (yes: bool)
    ensures
        yes == is_ascii_letter(c),
{
    (c >= 'a' && c <= 'z') || (c >= 'A' && c <= 'Z')
}

fn strip_chars(s: &[char]) -> (out: Vec<char>)
    ensures
        out@ == stripped_from(s@, 0),
{
    let mut out: Vec<char> = Vec::new();
    let mut i: usize = 0;
    while i < s.len()
        invariant
            i <= s@.len(),
            stripped_from(s@, 0) == out@ + stripped_from(s@, i as int),
        decreases s@.len() - i,
    {
        if s[i] == '\x1b' {
            if i + 1 < s.len() && s[i + 1] == '[' {
                let mut j: usize = i + 2;
                while j < s.len() && !is_letter(s[j])
                    invariant
                        i + 2 <= j <= s@.len(),
                        i + 2 + escape_body_len(s@, i + 2) == j + escape_body_len(s@, j as int),
                    decreases s@.len() - j,
                {
                    j += 1;
                }
                if j < s.len() {
                    j += 1;
                }
                i = j;
            } else {
                i += 1;
            }
        } else {
            let ghost before = out@;
            out.push(s[i]);
            assert(before + (seq![s@[i as int]] + stripped_from(s@, i + 1)) == out@ + stripped_from(
                s@,
                i + 1,
            ));
            i += 1;
        }
    }
    assert(out@ + Seq::<char>::empty() == out@);
    out
}

/// Strips terminal escape sequences.
pub fn strip_ansi_escapes(s: &str) -> (stripped: String)
    ensures
        stripped@ == stripped_from(s@, 0),
{
    let chars = chars_of(s);
    let out = strip_chars(chars.as_slice());
    string_of(out.as_slice())
}

/// The number of decimal digits that stand in `s` from `from` on.
pub open spec fn digit_run_len(s: Seq<char>, from: int) -> nat
    decreases s.len() - from,
{
    if from < 0 || from >= s.len() || !('0' <= s[from] && s[from] <= '9') {
        0
    } else {
        1 + digit_run_len(s, from + 1)
    }
}

/// The port written after the first occurrence of `pattern` in `s`: the
/// digits that follow it, where there is at least one and their number fits
/// in 16 bits.
pub open spec fn port_after(s: Seq<char>, pattern: Seq<char>) -> Option<u16> {
    let at = first_occurrence(s, pattern, 0);
    if at < 0 {
        None
    } else {
        let start = at + pattern.len();
        let len = digit_run_len(s, start);
        if len == 0 {
            None
        } else {
            match digits_value(s.subrange(start, start + len), 0xffff) {
                Some(port) => Some(port as u16),
                None => None,
            }
        }
    }
}

/// The port that a line of Vite's output announces: the one after
/// `http://localhost:`, else the one after `http://127.0.0.1:`, in the line
/// without its terminal escapes.
pub open spec fn vite_port_of(line: Seq<char>) -> Option<u16> {
    let text = stripped_from(line, 0);
    match port_after(text, "http://localhost:"@) {
        Some(port) => Some(port),
        None => port_after(text, "http://127.0.0.1:"@),
    }
}

fn port_in(s: &[char], pattern: &[char]) -> (port: Option<u16>)
    ensures
        port == port_after(s@, pattern@),
{
    match find_from(s, pattern, 0) {
        None => None,
        Some(at) => {
            let len = s.len();
            let start = at + pattern.len();
            let mut end: usize = start;
            while end < s.len() && s[end] >= '0' && s[end] <= '9'
                invariant
                    start <= end <= s@.len(),
                    start + digit_run_len(s@, start as int) == end + digit_run_len(s@, end as int),
                decreases s@.len() - end,
            {
                end += 1;
            }
            if end == start {
                return None;
            }
            match parse_digits(s, start, end, 0xffff) {
                Some(v) => Some(v as u16),
                None => None,
            }
        },
    }
}

/// Extracts the port from a line of the Vite server's output.
pub fn extract_vite_port(line: &str) -> (port: Option<u16>)
    ensures
        port == vite_port_of(line@),
{
    let chars = chars_of(line);
    let text = strip_chars(chars.as_slice());
    let localhost = chars_of("http://localhost:");
    match port_in(text.as_slice(), localhost.as_slice()) {
        Some(port) => Some(port),
        None => {
            let loopback = chars_of("http://127.0.0.1:");
            port_in(text.as_slice(), loopback.as_slice())
        },
    }
}

} // verus!
