//! JSON text, written by hand: string escaping, lists, and optional values.

use vstd::prelude::*;
use crate::text::{chars_of, hex_char, hex_digit, push_str, string_of};

verus! {

/// Whether `c` is a control code: a character of Unicode's category `Cc`.
pub open spec fn is_control(c: char) -> bool {
    c as u32 <= 0x1f || (0x7f <= c as u32 && c as u32 <= 0x9f)
}

/// A code point below 0x10000 as four hexadecimal digits.
pub open spec fn hex4(n: int) -> Seq<char> {
    seq![
        hex_digit(n / 4096),
        hex_digit((n / 256) % 16),
        hex_digit((n / 16) % 16),
        hex_digit(n % 16),
    ]
}

/// How one character stands inside a JSON string: quotes, backslashes and
/// the common control characters by their short escapes, other control codes
/// as `\u` and four digits, everything else as itself.
pub open spec fn escaped_char(c: char) -> Seq<char> {
    if c == '"' {
        seq!['\\', '"']
    } else if c == '\\' {
        seq!['\\', '\\']
    } else if c == '\n' {
        seq!['\\', 'n']
    } else if c == '\r' {
        seq!['\\', 'r']
    } else if c == '\t' {
        seq!['\\', 't']
    } else if is_control(c) {
        seq!['\\', 'u'] + hex4(c as int)
    } else {
        seq![c]
    }
}

/// The characters of `s`, each escaped.
pub open spec fn escaped(s: Seq<char>) -> Seq<char>
    decreases s.len(),
{
    if s.len() == 0 {
        Seq::empty()
    } else {
        escaped(s.drop_last()) + escaped_char(s.last())
    }
}

/// `s` as a JSON string: escaped, between double quotes.
pub open spec fn json_string_of(s: Seq<char>) -> Seq<char> {
    seq!['"'] + escaped(s) + seq!['"']
}

/// An optional string as JSON: the string, or `null`.
pub open spec fn json_opt_string_of(s: Option<Seq<char>>) -> Seq<char> {
    match s {
        Some(text) => json_string_of(text),
        None => "null"@,
    }
}

/// `items`, with `sep` between each two.
pub open spec fn joined(items: Seq<Seq<char>>, sep: Seq<char>) -> Seq<char>
    decreases items.len(),
{
    if items.len() == 0 {
        Seq::empty()
    } else if items.len() == 1 {
        items[0]
    } else {
        joined(items.drop_last(), sep) + sep + items.last()
    }
}

/// Appending an item to a list appends the separator, where the list was not
/// empty, and the item.
pub proof fn lemma_joined_push(items: Seq<Seq<char>>, item: Seq<char>, sep: Seq<char>)
    ensures
        joined(items.push(item), sep) == if items.len() == 0 {
            item
        } else {
            joined(items, sep) + sep + item
        },
{
    assert(items.push(item).drop_last() == items);
    assert(items.push(item).last() == item);
    if items.len() == 0 {
        assert(items.push(item)[0] == item);
    }
}

/// Appending a piece to what was appended before appends to the whole.
pub proof fn lemma_append(start: Seq<char>, acc: Seq<char>, piece: Seq<char>)
    ensures
        (start + acc) + piece == start + (acc + piece),
{
    assert((start + acc) + piece =~= start + (acc + piece));
}

fn push_escaped_char(out: &mut Vec<char>, c: char)
    ensures
        final(out)@ == old(out)@ + escaped_char(c),
{
    let ghost before = out@;
    if c == '"' {
        out.push('\\');
        out.push('"');
        assert(out@ == before + seq!['\\', '"']);
    } else if c == '\\' {
        out.push('\\');
        out.push('\\');
        assert(out@ == before + seq!['\\', '\\']);
    } else if c == '\n' {
        out.push('\\');
        out.push('n');
        assert(out@ == before + seq!['\\', 'n']);
    } else if c == '\r' {
        out.push('\\');
        out.push('r');
        assert(out@ == before + seq!['\\', 'r']);
    } else if c == '\t' {
        out.push('\\');
        out.push('t');
        assert(out@ == before + seq!['\\', 't']);
    } else {
        let n: u32 = c as u32;
        if n <= 0x1f || (0x7f <= n && n <= 0x9f) {
            out.push('\\');
            out.push('u');
            out.push(hex_char((n / 4096) as u8));
            out.push(hex_char(((n / 256) % 16) as u8));
            out.push(hex_char(((n / 16) % 16) as u8));
            out.push(hex_char((n % 16) as u8));
            assert(out@ == before + (seq!['\\', 'u'] + hex4(c as int)));
        } else {
            out.push(c);
            assert(out@ == before + seq![c]);
        }
    }
}

/// Appends `s` as a JSON string.
pub fn push_json_string(out: &mut Vec<char>, s: &str)
    ensures
        final(out)@ == old(out)@ + json_string_of(s@),
{
    let chars = chars_of(s);
    out.push('"');
    let ghost start = out@;
    let mut i: usize = 0;
    assert(escaped(chars@.subrange(0, 0)) == Seq::<char>::empty());
    while i < chars.len()
        invariant
            i <= chars@.len(),
            out@ == start + escaped(chars@.subrange(0, i as int)),
        decreases chars@.len() - i,
    {
        let ghost upto = chars@.subrange(0, i + 1);
        assert(upto.drop_last() == chars@.subrange(0, i as int));
        assert(upto.last() == chars@[i as int]);
        push_escaped_char(out, chars[i]);
        i += 1;
    }
    assert(chars@.subrange(0, chars@.len() as int) == chars@);
    out.push('"');
}

/// Appends an optional string as JSON.
pub fn push_json_opt_string(out: &mut Vec<char>, s: &Option<String>)
    ensures
        final(out)@ == old(out)@ + json_opt_string_of(
            match s {
                Some(text) => Some(text@),
                None => None,
            },
        ),
{
    match s {
        Some(text) => push_json_string(out, text.as_str()),
        None => push_str(out, "null"),
    }
}

/// `s` as a JSON string.
pub fn json_string(s: &str) -> (json: String)
    ensures
        json@ == json_string_of(s@),
{
    let mut out: Vec<char> = Vec::new();
    push_json_string(&mut out, s);
    string_of(out.as_slice())
}

/// An optional string as JSON: the string, or `null`.
pub fn json_opt_string(s: &Option<String>) -> (json: String)
    ensures
        json@ == json_opt_string_of(
            match s {
                Some(text) => Some(text@),
                None => None,
            },
        ),
{
    let mut out: Vec<char> = Vec::new();
    push_json_opt_string(&mut out, s);
    string_of(out.as_slice())
}

} // verus!
