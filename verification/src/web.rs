//! The dashboard server's rules: which changed paths it ignores, which asset
//! a request names, and where a request goes in development mode.

use vstd::prelude::*;
use crate::text::parse_unsigned;
use crate::uri::{percent_decode, percent_decoded};
use crate::text::{
    chars_of, decimal, ends_with, push_decimal, push_str, same_chars, slice_chars, string_of,
};

verus! {

/// Whether `name` is a directory whose changes the dashboard ignores.
pub open spec fn is_ignored_name(name: Seq<char>) -> bool {
    name == "node_modules"@ || name == "target"@ || name == ".git"@ || name == "dashboard"@ || name
        == ".vite"@
}

/// Whether one of the components of `path` from `from` on is an ignored
/// directory. Components are what stands between slashes.
pub open spec fn has_ignored_component(path: Seq<char>, from: int) -> bool
    decreases path.len() - from,
{
    if from < 0 || from >= path.len() {
        false
    } else {
        let end = from + component_len(path, from);
        if is_ignored_name(path.subrange(from, end)) {
            true
        } else if end >= path.len() {
            false
        } else {
            has_ignored_component(path, end + 1)
        }
    }
}

/// The number of characters from `from` up to the next slash, or to the end
/// of the path.
pub open spec fn component_len(path: Seq<char>, from: int) -> nat
    decreases path.len() - from,
{
    if from < 0 || from >= path.len() || path[from] == '/' {
        0
    } else {
        1 + component_len(path, from + 1)
    }
}

fn ignored_name(name: &[char]) -> (yes: bool)
    ensures
        yes == is_ignored_name(name@),
{
    same_chars(name, chars_of("node_modules").as_slice()) || same_chars(
        name,
        chars_of("target").as_slice(),
    ) || same_chars(name, chars_of(".git").as_slice()) || same_chars(
        name,
        chars_of("dashboard").as_slice(),
    ) || same_chars(name, chars_of(".vite").as_slice())
}

/// Whether the dashboard ignores a change at `path`: one of its components
/// is `node_modules`, `target`, `.git`, `dashboard` or `.vite`.
pub fn is_ignored_path(path: &str) -> (yes: bool)
    ensures
        yes == has_ignored_component(path@, 0),
{
    let p = chars_of(path);
    let mut from: usize = 0;
    while from < p.len()
        invariant
            from <= p@.len() + 1,
            p@ == path@,
            has_ignored_component(p@, 0) == has_ignored_component(p@, from as int),
        decreases p@.len() + 1 - from,
    {
        let mut end: usize = from;
        while end < p.len() && p[end] != '/'
            invariant
                from <= end <= p@.len(),
                from + component_len(p@, from as int) == end + component_len(p@, end as int),
            decreases p@.len() - end,
        {
            end += 1;
        }
        let name = slice_chars(p.as_slice(), from, end);
        if ignored_name(name.as_slice()) {
            return true;
        }
        if end == p.len() {
            return false;
        }
        from = end + 1;
    }
    false
}

/// What a request for a static asset names.
#[derive(Debug, Clone, Copy, PartialEq, Eq, Structural)]
pub enum Asset {
    Script,
    Style,
    NotFound,
}

/// The asset that a path names, by its ending.
pub fn static_asset(path: &str) -> (asset: Asset)
    ensures
        asset == if ".js"@.is_suffix_of(path@) {
            Asset::Script
        } else if ".css"@.is_suffix_of(path@) {
            Asset::Style
        } else {
            Asset::NotFound
        },
{
    let p = chars_of(path);
    if ends_with(p.as_slice(), chars_of(".js").as_slice()) {
        Asset::Script
    } else if ends_with(p.as_slice(), chars_of(".css").as_slice()) {
        Asset::Style
    } else {
        Asset::NotFound
    }
}

/// The address of the dev server for a request: scheme, loopback address,
/// port, path, and the query behind `?` where the request has one.
pub open spec fn proxy_target_of(
    websocket: bool,
    port: u16,
    path: Seq<char>,
    query: Option<Seq<char>>,
) -> Seq<char> {
    (if websocket {
        "ws://127.0.0.1:"@
    } else {
        "http://127.0.0.1:"@
    }) + decimal(port as nat) + path + match query {
        Some(q) => "?"@ + q,
        None => Seq::empty(),
    }
}

/// Where a request is sent on in development mode.
pub fn proxy_target(websocket: bool, port: u16, path: &str, query: Option<&str>) -> (target: String)
    ensures
        target@ == proxy_target_of(websocket, port, path@, crate::mcp::opt_str_view(query)),
{
    let mut out: Vec<char> = Vec::new();
    if websocket {
        push_str(&mut out, "ws://127.0.0.1:");
    } else {
        push_str(&mut out, "http://127.0.0.1:");
    }
    push_decimal(&mut out, port as u64);
    push_str(&mut out, path);
    match query {
        Some(q) => {
            let ghost before = out@;
            push_str(&mut out, "?");
            push_str(&mut out, q);
            assert(out@ == before + ("?"@ + q@));
        },
        None => {
            assert(out@ + Seq::<char>::empty() == out@);
        },
    }
    string_of(out.as_slice())
}

/// One parameter of a query: its name and its value as it was sent.
#[derive(Debug)]
pub struct QueryParam {
    pub name: String,
    pub value: String,
}

/// The value of the first parameter from `from` on that is named `name`, as
/// it was sent.
pub open spec fn raw_param(params: Seq<QueryParam>, name: Seq<char>, from: int) -> Option<Seq<char>>
    decreases params.len() - from,
{
    if from < 0 || from >= params.len() {
        None
    } else if params[from].name@ == name {
        Some(params[from].value@)
    } else {
        raw_param(params, name, from + 1)
    }
}

/// The value of a parameter: that of the first parameter of the name,
/// percent-decoded. A parameter that is missing, and a value that does not
/// decode, give the empty text.
pub open spec fn param_value(params: Seq<QueryParam>, name: Seq<char>) -> Seq<char> {
    let raw = match raw_param(params, name, 0) {
        Some(value) => value,
        None => Seq::empty(),
    };
    match percent_decoded(raw) {
        Some(value) => value,
        None => Seq::empty(),
    }
}

fn first_param<'a>(params: &'a Vec<QueryParam>, name: &str) -> (value: Option<&'a str>)
    ensures
        crate::mcp::opt_str_view(value) == raw_param(params@, name@, 0),
{
    let mut i: usize = 0;
    while i < params.len()
        invariant
            i <= params@.len(),
            raw_param(params@, name@, 0) == raw_param(params@, name@, i as int),
        decreases params@.len() - i,
    {
        if crate::text::str_same(params[i].name.as_str(), name) {
            return Some(params[i].value.as_str());
        }
        i += 1;
    }
    None
}

/// What a decoded value stands for: itself, or the empty text where the
/// value did not decode.
pub fn decoded_or_empty(decoded: Option<String>) -> (value: String)
    ensures
        value@ == match decoded {
            Some(text) => text@,
            None => Seq::<char>::empty(),
        },
{
    match decoded {
        Some(text) => text,
        None => String::new(),
    }
}

/// Reads a parameter of a request.
pub fn query_param(params: &Vec<QueryParam>, name: &str) -> (value: String)
    ensures
        value@ == param_value(params@, name@),
{
    let raw = match first_param(params, name) {
        Some(value) => value,
        None => "",
    };
    proof {
        reveal_strlit("");
        assert(""@ == Seq::<char>::empty());
    }
    decoded_or_empty(percent_decode(raw))
}

/// The number of search results to give where the request names none.
pub const DEFAULT_SEARCH_LIMIT: usize = 50;

/// The limit of a search: the number that the `limit` parameter writes, as
/// it was sent, or the default where there is none or it writes no number.
pub fn search_limit(params: &Vec<QueryParam>) -> (limit: usize)
    ensures
        limit == match raw_param(params@, "limit"@, 0) {
            Some(raw) => match crate::text::unsigned_of(raw, usize::MAX as nat) {
                Some(n) => n as usize,
                None => DEFAULT_SEARCH_LIMIT,
            },
            None => DEFAULT_SEARCH_LIMIT,
        },
{
    match first_param(params, "limit") {
        Some(raw) => {
            let chars = chars_of(raw);
            match parse_unsigned(chars.as_slice(), usize::MAX as u64) {
                Some(n) => n as usize,
                None => DEFAULT_SEARCH_LIMIT,
            }
        },
        None => DEFAULT_SEARCH_LIMIT,
    }
}

/// Whether a header of a request is passed on to the dev server: all but
/// the host.
pub fn is_forwarded_header(name: &str) -> (yes: bool)
    ensures
        yes == (name@ != "host"@),
{
    !crate::text::str_same(name, "host")
}

} // verus!
