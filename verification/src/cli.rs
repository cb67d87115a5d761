//! The command line's rules: the version text, the targets of an MCP
//! registration and its outcome, the reading of `spec/impl` arguments and of
//! rule ids, and which lines of a log to show.

use vstd::prelude::*;
use vstd::string::StringSliceAdditionalSpecFns;
use vstd::utf8::encode_utf8;
use crate::config::strs;
use crate::marker::{parse_rule_id, rule_id_of, RuleId};
use crate::mcp::opt_str_view;
use crate::paths::{join_chars, join_of};
use crate::text::{
    chars_of, decimal, find_from, first_occurrence, push_all, push_decimal, push_str, slice_chars,
    str_same, string_of,
};

verus! {

/// The version text: the package version, and in brackets the commit and the
/// build date where the build recorded them.
pub open spec fn version_text_of(
    version: Seq<char>,
    git_commit: Option<Seq<char>>,
    build_date: Option<Seq<char>>,
) -> Seq<char> {
    match git_commit {
        Some(commit) => version + " ("@ + commit + match build_date {
            Some(date) => " "@ + date,
            None => Seq::empty(),
        } + ")"@,
        None => match build_date {
            Some(date) => version + " (built "@ + date + ")"@,
            None => version,
        },
    }
}

/// The text that `--version` prints.
pub fn cli_version_text(version: &str, git_commit: Option<&str>, build_date: Option<&str>) -> (text:
    String)
    ensures
        text@ == version_text_of(version@, opt_str_view(git_commit), opt_str_view(build_date)),
{
    let mut out: Vec<char> = Vec::new();
    push_str(&mut out, version);
    match git_commit {
        Some(commit) => {
            push_str(&mut out, " (");
            push_str(&mut out, commit);
            match build_date {
                Some(date) => {
                    push_str(&mut out, " ");
                    push_str(&mut out, date);
                },
                None => {
                    assert(out@ + Seq::<char>::empty() == out@);
                },
            }
            push_str(&mut out, ")");
        },
        None => {
            match build_date {
                Some(date) => {
                    push_str(&mut out, " (built ");
                    push_str(&mut out, date);
                    push_str(&mut out, ")");
                },
                None => {},
            }
        },
    }
    string_of(out.as_slice())
}

/// What the arguments of a registration ask for.
#[derive(Debug)]
pub enum RegisterRequest {
    /// Register with these of the two clients.
    Targets { first: bool, second: bool },
    /// Print the usage.
    Help,
    /// An argument that is none of the known ones.
    Unknown(String),
}

/// Whether `flag` is among the first `upto` arguments.
pub open spec fn has_flag(args: Seq<Seq<char>>, flag: Seq<char>, upto: int) -> bool {
    exists|i: int| 0 <= i < upto && i < args.len() && #[trigger] args[i] == flag
}

/// The index of the first argument from `from` on that is neither of the two
/// client flags, or the number of arguments.
pub open spec fn first_stop(args: Seq<Seq<char>>, first: Seq<char>, second: Seq<char>, from: int) -> int
    decreases args.len() - from,
{
    if from < 0 || from >= args.len() {
        args.len() as int
    } else if args[from] == first || args[from] == second {
        first_stop(args, first, second, from + 1)
    } else {
        from
    }
}

/// Whether the argument asks for the usage.
pub open spec fn is_help(arg: Seq<char>) -> bool {
    arg == "-h"@ || arg == "--help"@
}

/// Whether `request` is what the arguments ask for. The first argument that
/// is neither of the two client flags decides: it asks for help, or it is
/// unknown. Else the request names the clients whose flags are there, or
/// both where neither flag is.
pub open spec fn is_register_request(
    request: RegisterRequest,
    args: Seq<Seq<char>>,
    first_flag: Seq<char>,
    second_flag: Seq<char>,
) -> bool {
    let stop = first_stop(args, first_flag, second_flag, 0);
    let wants_first = has_flag(args, first_flag, args.len() as int);
    let wants_second = has_flag(args, second_flag, args.len() as int);
    match request {
        RegisterRequest::Targets { first, second } => {
            &&& stop == args.len()
            &&& first == (wants_first || !wants_second)
            &&& second == (wants_second || !wants_first)
        },
        RegisterRequest::Help => stop < args.len() && is_help(args[stop]),
        RegisterRequest::Unknown(arg) => stop < args.len() && !is_help(args[stop]) && arg@
            == args[stop],
    }
}

/// Reads the arguments of a registration with one or both of two clients,
/// each named by its flag.
pub fn parse_register_args(args: &Vec<String>, first_flag: &str, second_flag: &str) -> (request:
    RegisterRequest)
    ensures
        is_register_request(request, strs(args@), first_flag@, second_flag@),
{
    let mut first = false;
    let mut second = false;
    let mut i: usize = 0;
    while i < args.len()
        invariant
            i <= args@.len(),
            first_stop(strs(args@), first_flag@, second_flag@, 0) == first_stop(
                strs(args@),
                first_flag@,
                second_flag@,
                i as int,
            ),
            first == has_flag(strs(args@), first_flag@, i as int),
            second == has_flag(strs(args@), second_flag@, i as int),
        decreases args@.len() - i,
    {
        let arg = args[i].as_str();
        assert(strs(args@)[i as int] == arg@);
        let is_first = str_same(arg, first_flag);
        let is_second = str_same(arg, second_flag);
        if !is_first && !is_second {
            if str_same(arg, "-h") || str_same(arg, "--help") {
                return RegisterRequest::Help;
            } else {
                return RegisterRequest::Unknown(args[i].clone());
            }
        }
        if is_first {
            first = true;
        }
        if is_second {
            second = true;
        }
        i += 1;
    }
    if first || second {
        RegisterRequest::Targets { first, second }
    } else {
        RegisterRequest::Targets { first: true, second: true }
    }
}

/// Why a registration failed.
#[derive(Debug, Clone, Copy, PartialEq, Eq, Structural)]
pub enum RegisterError {
    /// No client was selected.
    NoClientSelected,
    /// No registration succeeded.
    NoneSucceeded,
}

/// The outcome of a registration: the number of clients that it registered
/// with, where there is one; else why it failed.
pub fn registration_outcome(attempted: usize, succeeded: usize) -> (outcome: Result<usize, RegisterError>)
    ensures
        outcome == if succeeded > 0 {
            Ok::<usize, RegisterError>(succeeded)
        } else if attempted == 0 {
            Err::<usize, RegisterError>(RegisterError::NoClientSelected)
        } else {
            Err::<usize, RegisterError>(RegisterError::NoneSucceeded)
        },
{
    if succeeded > 0 {
        Ok(succeeded)
    } else if attempted == 0 {
        Err(RegisterError::NoClientSelected)
    } else {
        Err(RegisterError::NoneSucceeded)
    }
}

/// The spec and the implementation that `spec/impl` names: what stands
/// before the first `/` and what stands behind it; without `/` the whole is
/// the spec.
pub open spec fn spec_impl_of(text: Seq<char>) -> (Seq<char>, Option<Seq<char>>) {
    let slash = first_occurrence(text, seq!['/'], 0);
    if slash < 0 {
        (text, None)
    } else {
        (text.subrange(0, slash), Some(text.subrange(slash + 1, text.len() as int)))
    }
}

/// Reads a `spec/impl` argument. No argument names neither.
pub fn parse_spec_impl(spec_impl: Option<&str>) -> (parsed: (Option<String>, Option<String>))
    ensures
        match spec_impl {
            None => parsed.0.is_none() && parsed.1.is_none(),
            Some(text) => parsed.0.is_some() && parsed.0.unwrap()@ == spec_impl_of(text@).0
                && crate::mcp::opt_string_view(parsed.1) == spec_impl_of(text@).1,
        },
{
    match spec_impl {
        None => (None, None),
        Some(text) => {
            let chars = chars_of(text);
            let mut slash: Vec<char> = Vec::new();
            slash.push('/');
            assert(slash@ == seq!['/']);
            let len = chars.len();
            match find_from(chars.as_slice(), slash.as_slice(), 0) {
                None => (Some(string_of(chars.as_slice())), None),
                Some(at) => {
                    assert(at + 1 <= len);
                    let spec = slice_chars(chars.as_slice(), 0, at);
                    let name = slice_chars(chars.as_slice(), at + 1, chars.len());
                    (Some(string_of(spec.as_slice())), Some(string_of(name.as_slice())))
                },
            }
        },
    }
}

/// The index of the first of the ids from `from` on that is no rule id, or
/// the number of ids.
pub open spec fn first_invalid_id(ids: Seq<String>, from: int) -> int
    decreases ids.len() - from,
{
    if from < 0 || from >= ids.len() {
        ids.len() as int
    } else if rule_id_of(encode_utf8(ids[from]@)).is_none() {
        from
    } else {
        first_invalid_id(ids, from + 1)
    }
}

/// Whether `rule` is the rule id that `text` writes.
pub open spec fn is_parsed_id(rule: RuleId, text: Seq<char>) -> bool {
    match rule_id_of(encode_utf8(text)) {
        Some(parts) => rule.names(parts),
        None => false,
    }
}

/// Reads the rule ids of a `rule` query. The first one that is no rule id
/// gives the error that names it.
pub fn parse_rule_ids(ids: &Vec<String>) -> (parsed: Result<Vec<RuleId>, String>)
    ensures
        match parsed {
            Ok(rules) => {
                &&& first_invalid_id(ids@, 0) == ids@.len()
                &&& rules@.len() == ids@.len()
                &&& forall|i: int| 0 <= i < ids@.len() ==> is_parsed_id(#[trigger] rules@[i], ids@[i]@)
            },
            Err(message) => {
                let at = first_invalid_id(ids@, 0);
                at < ids@.len() && message@ == "invalid rule ID: "@ + ids@[at]@
            },
        },
{
    let mut rules: Vec<RuleId> = Vec::new();
    let mut i: usize = 0;
    while i < ids.len()
        invariant
            i <= ids@.len(),
            first_invalid_id(ids@, 0) == first_invalid_id(ids@, i as int),
            rules@.len() == i,
            forall|k: int| 0 <= k < i ==> is_parsed_id(#[trigger] rules@[k], ids@[k]@),
        decreases ids@.len() - i,
    {
        let ghost bytes = encode_utf8(ids@[i as int]@);
        match parse_rule_id(ids[i].as_str()) {
            Some(id) => {
                assert(is_parsed_id(id, ids@[i as int]@));
                rules.push(id);
            },
            None => {
                let mut out: Vec<char> = Vec::new();
                push_str(&mut out, "invalid rule ID: ");
                push_str(&mut out, ids[i].as_str());
                return Err(string_of(out.as_slice()));
            },
        }
        i += 1;
    }
    Ok(rules)
}

/// The index of the first line to show of a log of `total` lines, of which
/// the last `lines` are wanted.
pub fn tail_start(total: usize, lines: usize) -> (start: usize)
    ensures
        start == if total >= lines {
            total - lines
        } else {
            0
        },
{
    if total >= lines {
        total - lines
    } else {
        0
    }
}

/// The log file of a bridge: `.tracey/<bridge>-<pid>.log` below the project
/// root.
pub fn bridge_log_path(project_root: &str, bridge: &str, pid: u32) -> (path: String)
    ensures
        path@ == join_of(
            join_of(project_root@, ".tracey"@),
            bridge@ + "-"@ + decimal(pid as nat) + ".log"@,
        ),
{
    let root = chars_of(project_root);
    let dir = join_chars(root.as_slice(), chars_of(".tracey").as_slice());
    let mut name: Vec<char> = Vec::new();
    push_str(&mut name, bridge);
    push_str(&mut name, "-");
    push_decimal(&mut name, pid as u64);
    push_str(&mut name, ".log");
    let path = join_chars(dir.as_slice(), name.as_slice());
    string_of(path.as_slice())
}

} // verus!
