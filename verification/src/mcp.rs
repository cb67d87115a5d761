//! The assistant bridge: the tools it offers, how a tool call is read, and
//! which workspace a call is routed to.

use vstd::prelude::*;
use crate::config::strs;
use crate::paths::is_absolute;
use crate::json::lemma_append;
use crate::text::{
    chars_of, decimal, push_all, push_decimal, push_str, same_chars, string_of, trim_chars, trimmed,
};
use crate::uri::{file_uri_path, file_uri_to_path};

verus! {

/// Get coverage status for all specs and implementations.
#[derive(Debug)]
pub struct StatusTool {
    /// Absolute workspace path where the project root is resolved.
    pub cwd: String,
}

/// Get rules without implementation references.
#[derive(Debug)]
pub struct UncoveredTool {
    pub cwd: String,
    pub spec_impl: Option<String>,
    pub prefix: Option<String>,
}

/// Get rules without verification references.
#[derive(Debug)]
pub struct UntestedTool {
    pub cwd: String,
    pub spec_impl: Option<String>,
    pub prefix: Option<String>,
}

/// List references that point to older rule versions.
#[derive(Debug)]
pub struct StaleTool {
    pub cwd: String,
    pub spec_impl: Option<String>,
    pub prefix: Option<String>,
}

/// Get code units without rule references.
#[derive(Debug)]
pub struct UnmappedTool {
    pub cwd: String,
    pub spec_impl: Option<String>,
    pub path: Option<String>,
}

/// Get details about a specific rule.
#[derive(Debug)]
pub struct RuleTool {
    pub cwd: String,
    pub rule_id: String,
}

/// Display the current configuration.
#[derive(Debug)]
pub struct ConfigTool {
    pub cwd: String,
}

/// Force a rebuild.
#[derive(Debug)]
pub struct ReloadTool {
    pub cwd: String,
}

/// Validate the spec and implementation for errors.
#[derive(Debug)]
pub struct ValidateTool {
    pub cwd: String,
    /// Spec and implementation to validate, as `spec/impl`.
    pub spec_impl: Option<String>,
}

/// Add an exclude pattern to filter out files from scanning.
#[derive(Debug)]
pub struct ConfigExcludeTool {
    pub cwd: String,
    pub spec_impl: Option<String>,
    /// Glob pattern to exclude.
    pub pattern: String,
}

/// Add an include pattern to expand the set of scanned files.
#[derive(Debug)]
pub struct ConfigIncludeTool {
    pub cwd: String,
    pub spec_impl: Option<String>,
    /// Glob pattern to add.
    pub pattern: String,
}

/// The string arguments of a tool call: each is there where the call holds
/// a string under that name.
#[derive(Debug)]
pub struct ToolArgs {
    pub cwd: Option<String>,
    pub spec_impl: Option<String>,
    pub prefix: Option<String>,
    pub path: Option<String>,
    pub rule_id: Option<String>,
    pub pattern: Option<String>,
}

/// What a tool call asks of the daemon.
#[derive(Debug)]
pub enum ToolCall {
    Status(StatusTool),
    Uncovered(UncoveredTool),
    Untested(UntestedTool),
    Stale(StaleTool),
    Unmapped(UnmappedTool),
    Rule(RuleTool),
    Config(ConfigTool),
    Reload(ReloadTool),
    Validate(ValidateTool),
    ConfigExclude(ConfigExcludeTool),
    ConfigInclude(ConfigIncludeTool),
    /// Nothing to ask: answer with this message under the config banner.
    Banner { cwd: String, message: String },
}

/// How a tool call is answered.
#[derive(Debug)]
pub enum ToolPlan {
    /// The call names no usable working directory: answer with the error.
    InvalidCwd(String),
    /// Route the call to the workspace of its working directory. The routing
    /// diagnostics follow the answer where `with_diagnostics` is set.
    Call { call: ToolCall, with_diagnostics: bool },
}

/// What `parse_required_cwd` makes of a `cwd` argument.
pub open spec fn required_cwd_of(cwd: Option<Seq<char>>) -> Result<Seq<char>, Seq<char>> {
    match cwd {
        None => Err("Error: missing required `cwd` argument (absolute workspace path)"@),
        Some(raw) => {
            let text = trimmed(raw);
            if text.len() == 0 {
                Err("Error: `cwd` must not be empty"@)
            } else if !is_absolute(text) {
                Err("Error: `cwd` must be an absolute path, got `"@ + text + "`"@)
            } else {
                Ok(text)
            }
        },
    }
}

/// The view of an optional string slice.
pub open spec fn opt_str_view(s: Option<&str>) -> Option<Seq<char>> {
    match s {
        Some(text) => Some(text@),
        None => None,
    }
}

/// The views of a result of strings.
pub open spec fn result_view(r: Result<String, String>) -> Result<Seq<char>, Seq<char>> {
    match r {
        Ok(text) => Ok(text@),
        Err(text) => Err(text@),
    }
}

/// Reads the working directory of a tool call: the `cwd` argument without
/// the white space around it, which must be there, must not be empty and
/// must be an absolute path.
pub fn parse_required_cwd(cwd: Option<&str>) -> (parsed: Result<String, String>)
    ensures
        result_view(parsed) == required_cwd_of(opt_str_view(cwd)),
{
    match cwd {
        None => Err(
            string_of(
                chars_of("Error: missing required `cwd` argument (absolute workspace path)").as_slice(),
            ),
        ),
        Some(raw) => {
            let chars = chars_of(raw);
            let text = trim_chars(chars.as_slice());
            if text.len() == 0 {
                Err(string_of(chars_of("Error: `cwd` must not be empty").as_slice()))
            } else if text[0] != '/' {
                let mut out: Vec<char> = Vec::new();
                push_str(&mut out, "Error: `cwd` must be an absolute path, got `");
                push_all(&mut out, text.as_slice());
                push_str(&mut out, "`");
                Err(string_of(out.as_slice()))
            } else {
                Ok(string_of(text.as_slice()))
            }
        },
    }
}

/// A workspace folder that the client announced.
#[derive(Debug, Clone)]
pub struct Root {
    pub name: Option<String>,
    pub uri: String,
}

/// How a root is listed: `name: uri` where it has a name, else the URI.
pub open spec fn root_entry_of(name: Option<Seq<char>>, uri: Seq<char>) -> Seq<char> {
    match name {
        Some(n) => if n.len() > 0 {
            n + ": "@ + uri
        } else {
            uri
        },
        None => uri,
    }
}

/// Formats one announced root for the routing diagnostics.
pub fn format_root_entry(root: &Root) -> (entry: String)
    ensures
        entry@ == root_entry_of(
            match root.name {
                Some(n) => Some(n@),
                None => None,
            },
            root.uri@,
        ),
{
    let mut out: Vec<char> = Vec::new();
    match &root.name {
        Some(name) => {
            let n = chars_of(name.as_str());
            if n.len() > 0 {
                push_all(&mut out, n.as_slice());
                push_str(&mut out, ": ");
            }
        },
        None => {},
    }
    push_str(&mut out, root.uri.as_str());
    string_of(out.as_slice())
}

/// The local path of the first root whose URI names one.
pub open spec fn first_file_root(roots: Seq<Root>, from: int) -> Option<Seq<char>>
    decreases roots.len() - from,
{
    if from < 0 || from >= roots.len() {
        None
    } else {
        match file_uri_path(roots[from].uri@) {
            Some(path) => Some(path),
            None => first_file_root(roots, from + 1),
        }
    }
}

/// Picks, from what reading each root's URI gave, the first root that gave
/// a path.
pub fn first_usable_root(paths: &Vec<Option<String>>) -> (picked: Option<usize>)
    ensures
        match picked {
            Some(at) => at < paths@.len() && paths@[at as int].is_some() && forall|k: int|
                0 <= k < at ==> paths@[k].is_none(),
            None => forall|k: int| 0 <= k < paths@.len() ==> paths@[k].is_none(),
        },
{
    let mut i: usize = 0;
    while i < paths.len()
        invariant
            i <= paths@.len(),
            forall|k: int| 0 <= k < i ==> paths@[k].is_none(),
        decreases paths@.len() - i,
    {
        if paths[i].is_some() {
            return Some(i);
        }
        i += 1;
    }
    None
}

/// Selects the workspace folder from the roots that a client announced: the
/// path of the first root whose URI names a local file.
pub fn select_project_root_from_roots(roots: &Vec<Root>) -> (path: Option<String>)
    ensures
        match path {
            Some(p) => first_file_root(roots@, 0) == Some(p@),
            None => first_file_root(roots@, 0).is_none(),
        },
{
    let mut i: usize = 0;
    while i < roots.len()
        invariant
            i <= roots@.len(),
            first_file_root(roots@, 0) == first_file_root(roots@, i as int),
        decreases roots@.len() - i,
    {
        match file_uri_to_path(roots[i].uri.as_str()) {
            Some(path) => {
                return Some(path);
            },
            None => {},
        }
        i += 1;
    }
    None
}

/// What a tool call asks of the daemon, with its strings as sequences.
pub enum ToolCallView {
    Status { cwd: Seq<char> },
    Uncovered { cwd: Seq<char>, spec_impl: Option<Seq<char>>, prefix: Option<Seq<char>> },
    Untested { cwd: Seq<char>, spec_impl: Option<Seq<char>>, prefix: Option<Seq<char>> },
    Stale { cwd: Seq<char>, spec_impl: Option<Seq<char>>, prefix: Option<Seq<char>> },
    Unmapped { cwd: Seq<char>, spec_impl: Option<Seq<char>>, path: Option<Seq<char>> },
    Rule { cwd: Seq<char>, rule_id: Seq<char> },
    Config { cwd: Seq<char> },
    Reload { cwd: Seq<char> },
    Validate { cwd: Seq<char>, spec_impl: Option<Seq<char>> },
    ConfigExclude { cwd: Seq<char>, spec_impl: Option<Seq<char>>, pattern: Seq<char> },
    ConfigInclude { cwd: Seq<char>, spec_impl: Option<Seq<char>>, pattern: Seq<char> },
    Banner { cwd: Seq<char>, message: Seq<char> },
}

/// How a tool call is answered, with its strings as sequences.
pub enum ToolPlanView {
    InvalidCwd(Seq<char>),
    Call { call: ToolCallView, with_diagnostics: bool },
}

/// The view of an optional string.
pub open spec fn opt_string_view(s: Option<String>) -> Option<Seq<char>> {
    match s {
        Some(text) => Some(text@),
        None => None,
    }
}

impl View for ToolCall {
    type V = ToolCallView;

    open spec fn view(&self) -> ToolCallView {
        match *self {
            ToolCall::Status(t) => ToolCallView::Status { cwd: t.cwd@ },
            ToolCall::Uncovered(t) => ToolCallView::Uncovered {
                cwd: t.cwd@,
                spec_impl: opt_string_view(t.spec_impl),
                prefix: opt_string_view(t.prefix),
            },
            ToolCall::Untested(t) => ToolCallView::Untested {
                cwd: t.cwd@,
                spec_impl: opt_string_view(t.spec_impl),
                prefix: opt_string_view(t.prefix),
            },
            ToolCall::Stale(t) => ToolCallView::Stale {
                cwd: t.cwd@,
                spec_impl: opt_string_view(t.spec_impl),
                prefix: opt_string_view(t.prefix),
            },
            ToolCall::Unmapped(t) => ToolCallView::Unmapped {
                cwd: t.cwd@,
                spec_impl: opt_string_view(t.spec_impl),
                path: opt_string_view(t.path),
            },
            ToolCall::Rule(t) => ToolCallView::Rule { cwd: t.cwd@, rule_id: t.rule_id@ },
            ToolCall::Config(t) => ToolCallView::Config { cwd: t.cwd@ },
            ToolCall::Reload(t) => ToolCallView::Reload { cwd: t.cwd@ },
            ToolCall::Validate(t) => ToolCallView::Validate {
                cwd: t.cwd@,
                spec_impl: opt_string_view(t.spec_impl),
            },
            ToolCall::ConfigExclude(t) => ToolCallView::ConfigExclude {
                cwd: t.cwd@,
                spec_impl: opt_string_view(t.spec_impl),
                pattern: t.pattern@,
            },
            ToolCall::ConfigInclude(t) => ToolCallView::ConfigInclude {
                cwd: t.cwd@,
                spec_impl: opt_string_view(t.spec_impl),
                pattern: t.pattern@,
            },
            ToolCall::Banner { cwd, message } => ToolCallView::Banner { cwd: cwd@, message: message@ },
        }
    }
}

impl View for ToolPlan {
    type V = ToolPlanView;

    open spec fn view(&self) -> ToolPlanView {
        match *self {
            ToolPlan::InvalidCwd(error) => ToolPlanView::InvalidCwd(error@),
            ToolPlan::Call { call, with_diagnostics } => ToolPlanView::Call {
                call: call@,
                with_diagnostics,
            },
        }
    }
}

/// What the tool named `name` asks of the daemon with the given arguments,
/// in the workspace at `cwd`. A tool that lacks a required argument, and a
/// name that is no tool, give a message instead.
pub open spec fn tool_call_of(
    name: Seq<char>,
    cwd: Seq<char>,
    spec_impl: Option<Seq<char>>,
    prefix: Option<Seq<char>>,
    path: Option<Seq<char>>,
    rule_id: Option<Seq<char>>,
    pattern: Option<Seq<char>>,
) -> ToolCallView {
    if name == "tracey_status"@ {
        ToolCallView::Status { cwd }
    } else if name == "tracey_uncovered"@ {
        ToolCallView::Uncovered { cwd, spec_impl, prefix }
    } else if name == "tracey_untested"@ {
        ToolCallView::Untested { cwd, spec_impl, prefix }
    } else if name == "tracey_stale"@ {
        ToolCallView::Stale { cwd, spec_impl, prefix }
    } else if name == "tracey_unmapped"@ {
        ToolCallView::Unmapped { cwd, spec_impl, path }
    } else if name == "tracey_rule"@ {
        match rule_id {
            Some(id) => ToolCallView::Rule { cwd, rule_id: id },
            None => ToolCallView::Banner { cwd, message: "Error: rule_id is required"@ },
        }
    } else if name == "tracey_config"@ {
        ToolCallView::Config { cwd }
    } else if name == "tracey_reload"@ {
        ToolCallView::Reload { cwd }
    } else if name == "tracey_validate"@ {
        ToolCallView::Validate { cwd, spec_impl }
    } else if name == "tracey_config_exclude"@ {
        match pattern {
            Some(p) => ToolCallView::ConfigExclude { cwd, spec_impl, pattern: p },
            None => ToolCallView::Banner { cwd, message: "Error: pattern is required"@ },
        }
    } else if name == "tracey_config_include"@ {
        match pattern {
            Some(p) => ToolCallView::ConfigInclude { cwd, spec_impl, pattern: p },
            None => ToolCallView::Banner { cwd, message: "Error: pattern is required"@ },
        }
    } else {
        ToolCallView::Banner { cwd, message: "Unknown tool: "@ + name }
    }
}

/// How the call of the tool `name` with `args` is answered: with the error
/// where its working directory is unusable, else by the tool's request. The
/// status and config tools also show the routing diagnostics.
pub open spec fn tool_plan_of(name: Seq<char>, args: ToolArgs) -> ToolPlanView {
    match required_cwd_of(opt_string_view(args.cwd)) {
        Err(error) => ToolPlanView::InvalidCwd(error),
        Ok(cwd) => ToolPlanView::Call {
            call: tool_call_of(
                name,
                cwd,
                opt_string_view(args.spec_impl),
                opt_string_view(args.prefix),
                opt_string_view(args.path),
                opt_string_view(args.rule_id),
                opt_string_view(args.pattern),
            ),
            with_diagnostics: name == "tracey_status"@ || name == "tracey_config"@,
        },
    }
}

fn is_name(name: &[char], tool: &str) -> (yes: bool)
    ensures
        yes == (name@ == tool@),
{
    same_chars(name, chars_of(tool).as_slice())
}

fn message(text: &str) -> (owned: String)
    ensures
        owned@ == text@,
{
    string_of(chars_of(text).as_slice())
}

/// Reads a tool call: which request it makes, in which workspace.
pub fn plan_tool_call(name: &str, args: ToolArgs) -> (plan: ToolPlan)
    ensures
        plan@ == tool_plan_of(name@, args),
{
    let cwd_arg: Option<&str> = match &args.cwd {
        Some(text) => Some(text.as_str()),
        None => None,
    };
    let cwd = match parse_required_cwd(cwd_arg) {
        Ok(cwd) => cwd,
        Err(error) => {
            return ToolPlan::InvalidCwd(error);
        },
    };
    let n = chars_of(name);
    let with_diagnostics = is_name(n.as_slice(), "tracey_status") || is_name(
        n.as_slice(),
        "tracey_config",
    );
    let call = if is_name(n.as_slice(), "tracey_status") {
        ToolCall::Status(StatusTool { cwd })
    } else if is_name(n.as_slice(), "tracey_uncovered") {
        ToolCall::Uncovered(UncoveredTool { cwd, spec_impl: args.spec_impl, prefix: args.prefix })
    } else if is_name(n.as_slice(), "tracey_untested") {
        ToolCall::Untested(UntestedTool { cwd, spec_impl: args.spec_impl, prefix: args.prefix })
    } else if is_name(n.as_slice(), "tracey_stale") {
        ToolCall::Stale(StaleTool { cwd, spec_impl: args.spec_impl, prefix: args.prefix })
    } else if is_name(n.as_slice(), "tracey_unmapped") {
        ToolCall::Unmapped(UnmappedTool { cwd, spec_impl: args.spec_impl, path: args.path })
    } else if is_name(n.as_slice(), "tracey_rule") {
        match args.rule_id {
            Some(rule_id) => ToolCall::Rule(RuleTool { cwd, rule_id }),
            None => ToolCall::Banner { cwd, message: message("Error: rule_id is required") },
        }
    } else if is_name(n.as_slice(), "tracey_config") {
        ToolCall::Config(ConfigTool { cwd })
    } else if is_name(n.as_slice(), "tracey_reload") {
        ToolCall::Reload(ReloadTool { cwd })
    } else if is_name(n.as_slice(), "tracey_validate") {
        ToolCall::Validate(ValidateTool { cwd, spec_impl: args.spec_impl })
    } else if is_name(n.as_slice(), "tracey_config_exclude") {
        match args.pattern {
            Some(pattern) => ToolCall::ConfigExclude(
                ConfigExcludeTool { cwd, spec_impl: args.spec_impl, pattern },
            ),
            None => ToolCall::Banner { cwd, message: message("Error: pattern is required") },
        }
    } else if is_name(n.as_slice(), "tracey_config_include") {
        match args.pattern {
            Some(pattern) => ToolCall::ConfigInclude(
                ConfigIncludeTool { cwd, spec_impl: args.spec_impl, pattern },
            ),
            None => ToolCall::Banner { cwd, message: message("Error: pattern is required") },
        }
    } else {
        let mut out: Vec<char> = Vec::new();
        push_str(&mut out, "Unknown tool: ");
        push_all(&mut out, n.as_slice());
        ToolCall::Banner { cwd, message: string_of(out.as_slice()) }
    };
    ToolPlan::Call { call, with_diagnostics }
}

/// The announced roots in one line: up to eight entries and `...` for the
/// rest, separated by ` | `; `(none)` where none was announced.
pub open spec fn roots_summary_of(entries: Seq<Seq<char>>) -> Seq<char> {
    if entries.len() == 0 {
        "(none)"@
    } else if entries.len() > 8 {
        crate::json::joined(entries.subrange(0, 8).push("..."@), " | "@)
    } else {
        crate::json::joined(entries, " | "@)
    }
}

/// Sums up the roots that the client announced last.
pub fn roots_summary(entries: &Vec<String>) -> (summary: String)
    ensures
        summary@ == roots_summary_of(strs(entries@)),
{
    if entries.len() == 0 {
        return message("(none)");
    }
    let shown: usize = if entries.len() > 8 {
        8
    } else {
        entries.len()
    };
    let mut out: Vec<char> = Vec::new();
    let mut i: usize = 0;
    assert(strs(entries@).subrange(0, 0) == Seq::<Seq<char>>::empty());
    while i < shown
        invariant
            i <= shown <= entries@.len(),
            out@ == crate::json::joined(strs(entries@).subrange(0, i as int), " | "@),
        decreases shown - i,
    {
        proof {
            let done = strs(entries@).subrange(0, i as int);
            assert(strs(entries@).subrange(0, i + 1) == done.push(entries@[i as int]@));
            crate::json::lemma_joined_push(done, entries@[i as int]@, " | "@);
        }
        if i > 0 {
            push_str(&mut out, " | ");
        }
        push_str(&mut out, entries[i].as_str());
        i += 1;
    }
    if entries.len() > 8 {
        proof {
            crate::json::lemma_joined_push(strs(entries@).subrange(0, 8), "..."@, " | "@);
        }
        push_str(&mut out, " | ");
        push_str(&mut out, "...");
    } else {
        assert(strs(entries@).subrange(0, entries@.len() as int) == strs(entries@));
    }
    string_of(out.as_slice())
}

/// What the bridge knows of the routing of its calls.
#[derive(Debug)]
pub struct RootRefreshState {
    /// Whether the client says that it can list its roots.
    pub client_supports_root_list: Option<bool>,
    /// The roots that the client listed last, formatted.
    pub last_client_roots: Vec<String>,
    /// The project root that was selected last.
    pub last_selected_root: Option<String>,
    /// What went wrong when the roots were last asked for.
    pub last_refresh_error: Option<String>,
    /// The working directory of the last tool call.
    pub last_tool_cwd: Option<String>,
    /// What was wrong with the working directory of the last tool call.
    pub last_tool_cwd_error: Option<String>,
}

/// The entries of a list of roots.
pub open spec fn root_entries(roots: Seq<Root>) -> Seq<Seq<char>> {
    roots.map_values(|r: Root| root_entry_of(opt_string_view(r.name), r.uri@))
}

impl RootRefreshState {
    /// A bridge that has routed nothing yet.
    pub fn new() -> (state: Self)
        ensures
            state.client_supports_root_list.is_none(),
            state.last_client_roots@.len() == 0,
            state.last_selected_root.is_none(),
            state.last_refresh_error.is_none(),
            state.last_tool_cwd.is_none(),
            state.last_tool_cwd_error.is_none(),
    {
        RootRefreshState {
            client_supports_root_list: None,
            last_client_roots: Vec::new(),
            last_selected_root: None,
            last_refresh_error: None,
            last_tool_cwd: None,
            last_tool_cwd_error: None,
        }
    }

    /// Takes note of whether the client can list its roots, and says whether
    /// to ask for them: only a client that says it can is asked.
    pub fn note_capability(&mut self, supports: Option<bool>) -> (ask: bool)
        ensures
            ask == (supports == Some(true)),
            final(self).client_supports_root_list == supports,
            final(self).last_client_roots == old(self).last_client_roots,
            final(self).last_selected_root == old(self).last_selected_root,
            final(self).last_refresh_error == old(self).last_refresh_error,
            final(self).last_tool_cwd == old(self).last_tool_cwd,
            final(self).last_tool_cwd_error == old(self).last_tool_cwd_error,
    {
        self.client_supports_root_list = supports;
        match supports {
            Some(true) => true,
            _ => false,
        }
    }

    /// Takes note of the roots that the client listed and of the project
    /// root that was selected from them. Without a selected root the list
    /// was of no use, which is kept as the error.
    pub fn roots_listed(&mut self, roots: &Vec<Root>, selected: Option<String>)
        ensures
            strs(final(self).last_client_roots@) == root_entries(roots@),
            match selected {
                Some(root) => final(self).last_selected_root == Some(root)
                    && final(self).last_refresh_error.is_none(),
                None => final(self).last_selected_root == old(self).last_selected_root
                    && opt_string_view(final(self).last_refresh_error) == Some(
                    "roots/list returned no usable file:// root"@,
                ),
            },
            final(self).client_supports_root_list == old(self).client_supports_root_list,
            final(self).last_tool_cwd == old(self).last_tool_cwd,
            final(self).last_tool_cwd_error == old(self).last_tool_cwd_error,
    {
        let mut entries: Vec<String> = Vec::new();
        let mut i: usize = 0;
        while i < roots.len()
            invariant
                i <= roots@.len(),
                entries@.len() == i,
                forall|k: int| 0 <= k < i ==> (#[trigger] entries@[k])@ == root_entries(roots@)[k],
            decreases roots@.len() - i,
        {
            entries.push(format_root_entry(&roots[i]));
            i += 1;
        }
        assert(strs(entries@) == root_entries(roots@));
        self.last_client_roots = entries;
        match selected {
            Some(root) => {
                self.last_selected_root = Some(root);
                self.last_refresh_error = None;
            },
            None => {
                self.last_refresh_error = Some(message("roots/list returned no usable file:// root"));
            },
        }
    }

    /// Takes note that asking for the roots failed.
    pub fn roots_failed(&mut self, error: &str)
        ensures
            opt_string_view(final(self).last_refresh_error) == Some(
                "roots/list request failed: "@ + error@,
            ),
            final(self).client_supports_root_list == old(self).client_supports_root_list,
            final(self).last_client_roots == old(self).last_client_roots,
            final(self).last_selected_root == old(self).last_selected_root,
            final(self).last_tool_cwd == old(self).last_tool_cwd,
            final(self).last_tool_cwd_error == old(self).last_tool_cwd_error,
    {
        let mut out: Vec<char> = Vec::new();
        push_str(&mut out, "roots/list request failed: ");
        push_str(&mut out, error);
        self.last_refresh_error = Some(string_of(out.as_slice()));
    }

    /// Takes note that a tool call named no usable working directory.
    pub fn cwd_rejected(&mut self, error: String)
        ensures
            final(self).last_tool_cwd.is_none(),
            final(self).last_tool_cwd_error == Some(error),
            final(self).client_supports_root_list == old(self).client_supports_root_list,
            final(self).last_client_roots == old(self).last_client_roots,
            final(self).last_selected_root == old(self).last_selected_root,
            final(self).last_refresh_error == old(self).last_refresh_error,
    {
        self.last_tool_cwd = None;
        self.last_tool_cwd_error = Some(error);
    }

    /// Takes note that a tool call was routed from its working directory to
    /// a project root.
    pub fn cwd_accepted(&mut self, cwd: String, project_root: String)
        ensures
            final(self).last_tool_cwd == Some(cwd),
            final(self).last_tool_cwd_error.is_none(),
            final(self).last_selected_root == Some(project_root),
            final(self).last_refresh_error.is_none(),
            final(self).client_supports_root_list == old(self).client_supports_root_list,
            final(self).last_client_roots == old(self).last_client_roots,
    {
        self.last_selected_root = Some(project_root);
        self.last_refresh_error = None;
        self.last_tool_cwd = Some(cwd);
        self.last_tool_cwd_error = None;
    }
}

/// A value that may be missing, shown with `missing` in its place.
pub open spec fn shown_or(value: Option<Seq<char>>, missing: Seq<char>) -> Seq<char> {
    match value {
        Some(text) => text,
        None => missing,
    }
}

/// How the capability of the client is shown.
pub open spec fn capability_text(supports: Option<bool>) -> Seq<char> {
    match supports {
        Some(true) => "yes"@,
        Some(false) => "no"@,
        None => "unknown"@,
    }
}

/// Where the bridge started.
#[derive(Debug)]
pub struct Startup {
    pub pid: u32,
    pub cwd: Option<String>,
    pub project_root: String,
    pub config_path: String,
}

/// The first half of the routing diagnostics: where the bridge started and
/// where it routes to.
pub open spec fn routing_head(startup: Startup, active_root: Seq<char>) -> Seq<char> {
    "\n---\nMCP routing diagnostics:\n- pid: "@ + decimal(startup.pid as nat) + "\n- startup cwd: "@
        + shown_or(opt_string_view(startup.cwd), "(unknown)"@) + "\n- startup project root: "@
        + startup.project_root@ + "\n- startup config path: "@ + startup.config_path@
        + "\n- active project root: "@ + active_root
}

/// The second half of the routing diagnostics: what the bridge knows of the
/// client's roots and of the last tool call.
pub open spec fn routing_tail(state: RootRefreshState) -> Seq<char> {
    "\n- client supports roots/list: "@ + capability_text(state.client_supports_root_list)
        + "\n- last client roots: "@ + roots_summary_of(strs(state.last_client_roots@))
        + "\n- last selected root: "@ + shown_or(opt_string_view(state.last_selected_root), "(none)"@)
        + "\n- last root refresh error: "@ + shown_or(
        opt_string_view(state.last_refresh_error),
        "(none)"@,
    ) + "\n- last tool cwd: "@ + shown_or(opt_string_view(state.last_tool_cwd), "(none)"@)
        + "\n- last tool cwd error: "@ + shown_or(
        opt_string_view(state.last_tool_cwd_error),
        "(none)"@,
    ) + "\n"@
}

fn push_or(out: &mut Vec<char>, value: &Option<String>, missing: &str)
    ensures
        final(out)@ == old(out)@ + shown_or(opt_string_view(*value), missing@),
{
    match value {
        Some(text) => push_str(out, text.as_str()),
        None => push_str(out, missing),
    }
}

fn push_routing_head(out: &mut Vec<char>, startup: &Startup, active_root: &str)
    ensures
        final(out)@ == old(out)@ + routing_head(*startup, active_root@),
{
    push_str(out, "\n---\nMCP routing diagnostics:\n- pid: ");
    push_decimal(out, startup.pid as u64);
    push_str(out, "\n- startup cwd: ");
    push_or(out, &startup.cwd, "(unknown)");
    push_str(out, "\n- startup project root: ");
    push_str(out, startup.project_root.as_str());
    push_str(out, "\n- startup config path: ");
    push_str(out, startup.config_path.as_str());
    push_str(out, "\n- active project root: ");
    push_str(out, active_root);
}

fn push_routing_tail(out: &mut Vec<char>, state: &RootRefreshState)
    ensures
        final(out)@ == old(out)@ + routing_tail(*state),
{
    let ghost start = out@;
    let ghost k1 = "\n- client supports roots/list: "@;
    push_str(out, "\n- client supports roots/list: ");
    match state.client_supports_root_list {
        Some(true) => push_str(out, "yes"),
        Some(false) => push_str(out, "no"),
        None => push_str(out, "unknown"),
    }
    let ghost a1 = k1 + capability_text(state.client_supports_root_list);
    proof {
        lemma_append(start, k1, capability_text(state.client_supports_root_list));
    }
    push_str(out, "\n- last client roots: ");
    let ghost a2 = a1 + "\n- last client roots: "@;
    proof {
        lemma_append(start, a1, "\n- last client roots: "@);
    }
    let summary = roots_summary(&state.last_client_roots);
    push_str(out, summary.as_str());
    let ghost a3 = a2 + roots_summary_of(strs(state.last_client_roots@));
    proof {
        lemma_append(start, a2, roots_summary_of(strs(state.last_client_roots@)));
    }
    push_str(out, "\n- last selected root: ");
    let ghost a4 = a3 + "\n- last selected root: "@;
    proof {
        lemma_append(start, a3, "\n- last selected root: "@);
    }
    push_or(out, &state.last_selected_root, "(none)");
    let ghost a5 = a4 + shown_or(opt_string_view(state.last_selected_root), "(none)"@);
    proof {
        lemma_append(start, a4, shown_or(opt_string_view(state.last_selected_root), "(none)"@));
    }
    push_str(out, "\n- last root refresh error: ");
    let ghost a6 = a5 + "\n- last root refresh error: "@;
    proof {
        lemma_append(start, a5, "\n- last root refresh error: "@);
    }
    push_or(out, &state.last_refresh_error, "(none)");
    let ghost a7 = a6 + shown_or(opt_string_view(state.last_refresh_error), "(none)"@);
    proof {
        lemma_append(start, a6, shown_or(opt_string_view(state.last_refresh_error), "(none)"@));
    }
    push_str(out, "\n- last tool cwd: ");
    let ghost a8 = a7 + "\n- last tool cwd: "@;
    proof {
        lemma_append(start, a7, "\n- last tool cwd: "@);
    }
    push_or(out, &state.last_tool_cwd, "(none)");
    let ghost a9 = a8 + shown_or(opt_string_view(state.last_tool_cwd), "(none)"@);
    proof {
        lemma_append(start, a8, shown_or(opt_string_view(state.last_tool_cwd), "(none)"@));
    }
    push_str(out, "\n- last tool cwd error: ");
    let ghost a10 = a9 + "\n- last tool cwd error: "@;
    proof {
        lemma_append(start, a9, "\n- last tool cwd error: "@);
    }
    push_or(out, &state.last_tool_cwd_error, "(none)");
    let ghost a11 = a10 + shown_or(opt_string_view(state.last_tool_cwd_error), "(none)"@);
    proof {
        lemma_append(start, a10, shown_or(opt_string_view(state.last_tool_cwd_error), "(none)"@));
    }
    push_str(out, "\n");
    proof {
        lemma_append(start, a11, "\n"@);
    }
}

/// The routing diagnostics that follow the answers of the status and config
/// tools.
pub fn mcp_routing_diagnostics(startup: &Startup, active_root: &str, state: &RootRefreshState) -> (text:
    String)
    ensures
        text@ == routing_head(*startup, active_root@) + routing_tail(*state),
{
    let mut out: Vec<char> = Vec::new();
    push_routing_head(&mut out, startup, active_root);
    push_routing_tail(&mut out, state);
    string_of(out.as_slice())
}

/// Whether the value of the trace switch turns tracing on: any value but
/// nothing, `0`, `false`, `off` and `no`, whatever its case and the white
/// space around it. No value leaves tracing off.
pub open spec fn trace_enabled_by(value: Option<Seq<char>>) -> bool {
    match value {
        None => false,
        Some(raw) => {
            let text = lowered(trimmed(raw));
            !(text.len() == 0 || text == "0"@ || text == "false"@ || text == "off"@ || text == "no"@)
        },
    }
}

/// `c` in lower case, where it is an ASCII letter.
pub open spec fn lower_char(c: char) -> char {
    if 'A' <= c && c <= 'Z' {
        ((c as u8) + 32) as char
    } else {
        c
    }
}

/// `s` with its ASCII letters in lower case.
pub open spec fn lowered(s: Seq<char>) -> Seq<char> {
    s.map_values(|c: char| lower_char(c))
}

fn lower(c: char) -> (l: char)
    ensures
        l == lower_char(c),
{
    if c >= 'A' && c <= 'Z' {
        ((c as u8) + 32) as char
    } else {
        c
    }
}

/// Reads the trace switch.
pub fn trace_enabled(value: Option<&str>) -> (enabled: bool)
    ensures
        enabled == trace_enabled_by(opt_str_view(value)),
{
    match value {
        None => false,
        Some(raw) => {
            let chars = chars_of(raw);
            let text = trim_chars(chars.as_slice());
            let mut low: Vec<char> = Vec::new();
            let mut i: usize = 0;
            while i < text.len()
                invariant
                    i <= text@.len(),
                    low@.len() == i,
                    forall|k: int| 0 <= k < i ==> low@[k] == lower_char(text@[k]),
                decreases text@.len() - i,
            {
                low.push(lower(text[i]));
                i += 1;
            }
            assert(low@ == lowered(text@));
            !(low.len() == 0 || is_name(low.as_slice(), "0") || is_name(low.as_slice(), "false")
                || is_name(low.as_slice(), "off") || is_name(low.as_slice(), "no"))
        },
    }
}

} // verus!
