//! The rule index: the definitions of each spec, the references that the
//! scan found, and what becomes of each reference: it resolves to a rule, it
//! is stale, or it is reported.

use vstd::prelude::*;
use crate::cycles::Edge;
use crate::dashboard::{group_of, RefGroup};
use vstd::utf8::encode_utf8;
use crate::marker::{RefVerb, RuleId};
use crate::text::{decimal, push_decimal, push_str, str_same, string_of};

verus! {

/// A rule declared in a spec file.
#[derive(Debug, Clone)]
pub struct Definition {
    pub id: RuleId,
    /// The prefix of the marker.
    pub prefix: String,
    /// The file that declares the rule.
    pub file: String,
    /// The 1-based line of the marker.
    pub line: usize,
    /// The offset of the marker's first byte.
    pub start: usize,
    /// The offset behind the marker's last byte.
    pub end: usize,
    /// The raw Markdown that follows the marker.
    pub text: String,
    /// The text of the version before this one, where the spec still holds it.
    pub previous_text: Option<String>,
    /// The version that `previous_text` belongs to.
    pub previous_version: Option<u32>,
}

/// A spec with the prefix that its definitions use.
#[derive(Debug, Clone)]
pub struct ResolvedSpec {
    pub name: String,
    /// The prefix inferred from the spec's own markers.
    pub prefix: String,
    /// The rules the spec defines, in document order.
    pub definitions: Vec<Definition>,
}

/// An occurrence of a marker that is no definition.
#[derive(Debug, Clone)]
pub struct Reference {
    pub file: String,
    pub prefix: String,
    pub verb: RefVerb,
    pub id: RuleId,
    /// The 1-based line of the marker.
    pub line: usize,
    /// The offset of the marker's first byte.
    pub start: usize,
    /// The offset behind the marker's last byte.
    pub end: usize,
}

/// The index of the first definition of `base` at or after `from`, or -1.
pub open spec fn definition_of(defs: Seq<Definition>, base: Seq<char>, from: int) -> int
    decreases defs.len() - from,
{
    if from < 0 || from >= defs.len() {
        -1
    } else if defs[from].id.base@ == base {
        from
    } else {
        definition_of(defs, base, from + 1)
    }
}

/// What `definition_of` finds defines `base`.
pub proof fn lemma_definition_of(defs: Seq<Definition>, base: Seq<char>, from: int)
    requires
        0 <= from,
    ensures
        ({
            let at = definition_of(defs, base, from);
            if at < 0 {
                at == -1 && forall|k: int| from <= k < defs.len() ==> defs[k].id.base@ != base
            } else {
                from <= at < defs.len() && defs[at].id.base@ == base
            }
        }),
    decreases defs.len() - from,
{
    if from < defs.len() && defs[from].id.base@ != base {
        lemma_definition_of(defs, base, from + 1);
    }
}

/// Where a rule stands: the spec, and the definition in it.
pub struct RulePlace {
    pub spec: int,
    pub rule: int,
}

/// The first spec at or after `from` that uses `prefix` and defines `base`,
/// with the place of the definition.
pub open spec fn rule_place(
    specs: Seq<ResolvedSpec>,
    prefix: Seq<char>,
    base: Seq<char>,
    from: int,
) -> Option<RulePlace>
    decreases specs.len() - from,
{
    if from < 0 || from >= specs.len() {
        None
    } else if specs[from].prefix@ == prefix && definition_of(specs[from].definitions@, base, 0) >= 0 {
        Some(RulePlace { spec: from, rule: definition_of(specs[from].definitions@, base, 0) })
    } else {
        rule_place(specs, prefix, base, from + 1)
    }
}

/// Whether one of the specs from `from` on uses `prefix`.
pub open spec fn prefix_known(specs: Seq<ResolvedSpec>, prefix: Seq<char>, from: int) -> bool
    decreases specs.len() - from,
{
    if from < 0 || from >= specs.len() {
        false
    } else if specs[from].prefix@ == prefix {
        true
    } else {
        prefix_known(specs, prefix, from + 1)
    }
}

/// What becomes of a reference.
#[derive(Debug, Clone, Copy, PartialEq, Eq, Structural)]
pub enum RefStatus {
    /// The reference names the current version of a rule.
    Resolved { spec: usize, rule: usize },
    /// The reference names an older version of a rule than the spec defines.
    Stale { spec: usize, rule: usize, current: u32 },
    /// No spec with the marker's prefix defines the rule in that version.
    Orphaned,
    /// No spec uses the marker's prefix.
    UnknownPrefix,
}

/// What becomes of a reference with the given prefix, base and version: with
/// a prefix that no spec uses it is of unknown prefix; with a base that no
/// spec of its prefix defines it is orphaned; else it resolves to the rule
/// where it names the defined version, is stale where it names an older one,
/// and is orphaned where it names a later one.
pub open spec fn status_of(
    specs: Seq<ResolvedSpec>,
    prefix: Seq<char>,
    base: Seq<char>,
    version: u32,
) -> RefStatus {
    if !prefix_known(specs, prefix, 0) {
        RefStatus::UnknownPrefix
    } else {
        match rule_place(specs, prefix, base, 0) {
            None => RefStatus::Orphaned,
            Some(place) => {
                let current = specs[place.spec].definitions@[place.rule].id.version;
                if version == current {
                    RefStatus::Resolved { spec: place.spec as usize, rule: place.rule as usize }
                } else if version < current {
                    RefStatus::Stale { spec: place.spec as usize, rule: place.rule as usize, current }
                } else {
                    RefStatus::Orphaned
                }
            },
        }
    }
}

/// What `rule_place` finds is a spec of the prefix and its definition of the
/// base.
pub proof fn lemma_rule_place(specs: Seq<ResolvedSpec>, prefix: Seq<char>, base: Seq<char>, from: int)
    requires
        0 <= from,
    ensures
        match rule_place(specs, prefix, base, from) {
            Some(place) => {
                &&& from <= place.spec < specs.len()
                &&& specs[place.spec].prefix@ == prefix
                &&& 0 <= place.rule < specs[place.spec].definitions@.len()
                &&& specs[place.spec].definitions@[place.rule].id.base@ == base
            },
            None => forall|i: int|
                from <= i < specs.len() && specs[i].prefix@ == prefix ==> definition_of(
                    #[trigger] specs[i].definitions@,
                    base,
                    0,
                ) == -1,
        },
    decreases specs.len() - from,
{
    if from < specs.len() {
        lemma_definition_of(specs[from].definitions@, base, 0);
        if !(specs[from].prefix@ == prefix && definition_of(specs[from].definitions@, base, 0) >= 0) {
            lemma_rule_place(specs, prefix, base, from + 1);
        }
    }
}

/// The first definition of `base` in `defs`.
pub fn find_definition(defs: &Vec<Definition>, base: &str) -> (found: Option<usize>)
    ensures
        match found {
            Some(at) => at == definition_of(defs@, base@, 0) && at < defs@.len(),
            None => definition_of(defs@, base@, 0) == -1,
        },
{
    let mut i: usize = 0;
    while i < defs.len()
        invariant
            i <= defs@.len(),
            definition_of(defs@, base@, 0) == definition_of(defs@, base@, i as int),
        decreases defs@.len() - i,
    {
        if crate::text::str_same(defs[i].id.base.as_str(), base) {
            return Some(i);
        }
        i += 1;
    }
    None
}

/// Whether one of `specs` uses `prefix`.
pub fn is_known_prefix(specs: &Vec<ResolvedSpec>, prefix: &str) -> (known: bool)
    ensures
        known == prefix_known(specs@, prefix@, 0),
{
    let mut i: usize = 0;
    while i < specs.len()
        invariant
            i <= specs@.len(),
            prefix_known(specs@, prefix@, 0) == prefix_known(specs@, prefix@, i as int),
        decreases specs@.len() - i,
    {
        if crate::text::str_same(specs[i].prefix.as_str(), prefix) {
            return true;
        }
        i += 1;
    }
    false
}

/// Decides what becomes of a reference with the given prefix and rule id.
pub fn classify(specs: &Vec<ResolvedSpec>, prefix: &str, id: &RuleId) -> (status: RefStatus)
    ensures
        status == status_of(specs@, prefix@, id.base@, id.version),
{
    if !is_known_prefix(specs, prefix) {
        return RefStatus::UnknownPrefix;
    }
    let mut i: usize = 0;
    while i < specs.len()
        invariant
            i <= specs@.len(),
            prefix_known(specs@, prefix@, 0),
            rule_place(specs@, prefix@, id.base@, 0) == rule_place(specs@, prefix@, id.base@, i as int),
        decreases specs@.len() - i,
    {
        if crate::text::str_same(specs[i].prefix.as_str(), prefix) {
            match find_definition(&specs[i].definitions, id.base.as_str()) {
                Some(k) => {
                    let current = specs[i].definitions[k].id.version;
                    assert(rule_place(specs@, prefix@, id.base@, i as int) == Some(
                        RulePlace { spec: i as int, rule: k as int },
                    ));
                    return if id.version == current {
                        RefStatus::Resolved { spec: i, rule: k }
                    } else if id.version < current {
                        RefStatus::Stale { spec: i, rule: k, current }
                    } else {
                        RefStatus::Orphaned
                    };
                },
                None => {},
            }
        }
        i += 1;
    }
    RefStatus::Orphaned
}

/// The kinds of findings.
#[derive(Debug, Clone, Copy, PartialEq, Eq, Structural)]
pub enum DiagnosticCode {
    /// A reference to a rule that no spec of its prefix defines.
    Orphaned,
    /// A marker whose prefix no configured spec uses.
    UnknownPrefix,
    /// A reference to an older version of a rule.
    Stale,
    /// A reference other than `verify` in a test file.
    TestOnlyVerb,
    /// A rule defined twice in the same version.
    DuplicateDefinition,
    /// `depends` references that form a cycle.
    Cycle,
    /// The configuration failed validation.
    ConfigError,
}

/// How grave a finding is.
#[derive(Debug, Clone, Copy, PartialEq, Eq, Structural)]
pub enum Severity {
    Error,
    Warning,
    Info,
    Hint,
}

/// The severity of each kind of finding: stale references are warnings, all
/// else is an error.
pub open spec fn severity_of(code: DiagnosticCode) -> Severity {
    match code {
        DiagnosticCode::Stale => Severity::Warning,
        _ => Severity::Error,
    }
}

/// The name of each kind of finding, as front ends show it.
pub open spec fn code_name(code: DiagnosticCode) -> Seq<char> {
    match code {
        DiagnosticCode::Orphaned => "orphaned"@,
        DiagnosticCode::UnknownPrefix => "unknown-prefix"@,
        DiagnosticCode::Stale => "stale"@,
        DiagnosticCode::TestOnlyVerb => "test-only-verb"@,
        DiagnosticCode::DuplicateDefinition => "duplicate-definition"@,
        DiagnosticCode::Cycle => "cycle"@,
        DiagnosticCode::ConfigError => "config-error"@,
    }
}

impl DiagnosticCode {
    /// How grave a finding of this kind is.
    pub fn severity(self) -> (severity: Severity)
        ensures
            severity == severity_of(self),
    {
        match self {
            DiagnosticCode::Stale => Severity::Warning,
            _ => Severity::Error,
        }
    }

    /// The name of the kind, as front ends show it.
    pub fn name(self) -> (name: &'static str)
        ensures
            name@ == code_name(self),
    {
        match self {
            DiagnosticCode::Orphaned => "orphaned",
            DiagnosticCode::UnknownPrefix => "unknown-prefix",
            DiagnosticCode::Stale => "stale",
            DiagnosticCode::TestOnlyVerb => "test-only-verb",
            DiagnosticCode::DuplicateDefinition => "duplicate-definition",
            DiagnosticCode::Cycle => "cycle",
            DiagnosticCode::ConfigError => "config-error",
        }
    }
}

/// A finding about a marker.
#[derive(Debug, Clone)]
pub struct Diagnostic {
    pub code: DiagnosticCode,
    pub severity: Severity,
    pub message: String,
    pub file: String,
    /// The 1-based line of the marker; 0 for a finding about a whole file.
    pub line: usize,
    pub start: usize,
    pub end: usize,
    /// The prefix of the marker.
    pub prefix: String,
    /// The reference that the finding is about, by its place in the scan.
    pub reference: Option<usize>,
}

/// The finding that a reference gives rise to, if any: what became of it,
/// or, for a reference that resolves, its verb where the file is a test file
/// and the verb is not `verify`.
pub open spec fn report_code(status: RefStatus, verb: RefVerb, in_test_file: bool) -> Option<
    DiagnosticCode,
> {
    match status {
        RefStatus::UnknownPrefix => Some(DiagnosticCode::UnknownPrefix),
        RefStatus::Orphaned => Some(DiagnosticCode::Orphaned),
        RefStatus::Stale { .. } => Some(DiagnosticCode::Stale),
        RefStatus::Resolved { .. } => if in_test_file && verb != RefVerb::Verify {
            Some(DiagnosticCode::TestOnlyVerb)
        } else {
            None
        },
    }
}

/// The message of a finding about the reference `r`.
pub open spec fn message_text(code: DiagnosticCode, r: Reference, status: RefStatus) -> Seq<char> {
    match code {
        DiagnosticCode::Orphaned => "orphaned reference: no spec with prefix `"@ + r.prefix@
            + "` defines rule `"@ + r.id.rendered() + "`"@,
        DiagnosticCode::UnknownPrefix => "unknown prefix `"@ + r.prefix@
            + "`: no configured spec uses it (rule `"@ + r.id.rendered() + "`)"@,
        DiagnosticCode::Stale => "stale reference: `"@ + r.id.rendered() + "` names version "@
            + decimal(r.id.version as nat) + ", the spec defines version "@ + decimal(
            match status {
                RefStatus::Stale { current, .. } => current as nat,
                _ => 0,
            },
        ),
        _ => "only `verify` references are allowed in test files (rule `"@ + r.id.rendered() + "`)"@,
    }
}

/// Whether `d` is the finding of kind `code` about the reference `r`, the
/// `index`-th of the scan.
pub open spec fn reports(
    d: Diagnostic,
    index: int,
    r: Reference,
    code: DiagnosticCode,
    status: RefStatus,
) -> bool {
    &&& d.code == code
    &&& d.severity == severity_of(code)
    &&& d.message@ == message_text(code, r, status)
    &&& d.file@ == r.file@
    &&& d.line == r.line
    &&& d.start == r.start
    &&& d.end == r.end
    &&& d.prefix@ == r.prefix@
    &&& d.reference == Some(index as usize)
}

/// The status of a reference among `specs`.
pub open spec fn ref_status(specs: Seq<ResolvedSpec>, r: Reference) -> RefStatus {
    status_of(specs, r.prefix@, r.id.base@, r.id.version)
}

/// Whether the reference at `i` is looked at: always for the whole
/// workspace, and only with the given prefix for one spec.
pub open spec fn in_scope(r: Reference, only_prefix: Option<Seq<char>>) -> bool {
    match only_prefix {
        Some(prefix) => r.prefix@ == prefix,
        None => true,
    }
}

/// The finding about the reference at `i`, if it is looked at and gives rise
/// to one.
pub open spec fn report_at(
    specs: Seq<ResolvedSpec>,
    refs: Seq<Reference>,
    in_test_file: Seq<bool>,
    only_prefix: Option<Seq<char>>,
    i: int,
) -> Option<DiagnosticCode> {
    if in_scope(refs[i], only_prefix) {
        report_code(ref_status(specs, refs[i]), refs[i].verb, in_test_file[i])
    } else {
        None
    }
}

/// The references among the first `upto` that give rise to a finding, in the
/// order of the scan.
pub open spec fn reported(
    specs: Seq<ResolvedSpec>,
    refs: Seq<Reference>,
    in_test_file: Seq<bool>,
    only_prefix: Option<Seq<char>>,
    upto: int,
) -> Seq<int>
    decreases upto,
{
    if upto <= 0 {
        Seq::empty()
    } else {
        let head = reported(specs, refs, in_test_file, only_prefix, upto - 1);
        if report_at(specs, refs, in_test_file, only_prefix, upto - 1).is_some() {
            head.push(upto - 1)
        } else {
            head
        }
    }
}

/// Whether the `n`-th of `found` is the finding about the `n`-th of the
/// references `expected`.
pub open spec fn is_nth_report(
    found: Seq<Diagnostic>,
    expected: Seq<int>,
    specs: Seq<ResolvedSpec>,
    refs: Seq<Reference>,
    in_test_file: Seq<bool>,
    only_prefix: Option<Seq<char>>,
    n: int,
) -> bool {
    let i = expected[n];
    &&& 0 <= i < refs.len()
    &&& report_at(specs, refs, in_test_file, only_prefix, i).is_some()
    &&& reports(
        found[n],
        i,
        refs[i],
        report_at(specs, refs, in_test_file, only_prefix, i).unwrap(),
        ref_status(specs, refs[i]),
    )
}

/// Whether `found` holds the findings about the references `expected`, one
/// for each and in their order.
pub open spec fn are_reports(
    found: Seq<Diagnostic>,
    expected: Seq<int>,
    specs: Seq<ResolvedSpec>,
    refs: Seq<Reference>,
    in_test_file: Seq<bool>,
    only_prefix: Option<Seq<char>>,
) -> bool {
    &&& found.len() == expected.len()
    &&& forall|n: int|
        0 <= n < found.len() ==> #[trigger] is_nth_report(
            found,
            expected,
            specs,
            refs,
            in_test_file,
            only_prefix,
            n,
        )
}

fn quoted_id(out: &mut Vec<char>, id: &RuleId)
    ensures
        final(out)@ == old(out)@ + id.rendered(),
{
    let text = id.render();
    push_str(out, text.as_str());
}

/// The finding of kind `code` about the reference `r`.
fn report(index: usize, r: &Reference, code: DiagnosticCode, status: RefStatus) -> (d: Diagnostic)
    requires
        code == DiagnosticCode::Orphaned || code == DiagnosticCode::UnknownPrefix || code
            == DiagnosticCode::Stale || code == DiagnosticCode::TestOnlyVerb,
    ensures
        reports(d, index as int, *r, code, status),
{
    let mut out: Vec<char> = Vec::new();
    match code {
        DiagnosticCode::Orphaned => {
            push_str(&mut out, "orphaned reference: no spec with prefix `");
            push_str(&mut out, r.prefix.as_str());
            push_str(&mut out, "` defines rule `");
            quoted_id(&mut out, &r.id);
            push_str(&mut out, "`");
        },
        DiagnosticCode::UnknownPrefix => {
            push_str(&mut out, "unknown prefix `");
            push_str(&mut out, r.prefix.as_str());
            push_str(&mut out, "`: no configured spec uses it (rule `");
            quoted_id(&mut out, &r.id);
            push_str(&mut out, "`)");
        },
        DiagnosticCode::Stale => {
            push_str(&mut out, "stale reference: `");
            quoted_id(&mut out, &r.id);
            push_str(&mut out, "` names version ");
            push_decimal(&mut out, r.id.version as u64);
            push_str(&mut out, ", the spec defines version ");
            let current: u32 = match status {
                RefStatus::Stale { current, .. } => current,
                _ => 0,
            };
            push_decimal(&mut out, current as u64);
        },
        _ => {
            push_str(&mut out, "only `verify` references are allowed in test files (rule `");
            quoted_id(&mut out, &r.id);
            push_str(&mut out, "`)");
        },
    }
    Diagnostic {
        code,
        severity: code.severity(),
        message: string_of(out.as_slice()),
        file: r.file.clone(),
        line: r.line,
        start: r.start,
        end: r.end,
        prefix: r.prefix.clone(),
        reference: Some(index),
    }
}

fn code_for(status: RefStatus, verb: RefVerb, in_test_file: bool) -> (code: Option<DiagnosticCode>)
    ensures
        code == report_code(status, verb, in_test_file),
        code.is_some() ==> code.unwrap() == DiagnosticCode::Orphaned || code.unwrap()
            == DiagnosticCode::UnknownPrefix || code.unwrap() == DiagnosticCode::Stale
            || code.unwrap() == DiagnosticCode::TestOnlyVerb,
{
    match status {
        RefStatus::UnknownPrefix => Some(DiagnosticCode::UnknownPrefix),
        RefStatus::Orphaned => Some(DiagnosticCode::Orphaned),
        RefStatus::Stale { .. } => Some(DiagnosticCode::Stale),
        RefStatus::Resolved { .. } => {
            let is_verify = match verb {
                RefVerb::Verify => true,
                _ => false,
            };
            if in_test_file && !is_verify {
                Some(DiagnosticCode::TestOnlyVerb)
            } else {
                None
            }
        },
    }
}

fn collect_reports(
    specs: &Vec<ResolvedSpec>,
    refs: &Vec<Reference>,
    in_test_file: &Vec<bool>,
    only_prefix: Option<&str>,
) -> (found: Vec<Diagnostic>)
    requires
        in_test_file@.len() == refs@.len(),
    ensures
        are_reports(
            found@,
            reported(
                specs@,
                refs@,
                in_test_file@,
                crate::mcp::opt_str_view(only_prefix),
                refs@.len() as int,
            ),
            specs@,
            refs@,
            in_test_file@,
            crate::mcp::opt_str_view(only_prefix),
        ),
{
    let ghost only = crate::mcp::opt_str_view(only_prefix);
    let mut found: Vec<Diagnostic> = Vec::new();
    let mut i: usize = 0;
    while i < refs.len()
        invariant
            i <= refs@.len(),
            in_test_file@.len() == refs@.len(),
            only == crate::mcp::opt_str_view(only_prefix),
            are_reports(
                found@,
                reported(specs@, refs@, in_test_file@, only, i as int),
                specs@,
                refs@,
                in_test_file@,
                only,
            ),
        decreases refs@.len() - i,
    {
        let r = &refs[i];
        let ghost before = found@;
        let ghost expected = reported(specs@, refs@, in_test_file@, only, i as int);
        let wanted = match only_prefix {
            Some(prefix) => str_same(r.prefix.as_str(), prefix),
            None => true,
        };
        assert(wanted == in_scope(refs@[i as int], only));
        if wanted {
            let status = classify(specs, r.prefix.as_str(), &r.id);
            match code_for(status, r.verb, in_test_file[i]) {
                Some(code) => {
                    let d = report(i, r, code, status);
                    found.push(d);
                },
                None => {},
            }
        }
        proof {
            let next = reported(specs@, refs@, in_test_file@, only, i + 1);
            assert forall|n: int| 0 <= n < found@.len() implies #[trigger] is_nth_report(
                found@,
                next,
                specs@,
                refs@,
                in_test_file@,
                only,
                n,
            ) by {
                if n < before.len() {
                    assert(is_nth_report(before, expected, specs@, refs@, in_test_file@, only, n));
                    assert(found@[n] == before[n]);
                    assert(next[n] == expected[n]);
                } else {
                    assert(next[n] == i);
                }
            }
        }
        i += 1;
    }
    found
}

/// The findings about all references of the workspace, in the order of the
/// scan: one for each reference that has an unknown prefix, is orphaned or
/// stale, or carries a verb that its test file does not allow.
/// `in_test_file` says of each reference whether its file is a test file.
pub fn workspace_diagnostics(
    specs: &Vec<ResolvedSpec>,
    refs: &Vec<Reference>,
    in_test_file: &Vec<bool>,
) -> (found: Vec<Diagnostic>)
    requires
        in_test_file@.len() == refs@.len(),
    ensures
        are_reports(
            found@,
            reported(specs@, refs@, in_test_file@, None, refs@.len() as int),
            specs@,
            refs@,
            in_test_file@,
            None,
        ),
{
    collect_reports(specs, refs, in_test_file, None)
}

/// The findings about one spec: those about the references that carry the
/// spec's prefix. References with another prefix are invisible to it.
pub fn validate(
    specs: &Vec<ResolvedSpec>,
    spec: usize,
    refs: &Vec<Reference>,
    in_test_file: &Vec<bool>,
) -> (found: Vec<Diagnostic>)
    requires
        spec < specs@.len(),
        in_test_file@.len() == refs@.len(),
    ensures
        are_reports(
            found@,
            reported(
                specs@,
                refs@,
                in_test_file@,
                Some(specs@[spec as int].prefix@),
                refs@.len() as int,
            ),
            specs@,
            refs@,
            in_test_file@,
            Some(specs@[spec as int].prefix@),
        ),
        forall|n: int|
            0 <= n < found@.len() ==> (#[trigger] found@[n]).prefix@ == specs@[spec as int].prefix@,
{
    let found = collect_reports(specs, refs, in_test_file, Some(specs[spec].prefix.as_str()));
    proof {
        let only = Some(specs@[spec as int].prefix@);
        let expected = reported(specs@, refs@, in_test_file@, only, refs@.len() as int);
        assert forall|n: int| 0 <= n < found@.len() implies (#[trigger] found@[n]).prefix@
            == specs@[spec as int].prefix@ by {
            assert(is_nth_report(found@, expected, specs@, refs@, in_test_file@, only, n));
        }
    }
    found
}

/// Whether a spec of the reference's prefix defines a rule with the
/// reference's base.
pub open spec fn has_definition(specs: Seq<ResolvedSpec>, r: Reference) -> bool {
    exists|s: int, k: int|
        0 <= s < specs.len() && 0 <= k < specs[s].definitions@.len() && specs[s].prefix@ == r.prefix@
            && #[trigger] specs[s].definitions@[k].id.base@ == r.id.base@
}

/// Whether the findings of the workspace report the reference at `i` as an
/// orphan: as orphaned, or as of unknown prefix.
pub open spec fn is_reported_orphan(
    specs: Seq<ResolvedSpec>,
    refs: Seq<Reference>,
    in_test_file: Seq<bool>,
    i: int,
) -> bool {
    &&& reported(specs, refs, in_test_file, None, refs.len() as int).contains(i)
    &&& (report_at(specs, refs, in_test_file, None, i) == Some(DiagnosticCode::Orphaned)
        || report_at(specs, refs, in_test_file, None, i) == Some(DiagnosticCode::UnknownPrefix))
}

/// The references listed are those, and only those, that are looked at and
/// give rise to a finding.
pub proof fn lemma_reported(
    specs: Seq<ResolvedSpec>,
    refs: Seq<Reference>,
    in_test_file: Seq<bool>,
    only_prefix: Option<Seq<char>>,
    upto: int,
)
    requires
        0 <= upto,
    ensures
        forall|i: int|
            0 <= i < upto && report_at(specs, refs, in_test_file, only_prefix, i).is_some()
                ==> #[trigger] reported(specs, refs, in_test_file, only_prefix, upto).contains(i),
        forall|n: int|
            0 <= n < reported(specs, refs, in_test_file, only_prefix, upto).len() ==> {
                let i = #[trigger] reported(specs, refs, in_test_file, only_prefix, upto)[n];
                0 <= i < upto && report_at(specs, refs, in_test_file, only_prefix, i).is_some()
            },
    decreases upto,
{
    if upto > 0 {
        lemma_reported(specs, refs, in_test_file, only_prefix, upto - 1);
        let head = reported(specs, refs, in_test_file, only_prefix, upto - 1);
        let all = reported(specs, refs, in_test_file, only_prefix, upto);
        assert forall|i: int|
            0 <= i < upto && report_at(
                specs,
                refs,
                in_test_file,
                only_prefix,
                i,
            ).is_some() implies #[trigger] all.contains(i) by {
            if i < upto - 1 {
                assert(head.contains(i));
                let n = choose|n: int| 0 <= n < head.len() && head[n] == i;
                assert(all[n] == i);
            } else {
                assert(all[all.len() - 1] == i);
            }
        }
        assert forall|n: int| 0 <= n < all.len() implies {
            let i = #[trigger] all[n];
            0 <= i < upto && report_at(specs, refs, in_test_file, only_prefix, i).is_some()
        } by {
            if n < head.len() {
                assert(all[n] == head[n]);
            }
        }
    }
}

/// Every reference resolves to a definition of its base in a spec of its
/// prefix, or the findings of the workspace report it as an orphan.
pub proof fn law_reference_resolves_or_is_reported(
    specs: Seq<ResolvedSpec>,
    refs: Seq<Reference>,
    in_test_file: Seq<bool>,
    i: int,
)
    requires
        0 <= i < refs.len(),
        in_test_file.len() == refs.len(),
    ensures
        has_definition(specs, refs[i]) || is_reported_orphan(specs, refs, in_test_file, i),
{
    let r = refs[i];
    lemma_rule_place(specs, r.prefix@, r.id.base@, 0);
    lemma_reported(specs, refs, in_test_file, None, refs.len() as int);
    if prefix_known(specs, r.prefix@, 0) {
        match rule_place(specs, r.prefix@, r.id.base@, 0) {
            Some(place) => {
                assert(specs[place.spec].definitions@[place.rule].id.base@ == r.id.base@);
            },
            None => {
                assert(report_at(specs, refs, in_test_file, None, i) == Some(DiagnosticCode::Orphaned));
            },
        }
    } else {
        assert(report_at(specs, refs, in_test_file, None, i) == Some(DiagnosticCode::UnknownPrefix));
    }
}

/// Whether the specs and the definitions of each can be counted in `usize`,
/// as those of every list in memory can.
pub open spec fn fits(specs: Seq<ResolvedSpec>) -> bool {
    &&& specs.len() <= usize::MAX
    &&& forall|s: int| 0 <= s < specs.len() ==> (#[trigger] specs[s]).definitions@.len() <= usize::MAX
}

/// A reference that resolves, or is stale, names a rule that a spec of its
/// prefix defines under its base.
pub proof fn lemma_resolved_has_definition(specs: Seq<ResolvedSpec>, r: Reference)
    requires
        ref_status(specs, r) is Resolved || ref_status(specs, r) is Stale,
        fits(specs),
    ensures
        has_definition(specs, r),
        match ref_status(specs, r) {
            RefStatus::Resolved { spec, rule } => {
                &&& spec < specs.len()
                &&& rule < specs[spec as int].definitions@.len()
                &&& specs[spec as int].prefix@ == r.prefix@
                &&& specs[spec as int].definitions@[rule as int].id.base@ == r.id.base@
                &&& specs[spec as int].definitions@[rule as int].id.version == r.id.version
            },
            RefStatus::Stale { spec, rule, current } => {
                &&& spec < specs.len()
                &&& rule < specs[spec as int].definitions@.len()
                &&& specs[spec as int].prefix@ == r.prefix@
                &&& specs[spec as int].definitions@[rule as int].id.base@ == r.id.base@
                &&& specs[spec as int].definitions@[rule as int].id.version == current
                &&& r.id.version < current
            },
            _ => true,
        },
{
    lemma_rule_place(specs, r.prefix@, r.id.base@, 0);
    let place = rule_place(specs, r.prefix@, r.id.base@, 0).unwrap();
    assert(specs[place.spec].definitions@[place.rule].id.base@ == r.id.base@);
}

/// Validating one spec never reports a marker that carries the prefix of a
/// spec with another prefix: every reference it reports carries its own.
pub proof fn law_validation_is_isolated(
    specs: Seq<ResolvedSpec>,
    refs: Seq<Reference>,
    in_test_file: Seq<bool>,
    a: int,
    b: int,
)
    requires
        0 <= a < specs.len(),
        0 <= b < specs.len(),
        specs[a].prefix@ != specs[b].prefix@,
        in_test_file.len() == refs.len(),
    ensures
        forall|n: int|
            0 <= n < reported(specs, refs, in_test_file, Some(specs[a].prefix@), refs.len() as int).len()
                ==> {
                let i = #[trigger] reported(
                    specs,
                    refs,
                    in_test_file,
                    Some(specs[a].prefix@),
                    refs.len() as int,
                )[n];
                refs[i].prefix@ == specs[a].prefix@ && refs[i].prefix@ != specs[b].prefix@
            },
{
    lemma_reported(specs, refs, in_test_file, Some(specs[a].prefix@), refs.len() as int);
}

/// What became of each reference.
pub fn classify_all(specs: &Vec<ResolvedSpec>, refs: &Vec<Reference>) -> (statuses: Vec<RefStatus>)
    ensures
        statuses@.len() == refs@.len(),
        forall|i: int| 0 <= i < refs@.len() ==> #[trigger] statuses@[i] == ref_status(specs@, refs@[i]),
{
    let mut out: Vec<RefStatus> = Vec::new();
    let mut i: usize = 0;
    while i < refs.len()
        invariant
            i <= refs@.len(),
            out@.len() == i,
            forall|k: int| 0 <= k < i ==> #[trigger] out@[k] == ref_status(specs@, refs@[k]),
        decreases refs@.len() - i,
    {
        out.push(classify(specs, refs[i].prefix.as_str(), &refs[i].id));
        i += 1;
    }
    out
}

/// A rule with the references that resolve to it, each by its place in the
/// scan.
#[derive(Debug, Clone)]
pub struct RuleCoverage {
    /// The place of the rule among the definitions of its spec.
    pub rule: usize,
    /// References that implement or define the rule.
    pub impl_refs: Vec<usize>,
    /// References that verify the rule.
    pub verify_refs: Vec<usize>,
    /// References that depend on the rule or are related to it.
    pub depends_refs: Vec<usize>,
    /// References to an older version of the rule.
    pub stale_refs: Vec<usize>,
}

/// Whether the reference with the given status and verb goes to the list
/// `group` of the rule at `rule` in the spec at `spec`.
pub open spec fn goes_to(status: RefStatus, verb: RefVerb, spec: int, rule: int, group: RefGroup) -> bool {
    status == (RefStatus::Resolved { spec: spec as usize, rule: rule as usize }) && group_of(verb)
        == group
}

/// Whether the reference with the given status is a stale reference to the
/// rule at `rule` in the spec at `spec`.
pub open spec fn is_stale_for(status: RefStatus, spec: int, rule: int) -> bool {
    status matches RefStatus::Stale { spec: s, rule: k, .. } && s == spec && k == rule
}

/// The references among the first `upto` that go to the list `group` of a
/// rule, in the order of the scan.
pub open spec fn refs_of(
    statuses: Seq<RefStatus>,
    refs: Seq<Reference>,
    spec: int,
    rule: int,
    group: RefGroup,
    upto: int,
) -> Seq<usize>
    decreases upto,
{
    if upto <= 0 {
        Seq::empty()
    } else {
        let head = refs_of(statuses, refs, spec, rule, group, upto - 1);
        if goes_to(statuses[upto - 1], refs[upto - 1].verb, spec, rule, group) {
            head.push((upto - 1) as usize)
        } else {
            head
        }
    }
}

/// The stale references to a rule among the first `upto`, in the order of
/// the scan.
pub open spec fn stale_refs_of(statuses: Seq<RefStatus>, spec: int, rule: int, upto: int) -> Seq<usize>
    decreases upto,
{
    if upto <= 0 {
        Seq::empty()
    } else {
        let head = stale_refs_of(statuses, spec, rule, upto - 1);
        if is_stale_for(statuses[upto - 1], spec, rule) {
            head.push((upto - 1) as usize)
        } else {
            head
        }
    }
}

/// Whether `coverage` lists the references to the rule at `rule` in the
/// spec at `spec`.
pub open spec fn is_coverage_of(
    coverage: RuleCoverage,
    statuses: Seq<RefStatus>,
    refs: Seq<Reference>,
    spec: int,
    rule: int,
) -> bool {
    &&& coverage.rule == rule
    &&& coverage.impl_refs@ == refs_of(statuses, refs, spec, rule, RefGroup::Impl, refs.len() as int)
    &&& coverage.verify_refs@ == refs_of(
        statuses,
        refs,
        spec,
        rule,
        RefGroup::Verify,
        refs.len() as int,
    )
    &&& coverage.depends_refs@ == refs_of(
        statuses,
        refs,
        spec,
        rule,
        RefGroup::Depends,
        refs.len() as int,
    )
    &&& coverage.stale_refs@ == stale_refs_of(statuses, spec, rule, refs.len() as int)
}

/// The references to one rule, each in its list.
pub fn rule_coverage(statuses: &Vec<RefStatus>, refs: &Vec<Reference>, spec: usize, rule: usize) -> (coverage:
    RuleCoverage)
    requires
        statuses@.len() == refs@.len(),
    ensures
        is_coverage_of(coverage, statuses@, refs@, spec as int, rule as int),
{
    let mut impl_refs: Vec<usize> = Vec::new();
    let mut verify_refs: Vec<usize> = Vec::new();
    let mut depends_refs: Vec<usize> = Vec::new();
    let mut stale_refs: Vec<usize> = Vec::new();
    let mut i: usize = 0;
    while i < refs.len()
        invariant
            i <= refs@.len(),
            statuses@.len() == refs@.len(),
            impl_refs@ == refs_of(statuses@, refs@, spec as int, rule as int, RefGroup::Impl, i as int),
            verify_refs@ == refs_of(
                statuses@,
                refs@,
                spec as int,
                rule as int,
                RefGroup::Verify,
                i as int,
            ),
            depends_refs@ == refs_of(
                statuses@,
                refs@,
                spec as int,
                rule as int,
                RefGroup::Depends,
                i as int,
            ),
            stale_refs@ == stale_refs_of(statuses@, spec as int, rule as int, i as int),
        decreases refs@.len() - i,
    {
        match statuses[i] {
            RefStatus::Resolved { spec: s, rule: k } => {
                if s == spec && k == rule {
                    match refs[i].verb {
                        RefVerb::Impl => impl_refs.push(i),
                        RefVerb::Define => impl_refs.push(i),
                        RefVerb::Verify => verify_refs.push(i),
                        RefVerb::Depends => depends_refs.push(i),
                        RefVerb::Related => depends_refs.push(i),
                    }
                }
            },
            RefStatus::Stale { spec: s, rule: k, current } => {
                if s == spec && k == rule {
                    stale_refs.push(i);
                }
            },
            _ => {},
        }
        i += 1;
    }
    RuleCoverage { rule, impl_refs, verify_refs, depends_refs, stale_refs }
}

/// Forward traceability for one spec: each of its rules, in document order,
/// with the references that resolve to it.
pub fn build_forward(
    specs: &Vec<ResolvedSpec>,
    spec: usize,
    statuses: &Vec<RefStatus>,
    refs: &Vec<Reference>,
) -> (forward: Vec<RuleCoverage>)
    requires
        spec < specs@.len(),
        statuses@.len() == refs@.len(),
    ensures
        forward@.len() == specs@[spec as int].definitions@.len(),
        forall|k: int|
            0 <= k < forward@.len() ==> is_coverage_of(
                #[trigger] forward@[k],
                statuses@,
                refs@,
                spec as int,
                k,
            ),
{
    let count = specs[spec].definitions.len();
    let mut forward: Vec<RuleCoverage> = Vec::new();
    let mut k: usize = 0;
    while k < count
        invariant
            k <= count,
            statuses@.len() == refs@.len(),
            forward@.len() == k,
            forall|j: int|
                0 <= j < k ==> is_coverage_of(#[trigger] forward@[j], statuses@, refs@, spec as int, j),
        decreases count - k,
    {
        forward.push(rule_coverage(statuses, refs, spec, k));
        k += 1;
    }
    forward
}

/// Every reference in a rule's lists resolves to that rule: it carries the
/// prefix of the rule's spec and names the rule's base and version.
pub proof fn law_forward_references_resolve(
    specs: Seq<ResolvedSpec>,
    refs: Seq<Reference>,
    statuses: Seq<RefStatus>,
    spec: int,
    rule: int,
    group: RefGroup,
    upto: int,
)
    requires
        0 <= upto <= refs.len() <= usize::MAX,
        0 <= spec <= usize::MAX,
        0 <= rule <= usize::MAX,
        fits(specs),
        statuses.len() == refs.len(),
        forall|i: int| 0 <= i < refs.len() ==> #[trigger] statuses[i] == ref_status(specs, refs[i]),
    ensures
        forall|n: int|
            0 <= n < refs_of(statuses, refs, spec, rule, group, upto).len() ==> {
                let i = #[trigger] refs_of(statuses, refs, spec, rule, group, upto)[n] as int;
                &&& 0 <= i < upto
                &&& has_definition(specs, refs[i])
                &&& 0 <= spec < specs.len()
                &&& 0 <= rule < specs[spec].definitions@.len()
                &&& specs[spec].prefix@ == refs[i].prefix@
                &&& specs[spec].definitions@[rule].id.base@ == refs[i].id.base@
                &&& specs[spec].definitions@[rule].id.version == refs[i].id.version
            },
    decreases upto,
{
    if upto > 0 {
        law_forward_references_resolve(specs, refs, statuses, spec, rule, group, upto - 1);
        let head = refs_of(statuses, refs, spec, rule, group, upto - 1);
        let all = refs_of(statuses, refs, spec, rule, group, upto);
        assert forall|n: int| 0 <= n < all.len() implies {
            let i = #[trigger] all[n] as int;
            &&& 0 <= i < upto
            &&& has_definition(specs, refs[i])
            &&& 0 <= spec < specs.len()
            &&& 0 <= rule < specs[spec].definitions@.len()
            &&& specs[spec].prefix@ == refs[i].prefix@
            &&& specs[spec].definitions@[rule].id.base@ == refs[i].id.base@
            &&& specs[spec].definitions@[rule].id.version == refs[i].id.version
        } by {
            if n < head.len() {
                assert(all[n] == head[n]);
            } else {
                assert(all[n] == upto - 1);
                assert(statuses[upto - 1] == ref_status(specs, refs[upto - 1]));
                lemma_resolved_has_definition(specs, refs[upto - 1]);
            }
        }
    }
}

/// Coverage roll-up for one spec and implementation.
#[derive(Debug, Clone, Copy, PartialEq, Eq, Structural)]
pub struct ImplStatus {
    /// The number of rules.
    pub total_rules: usize,
    /// The number of rules with at least one implementing reference.
    pub covered_rules: usize,
    /// The number of rules with at least one verifying reference.
    pub verified_rules: usize,
}

/// The number of rules among the first `upto` with an implementing
/// reference.
pub open spec fn covered_upto(forward: Seq<RuleCoverage>, upto: int) -> nat
    decreases upto,
{
    if upto <= 0 {
        0
    } else {
        covered_upto(forward, upto - 1) + if forward[upto - 1].impl_refs@.len() > 0 {
            1nat
        } else {
            0nat
        }
    }
}

/// The number of rules among the first `upto` with a verifying reference.
pub open spec fn verified_upto(forward: Seq<RuleCoverage>, upto: int) -> nat
    decreases upto,
{
    if upto <= 0 {
        0
    } else {
        verified_upto(forward, upto - 1) + if forward[upto - 1].verify_refs@.len() > 0 {
            1nat
        } else {
            0nat
        }
    }
}

/// The coverage of one spec and implementation: how many rules there are, how
/// many are covered and how many are verified. Neither count passes the
/// total.
pub fn status(forward: &Vec<RuleCoverage>) -> (status: ImplStatus)
    ensures
        status.total_rules == forward@.len(),
        status.covered_rules == covered_upto(forward@, forward@.len() as int),
        status.verified_rules == verified_upto(forward@, forward@.len() as int),
        status.covered_rules <= status.total_rules,
        status.verified_rules <= status.total_rules,
{
    let mut covered: usize = 0;
    let mut verified: usize = 0;
    let mut i: usize = 0;
    while i < forward.len()
        invariant
            i <= forward@.len(),
            covered == covered_upto(forward@, i as int),
            verified == verified_upto(forward@, i as int),
            covered <= i,
            verified <= i,
        decreases forward@.len() - i,
    {
        if forward[i].impl_refs.len() > 0 {
            covered += 1;
        }
        if forward[i].verify_refs.len() > 0 {
            verified += 1;
        }
        i += 1;
    }
    ImplStatus { total_rules: forward.len(), covered_rules: covered, verified_rules: verified }
}

/// The rules without an implementing reference, by their place, in order.
pub fn uncovered(forward: &Vec<RuleCoverage>) -> (rules: Vec<usize>)
    ensures
        forall|n: int|
            0 <= n < rules@.len() ==> (#[trigger] rules@[n]) < forward@.len()
                && forward@[rules@[n] as int].impl_refs@.len() == 0,
        forall|k: int|
            0 <= k < forward@.len() && forward@[k].impl_refs@.len() == 0 ==> rules@.contains(
                k as usize,
            ),
        forall|m: int, n: int| 0 <= m < n < rules@.len() ==> rules@[m] < rules@[n],
{
    let mut rules: Vec<usize> = Vec::new();
    let mut i: usize = 0;
    while i < forward.len()
        invariant
            i <= forward@.len(),
            forall|n: int|
                0 <= n < rules@.len() ==> (#[trigger] rules@[n]) < i
                    && forward@[rules@[n] as int].impl_refs@.len() == 0,
            forall|k: int|
                0 <= k < i && forward@[k].impl_refs@.len() == 0 ==> rules@.contains(k as usize),
            forall|m: int, n: int| 0 <= m < n < rules@.len() ==> rules@[m] < rules@[n],
        decreases forward@.len() - i,
    {
        if forward[i].impl_refs.len() == 0 {
            let ghost before = rules@;
            rules.push(i);
            assert forall|k: int|
                0 <= k < i + 1 && forward@[k].impl_refs@.len() == 0 implies rules@.contains(
                k as usize,
            ) by {
                if k < i {
                    let n = choose|n: int| 0 <= n < before.len() && before[n] == k as usize;
                    assert(rules@[n] == k as usize);
                } else {
                    assert(rules@[before.len() as int] == k as usize);
                }
            }
        }
        i += 1;
    }
    rules
}

/// The rules without a verifying reference, by their place, in order.
pub fn untested(forward: &Vec<RuleCoverage>) -> (rules: Vec<usize>)
    ensures
        forall|n: int|
            0 <= n < rules@.len() ==> (#[trigger] rules@[n]) < forward@.len()
                && forward@[rules@[n] as int].verify_refs@.len() == 0,
        forall|k: int|
            0 <= k < forward@.len() && forward@[k].verify_refs@.len() == 0 ==> rules@.contains(
                k as usize,
            ),
        forall|m: int, n: int| 0 <= m < n < rules@.len() ==> rules@[m] < rules@[n],
{
    let mut rules: Vec<usize> = Vec::new();
    let mut i: usize = 0;
    while i < forward.len()
        invariant
            i <= forward@.len(),
            forall|n: int|
                0 <= n < rules@.len() ==> (#[trigger] rules@[n]) < i
                    && forward@[rules@[n] as int].verify_refs@.len() == 0,
            forall|k: int|
                0 <= k < i && forward@[k].verify_refs@.len() == 0 ==> rules@.contains(k as usize),
            forall|m: int, n: int| 0 <= m < n < rules@.len() ==> rules@[m] < rules@[n],
        decreases forward@.len() - i,
    {
        if forward[i].verify_refs.len() == 0 {
            let ghost before = rules@;
            rules.push(i);
            assert forall|k: int|
                0 <= k < i + 1 && forward@[k].verify_refs@.len() == 0 implies rules@.contains(
                k as usize,
            ) by {
                if k < i {
                    let n = choose|n: int| 0 <= n < before.len() && before[n] == k as usize;
                    assert(rules@[n] == k as usize);
                } else {
                    assert(rules@[before.len() as int] == k as usize);
                }
            }
        }
        i += 1;
    }
    rules
}

/// The rules that a reference names in an earlier version, by their place,
/// in order.
pub fn stale(forward: &Vec<RuleCoverage>) -> (rules: Vec<usize>)
    ensures
        forall|n: int|
            0 <= n < rules@.len() ==> (#[trigger] rules@[n]) < forward@.len()
                && forward@[rules@[n] as int].stale_refs@.len() > 0,
        forall|k: int|
            0 <= k < forward@.len() && forward@[k].stale_refs@.len() > 0 ==> rules@.contains(
                k as usize,
            ),
        forall|m: int, n: int| 0 <= m < n < rules@.len() ==> rules@[m] < rules@[n],
{
    let mut rules: Vec<usize> = Vec::new();
    let mut i: usize = 0;
    while i < forward.len()
        invariant
            i <= forward@.len(),
            forall|n: int|
                0 <= n < rules@.len() ==> (#[trigger] rules@[n]) < i
                    && forward@[rules@[n] as int].stale_refs@.len() > 0,
            forall|k: int|
                0 <= k < i && forward@[k].stale_refs@.len() > 0 ==> rules@.contains(k as usize),
            forall|m: int, n: int| 0 <= m < n < rules@.len() ==> rules@[m] < rules@[n],
        decreases forward@.len() - i,
    {
        if forward[i].stale_refs.len() > 0 {
            let ghost before = rules@;
            rules.push(i);
            assert forall|k: int|
                0 <= k < i + 1 && forward@[k].stale_refs@.len() > 0 implies rules@.contains(
                k as usize,
            ) by {
                if k < i {
                    let n = choose|n: int| 0 <= n < before.len() && before[n] == k as usize;
                    assert(rules@[n] == k as usize);
                } else {
                    assert(rules@[before.len() as int] == k as usize);
                }
            }
        }
        i += 1;
    }
    rules
}

/// Whether `d` is the finding that shows a configuration error: an error at
/// line 0 of the config file, about no marker.
pub open spec fn is_config_error_report(d: Diagnostic, config_path: Seq<char>, message: Seq<char>) -> bool {
    &&& d.code == DiagnosticCode::ConfigError
    &&& d.severity == Severity::Error
    &&& d.message@ == message
    &&& d.file@ == config_path
    &&& d.line == 0
    &&& d.start == 0
    &&& d.end == 0
    &&& d.prefix@.len() == 0
    &&& d.reference.is_none()
}

/// The finding that shows a configuration error on the config file.
pub fn config_error_diagnostic(config_path: &str, message: &str) -> (d: Diagnostic)
    ensures
        is_config_error_report(d, config_path@, message@),
{
    Diagnostic {
        code: DiagnosticCode::ConfigError,
        severity: Severity::Error,
        message: message.to_owned(),
        file: config_path.to_owned(),
        line: 0,
        start: 0,
        end: 0,
        prefix: String::new(),
        reference: None,
    }
}

/// The rules among the first `upto` of `places` whose id starts with
/// `prefix`.
pub open spec fn with_id_prefix(
    defs: Seq<Definition>,
    places: Seq<usize>,
    prefix: Seq<char>,
    upto: int,
) -> Seq<usize>
    decreases upto,
{
    if upto <= 0 {
        Seq::empty()
    } else {
        let head = with_id_prefix(defs, places, prefix, upto - 1);
        if prefix.is_prefix_of(defs[places[upto - 1] as int].id.base@) {
            head.push(places[upto - 1])
        } else {
            head
        }
    }
}

/// Keeps the rules whose id starts with `prefix`, in their order.
pub fn filter_by_prefix(defs: &Vec<Definition>, places: &Vec<usize>, prefix: &str) -> (kept: Vec<usize>)
    requires
        forall|n: int| 0 <= n < places@.len() ==> (#[trigger] places@[n]) < defs@.len(),
    ensures
        kept@ == with_id_prefix(defs@, places@, prefix@, places@.len() as int),
{
    let wanted = crate::text::chars_of(prefix);
    let mut kept: Vec<usize> = Vec::new();
    let mut n: usize = 0;
    while n < places.len()
        invariant
            n <= places@.len(),
            wanted@ == prefix@,
            forall|k: int| 0 <= k < places@.len() ==> (#[trigger] places@[k]) < defs@.len(),
            kept@ == with_id_prefix(defs@, places@, prefix@, n as int),
        decreases places@.len() - n,
    {
        let place = places[n];
        let base = crate::text::chars_of(defs[place].id.base.as_str());
        if crate::text::starts_with(base.as_slice(), wanted.as_slice()) {
            kept.push(place);
        }
        n += 1;
    }
    kept
}

/// Whether the body of the definition `d` holds the byte at `offset` of
/// `file`: the text that follows its marker.
pub open spec fn body_holds(d: Definition, file: Seq<char>, offset: int) -> bool {
    d.file@ == file && d.end <= offset < d.end + encode_utf8(d.text@).len()
}

/// The place of the first definition from `from` on whose body holds the
/// byte at `offset` of `file`, or -1.
pub open spec fn owner_of(defs: Seq<Definition>, file: Seq<char>, offset: int, from: int) -> int
    decreases defs.len() - from,
{
    if from < 0 || from >= defs.len() {
        -1
    } else if body_holds(defs[from], file, offset) {
        from
    } else {
        owner_of(defs, file, offset, from + 1)
    }
}

/// The dependency that a reference states, if it states one: it says
/// `depends`, it stands in the body of a definition, and it names a rule
/// that is defined.
pub open spec fn edge_of(defs: Seq<Definition>, r: Reference) -> Option<Edge> {
    let owner = owner_of(defs, r.file@, r.start as int, 0);
    let target = definition_of(defs, r.id.base@, 0);
    if r.verb == RefVerb::Depends && owner >= 0 && target >= 0 {
        Some(Edge { from: owner as usize, to: target as usize })
    } else {
        None
    }
}

/// The dependencies that the first `upto` references state, in their order.
pub open spec fn edges_upto(defs: Seq<Definition>, refs: Seq<Reference>, upto: int) -> Seq<Edge>
    decreases upto,
{
    if upto <= 0 {
        Seq::empty()
    } else {
        let head = edges_upto(defs, refs, upto - 1);
        match edge_of(defs, refs[upto - 1]) {
            Some(edge) => head.push(edge),
            None => head,
        }
    }
}

fn find_owner(defs: &Vec<Definition>, file: &str, offset: usize) -> (found: Option<usize>)
    ensures
        match found {
            Some(at) => at == owner_of(defs@, file@, offset as int, 0) && at < defs@.len(),
            None => owner_of(defs@, file@, offset as int, 0) == -1,
        },
{
    let mut i: usize = 0;
    while i < defs.len()
        invariant
            i <= defs@.len(),
            owner_of(defs@, file@, offset as int, 0) == owner_of(defs@, file@, offset as int, i as int),
        decreases defs@.len() - i,
    {
        let d = &defs[i];
        let len = d.text.as_str().as_bytes().len();
        if str_same(d.file.as_str(), file) && d.end <= offset && offset - d.end < len {
            return Some(i);
        }
        i += 1;
    }
    None
}

/// The dependencies among the rules of a spec: one for each `depends`
/// reference that stands in the body of a definition and names a defined
/// rule, from the rule of that definition to the rule named.
pub fn dependency_edges(defs: &Vec<Definition>, refs: &Vec<Reference>) -> (edges: Vec<Edge>)
    ensures
        edges@ == edges_upto(defs@, refs@, refs@.len() as int),
{
    let mut edges: Vec<Edge> = Vec::new();
    let mut i: usize = 0;
    while i < refs.len()
        invariant
            i <= refs@.len(),
            edges@ == edges_upto(defs@, refs@, i as int),
        decreases refs@.len() - i,
    {
        let r = &refs[i];
        let is_depends = match r.verb {
            RefVerb::Depends => true,
            _ => false,
        };
        if is_depends {
            match find_owner(defs, r.file.as_str(), r.start) {
                Some(owner) => match find_definition(defs, r.id.base.as_str()) {
                    Some(target) => {
                        edges.push(Edge { from: owner, to: target });
                    },
                    None => {},
                },
                None => {},
            }
        }
        i += 1;
    }
    edges
}

/// The message of a finding about a rule.
pub open spec fn rule_message(code: DiagnosticCode, d: Definition) -> Seq<char> {
    if code == DiagnosticCode::Cycle {
        "rule `"@ + d.id.rendered() + "` takes part in a cycle of dependencies"@
    } else {
        "rule `"@ + d.id.rendered() + "` is defined more than once"@
    }
}

/// Whether `found` is the finding of kind `code` about the definition `d`.
pub open spec fn reports_rule(found: Diagnostic, code: DiagnosticCode, d: Definition) -> bool {
    &&& found.code == code
    &&& found.severity == Severity::Error
    &&& found.message@ == rule_message(code, d)
    &&& found.file@ == d.file@
    &&& found.line == d.line
    &&& found.start == d.start
    &&& found.end == d.end
    &&& found.prefix@ == d.prefix@
    &&& found.reference.is_none()
}

fn rule_report(code: DiagnosticCode, d: &Definition) -> (found: Diagnostic)
    ensures
        reports_rule(found, code, *d),
{
    let mut out: Vec<char> = Vec::new();
    push_str(&mut out, "rule `");
    quoted_id(&mut out, &d.id);
    match code {
        DiagnosticCode::Cycle => push_str(&mut out, "` takes part in a cycle of dependencies"),
        _ => push_str(&mut out, "` is defined more than once"),
    }
    Diagnostic {
        code,
        severity: Severity::Error,
        message: string_of(out.as_slice()),
        file: d.file.clone(),
        line: d.line,
        start: d.start,
        end: d.end,
        prefix: d.prefix.clone(),
        reference: None,
    }
}

/// The definitions among the first `upto` that are flagged, by their place.
pub open spec fn flagged(flags: Seq<bool>, upto: int) -> Seq<int>
    decreases upto,
{
    if upto <= 0 {
        Seq::empty()
    } else if upto <= flags.len() && flags[upto - 1] {
        flagged(flags, upto - 1).push(upto - 1)
    } else {
        flagged(flags, upto - 1)
    }
}

/// Whether `found` holds one finding of kind `code` for each of the
/// definitions at `places`, in their order.
pub open spec fn are_rule_reports(
    found: Seq<Diagnostic>,
    code: DiagnosticCode,
    defs: Seq<Definition>,
    places: Seq<int>,
) -> bool {
    &&& found.len() == places.len()
    &&& forall|n: int| 0 <= n < found.len() ==> #[trigger] is_nth_rule_report(found, code, defs, places, n)
}

/// Whether the `n`-th of `found` is the finding about the definition at the
/// `n`-th of `places`.
pub open spec fn is_nth_rule_report(
    found: Seq<Diagnostic>,
    code: DiagnosticCode,
    defs: Seq<Definition>,
    places: Seq<int>,
    n: int,
) -> bool {
    0 <= places[n] < defs.len() && reports_rule(found[n], code, defs[places[n]])
}

fn reports_for_flagged(code: DiagnosticCode, defs: &Vec<Definition>, flags: &Vec<bool>) -> (found: Vec<
    Diagnostic,
>)
    ensures
        are_rule_reports(found@, code, defs@, flagged(flags@, defs@.len() as int)),
{
    let mut found: Vec<Diagnostic> = Vec::new();
    let mut i: usize = 0;
    while i < defs.len()
        invariant
            i <= defs@.len(),
            are_rule_reports(found@, code, defs@, flagged(flags@, i as int)),
        decreases defs@.len() - i,
    {
        let ghost before = found@;
        let ghost places = flagged(flags@, i as int);
        if i < flags.len() && flags[i] {
            found.push(rule_report(code, &defs[i]));
        }
        proof {
            let next = flagged(flags@, i + 1);
            assert forall|n: int| 0 <= n < found@.len() implies #[trigger] is_nth_rule_report(
                found@,
                code,
                defs@,
                next,
                n,
            ) by {
                if n < before.len() {
                    assert(is_nth_rule_report(before, code, defs@, places, n));
                    assert(found@[n] == before[n]);
                    assert(next[n] == places[n]);
                }
            }
        }
        i += 1;
    }
    found
}

/// The findings about cycles: one for each rule that lies on a cycle of
/// dependencies or leads into one, in document order. `entangled` holds one
/// flag for each definition.
pub fn cycle_diagnostics(defs: &Vec<Definition>, entangled: &Vec<bool>) -> (found: Vec<Diagnostic>)
    ensures
        are_rule_reports(found@, DiagnosticCode::Cycle, defs@, flagged(entangled@, defs@.len() as int)),
{
    reports_for_flagged(DiagnosticCode::Cycle, defs, entangled)
}

/// The findings about repeated definitions: one for each definition that
/// `repeated` flags, in document order.
pub fn duplicate_diagnostics(defs: &Vec<Definition>, repeated: &Vec<bool>) -> (found: Vec<Diagnostic>)
    ensures
        are_rule_reports(
            found@,
            DiagnosticCode::DuplicateDefinition,
            defs@,
            flagged(repeated@, defs@.len() as int),
        ),
{
    reports_for_flagged(DiagnosticCode::DuplicateDefinition, defs, repeated)
}

} // verus!
