//! The state of a workspace after one build: what the files of each spec and
//! each implementation hold, what became of every reference, the findings,
//! and the two coverage views with their content hash.

use vstd::prelude::*;
use vstd::utf8::encode_utf8;
use crate::config::{strs, Config, Impl, SpecConfig};
use crate::cycles::{entangled_rules, is_entangled};
use crate::index::{
    has_definition, is_nth_report, law_reference_resolves_or_is_reported,
    config_error_diagnostic, is_config_error_report,
    are_reports, are_rule_reports, build_forward, classify_all, covered_upto, cycle_diagnostics,
    dependency_edges, duplicate_diagnostics, edges_upto, flagged, is_coverage_of, ref_status,
    reported, status, verified_upto, workspace_diagnostics, Definition, Diagnostic,
    DiagnosticCode, ImplStatus, RefStatus, Reference, ResolvedSpec, RuleCoverage,
};
use crate::dashboard::{
    build_reverse, content_hash, content_hash_of, covered_units_of, has_entry_of, opt_view,
    summarizes_one, ApiReverseData,
    distinct_unit_paths, line_count, rendered_ids, total_units_of, whole_file_unit, FileUnits,
    build_spec_forward, comes_from, has_forward_of, is_info_of, is_nth_source_ref, rule_infos,
    sorted_by_key, source_refs, with_prefix, ApiForwardData, ApiSpecForward, RuleInfo, SourceRef,
};
use crate::marker::{markers_from, RuleId};
use crate::source::{are_source_refs, is_source_ref, scan_source_file, source_eligibility};
use crate::spec_loader::{
    config_error,
    copy_definition, deprecated_prefix_text, first_other_prefix, first_with_prefix, infer_prefix,
    duplicate_flags, is_scan_of, is_spec_path, merge_definitions, merged, repeats_earlier,
    scan_spec_file, SpecFile,
};
use crate::text::str_same;
use crate::watcher::{any_hit, is_selected, matches_any, verdicts_for};

verus! {

/// A file of the workspace: its path below the project root, and its text.
#[derive(Debug, Clone)]
pub struct SourceFile {
    pub path: String,
    pub text: String,
}

/// Whether no path occurs twice among `files`.
pub open spec fn distinct_paths(files: Seq<SourceFile>) -> bool {
    forall|a: int, b: int|
        0 <= a < b < files.len() ==> (#[trigger] files[a]).path@ != (#[trigger] files[b]).path@
}

/// What the files of one configured spec hold.
#[derive(Debug)]
pub struct SpecScan {
    /// Every definition, file after file.
    pub found: Vec<Definition>,
    /// Every marker in the spec's files that is no definition.
    pub links: Vec<Reference>,
    /// The rules that stand for the spec: of each base the latest version.
    pub definitions: Vec<Definition>,
    /// A finding for each definition that repeats an earlier one.
    pub duplicates: Vec<Diagnostic>,
    /// A finding for each rule whose dependencies lead back to it.
    pub cycles: Vec<Diagnostic>,
}

/// Whether `path` names a Markdown file of the spec with these globs.
pub open spec fn names_spec_file(path: Seq<char>, includes: Seq<Seq<char>>) -> bool {
    ".md"@.is_suffix_of(path) && any_hit(verdicts_for(includes, path))
}

/// Whether `part` is what `file` gives to a spec with these globs: the scan
/// of its text where the globs name it, and nothing where they do not.
pub open spec fn is_spec_part(part: SpecFile, file: SourceFile, includes: Seq<Seq<char>>) -> bool {
    if names_spec_file(file.path@, includes) {
        exists|code: Seq<bool>, fence: Seq<bool>| #[trigger]
            is_scan_of(part, file.path@, encode_utf8(file.text@), code, fence)
    } else {
        part.definitions@.len() == 0 && part.references@.len() == 0
    }
}

/// Whether `parts` holds, for each of `files` in turn, what it gives to a
/// spec with these globs.
pub open spec fn are_spec_parts(
    parts: Seq<SpecFile>,
    files: Seq<SourceFile>,
    includes: Seq<Seq<char>>,
) -> bool {
    &&& parts.len() == files.len()
    &&& forall|k: int| 0 <= k < parts.len() ==> is_spec_part(#[trigger] parts[k], files[k], includes)
}

/// The definitions of all `parts`, in their order.
pub open spec fn definitions_in(parts: Seq<SpecFile>) -> Seq<Definition>
    decreases parts.len(),
{
    if parts.len() == 0 {
        Seq::empty()
    } else {
        definitions_in(parts.drop_last()) + parts.last().definitions@
    }
}

/// The references of all `parts`, in their order.
pub open spec fn references_in(parts: Seq<SpecFile>) -> Seq<Reference>
    decreases parts.len(),
{
    if parts.len() == 0 {
        Seq::empty()
    } else {
        references_in(parts.drop_last()) + parts.last().references@
    }
}

/// Whether `scan` is what `files` hold for a spec with these globs: the
/// definitions and references of the files that the globs name, in the order
/// of the files; of each rule the latest version; a duplicate finding for
/// each definition that repeats an earlier one; and a cycle finding for each
/// rule that depends on itself by way of the references in the spec's text.
pub open spec fn is_spec_scan(scan: SpecScan, files: Seq<SourceFile>, includes: Seq<Seq<char>>) -> bool {
    &&& exists|parts: Seq<SpecFile>| #[trigger]
        are_spec_parts(parts, files, includes) && scan.found@ == definitions_in(parts) && scan.links@
            == references_in(parts)
    &&& scan.definitions@ == merged(scan.found@, scan.found@.len() as int)
    &&& are_rule_reports(
        scan.duplicates@,
        DiagnosticCode::DuplicateDefinition,
        scan.found@,
        flagged(
            Seq::new(scan.found@.len(), |j: int| repeats_earlier(scan.found@, j)),
            scan.found@.len() as int,
        ),
    )
    &&& are_rule_reports(
        scan.cycles@,
        DiagnosticCode::Cycle,
        scan.definitions@,
        flagged(
            Seq::new(
                scan.definitions@.len(),
                |v: int|
                    is_entangled(
                        edges_upto(scan.definitions@, scan.links@, scan.links@.len() as int),
                        scan.definitions@.len() as int,
                        v,
                    ),
            ),
            scan.definitions@.len() as int,
        ),
    )
}

/// Reads one spec out of `files`.
pub fn scan_spec(files: &Vec<SourceFile>, includes: &Vec<String>) -> (scan: SpecScan)
    ensures
        is_spec_scan(scan, files@, strs(includes@)),
{
    let mut found: Vec<Definition> = Vec::new();
    let mut links: Vec<Reference> = Vec::new();
    let ghost mut parts: Seq<SpecFile> = Seq::empty();
    let mut i: usize = 0;
    while i < files.len()
        invariant
            i <= files@.len(),
            are_spec_parts(parts, files@.subrange(0, i as int), strs(includes@)),
            found@ == definitions_in(parts),
            links@ == references_in(parts),
        decreases files@.len() - i,
    {
        let file = &files[i];
        let mut part = if is_spec_path(file.path.as_str(), includes) {
            scan_spec_file(file.path.as_str(), file.text.as_str())
        } else {
            SpecFile { definitions: Vec::new(), references: Vec::new() }
        };
        proof {
            let longer = parts.push(part);
            assert(longer.drop_last() == parts);
            assert(is_spec_part(part, files@[i as int], strs(includes@)));
            assert(files@.subrange(0, i + 1) == files@.subrange(0, i as int).push(files@[i as int]));
            assert forall|k: int| 0 <= k < longer.len() implies is_spec_part(
                #[trigger] longer[k],
                files@.subrange(0, i + 1)[k],
                strs(includes@),
            ) by {
                if k < parts.len() {
                    assert(longer[k] == parts[k]);
                    assert(files@.subrange(0, i + 1)[k] == files@.subrange(0, i as int)[k]);
                }
            }
            parts = longer;
        }
        found.append(&mut part.definitions);
        links.append(&mut part.references);
        i += 1;
    }
    assert(files@.subrange(0, i as int) == files@);
    let definitions = merge_definitions(&found);
    let repeated = duplicate_flags(&found);
    let duplicates = duplicate_diagnostics(&found, &repeated);
    let edges = dependency_edges(&definitions, &links);
    let entangled = entangled_rules(definitions.len(), &edges);
    let cycles = cycle_diagnostics(&definitions, &entangled);
    assert(repeated@ == Seq::new(found@.len(), |j: int| repeats_earlier(found@, j)));
    assert(entangled@ == Seq::new(
        definitions@.len(),
        |v: int|
            is_entangled(
                edges_upto(definitions@, links@, links@.len() as int),
                definitions@.len() as int,
                v,
            ),
    ));
    SpecScan { found, links, definitions, duplicates, cycles }
}

/// Whether the globs of `target` choose `path`: one that includes matches it,
/// and none that excludes.
pub open spec fn is_chosen(path: Seq<char>, target: Impl) -> bool {
    any_hit(verdicts_for(strs(target.includes@), path)) && !any_hit(
        verdicts_for(strs(target.exclude@), path),
    )
}

/// Whether `part` is what `file` gives to `target`: its references where
/// the globs choose it, and nothing where they do not.
pub open spec fn is_source_part(part: Seq<Reference>, file: SourceFile, target: Impl) -> bool {
    if is_chosen(file.path@, target) {
        is_file_scan(part, file)
    } else {
        part.len() == 0
    }
}

/// Whether `refs` holds the references of `file`, read as source text.
pub open spec fn is_file_scan(refs: Seq<Reference>, file: SourceFile) -> bool {
    are_source_refs(
        refs,
        file.path@,
        encode_utf8(file.text@),
        markers_from(encode_utf8(file.text@), source_eligibility(encode_utf8(file.text@)), 0),
    )
}

/// Whether `parts` holds, for each of `files` in turn, what it gives to
/// `target`.
pub open spec fn are_source_parts(
    parts: Seq<Seq<Reference>>,
    files: Seq<SourceFile>,
    target: Impl,
) -> bool {
    &&& parts.len() == files.len()
    &&& forall|k: int| 0 <= k < parts.len() ==> is_source_part(#[trigger] parts[k], files[k], target)
}

/// All `parts`, one after the other.
pub open spec fn joined_parts<T>(parts: Seq<Seq<T>>) -> Seq<T>
    decreases parts.len(),
{
    if parts.len() == 0 {
        Seq::empty()
    } else {
        joined_parts(parts.drop_last()) + parts.last()
    }
}

/// Whether a file at `path` is a test file of `target`.
pub open spec fn is_test_file(path: Seq<char>, target: Impl) -> bool {
    any_hit(verdicts_for(strs(target.test_include@), path))
}

/// The references of one implementation and what became of them.
#[derive(Debug)]
pub struct ImplData {
    /// The place of the spec among the resolved specs.
    pub spec: usize,
    pub name: String,
    /// The references in the files that the implementation's globs choose.
    pub refs: Vec<Reference>,
    /// For each reference, whether it stands in a test file.
    pub flags: Vec<bool>,
    /// For each reference, what it leads to.
    pub statuses: Vec<RefStatus>,
    /// For each rule of the spec, the references that lead to it.
    pub forward: Vec<RuleCoverage>,
    pub status: ImplStatus,
    /// The findings about the references.
    pub problems: Vec<Diagnostic>,
}

/// Whether `data` is what `files` hold for `target`, an implementation of
/// the spec at `spec` among `specs`.
pub open spec fn is_impl_data(
    data: ImplData,
    specs: Seq<ResolvedSpec>,
    spec: int,
    target: Impl,
    files: Seq<SourceFile>,
) -> bool {
    &&& data.spec == spec
    &&& data.name@ == target.name@
    &&& exists|parts: Seq<Seq<Reference>>| #[trigger]
        are_source_parts(parts, files, target) && data.refs@ == joined_parts(parts)
    &&& data.flags@.len() == data.refs@.len()
    &&& forall|i: int|
        0 <= i < data.refs@.len() ==> #[trigger] data.flags@[i] == is_test_file(data.refs@[i].file@, target)
    &&& data.statuses@.len() == data.refs@.len()
    &&& forall|i: int|
        0 <= i < data.refs@.len() ==> #[trigger] data.statuses@[i] == ref_status(specs, data.refs@[i])
    &&& 0 <= spec < specs.len()
    &&& data.forward@.len() == specs[spec].definitions@.len()
    &&& forall|k: int|
        0 <= k < data.forward@.len() ==> is_coverage_of(
            #[trigger] data.forward@[k],
            data.statuses@,
            data.refs@,
            spec,
            k,
        )
    &&& data.status.total_rules == data.forward@.len()
    &&& data.status.covered_rules == covered_upto(data.forward@, data.forward@.len() as int)
    &&& data.status.verified_rules == verified_upto(data.forward@, data.forward@.len() as int)
    &&& are_reports(
        data.problems@,
        reported(specs, data.refs@, data.flags@, None, data.refs@.len() as int),
        specs,
        data.refs@,
        data.flags@,
        None,
    )
}

/// Reads one implementation out of `files` and holds its references against
/// `specs`.
pub fn build_impl(specs: &Vec<ResolvedSpec>, spec: usize, target: &Impl, files: &Vec<SourceFile>) -> (data:
    ImplData)
    requires
        spec < specs@.len(),
    ensures
        is_impl_data(data, specs@, spec as int, *target, files@),
{
    let mut refs: Vec<Reference> = Vec::new();
    let mut flags: Vec<bool> = Vec::new();
    let ghost mut parts: Seq<Seq<Reference>> = Seq::empty();
    let mut i: usize = 0;
    while i < files.len()
        invariant
            i <= files@.len(),
            are_source_parts(parts, files@.subrange(0, i as int), *target),
            refs@ == joined_parts(parts),
            flags@.len() == refs@.len(),
            forall|n: int| 0 <= n < refs@.len() ==> #[trigger] flags@[n] == is_test_file(refs@[n].file@, *target),
        decreases files@.len() - i,
    {
        let file = &files[i];
        let mut part: Vec<Reference> = Vec::new();
        if is_selected(file.path.as_str(), &target.includes, &target.exclude) {
            part = scan_source_file(file.path.as_str(), file.text.as_str());
            let in_test_file = matches_any(&target.test_include, file.path.as_str());
            let mut n: usize = 0;
            while n < part.len()
                invariant
                    n <= part@.len(),
                    flags@.len() == refs@.len() + n,
                    in_test_file == is_test_file(file.path@, *target),
                    forall|m: int|
                        0 <= m < refs@.len() ==> #[trigger] flags@[m] == is_test_file(refs@[m].file@, *target),
                    forall|m: int| refs@.len() <= m < flags@.len() ==> #[trigger] flags@[m] == in_test_file,
                decreases part@.len() - n,
            {
                flags.push(in_test_file);
                n += 1;
            }
        }
        proof {
            let longer = parts.push(part@);
            assert(longer.drop_last() == parts);
            assert(is_source_part(part@, files@[i as int], *target));
            assert forall|k: int| 0 <= k < longer.len() implies is_source_part(
                #[trigger] longer[k],
                files@.subrange(0, i + 1)[k],
                *target,
            ) by {
                if k < parts.len() {
                    assert(longer[k] == parts[k]);
                    assert(files@.subrange(0, i + 1)[k] == files@.subrange(0, i as int)[k]);
                }
            }
            assert forall|m: int| 0 <= m < part@.len() implies (#[trigger] part@[m]).file@
                == file.path@ by {
                assert(is_source_ref(
                    part@[m],
                    file.path@,
                    encode_utf8(file.text@),
                    markers_from(encode_utf8(file.text@), source_eligibility(encode_utf8(file.text@)), 0)[m],
                ));
            }
            parts = longer;
        }
        refs.append(&mut part);
        i += 1;
    }
    assert(files@.subrange(0, i as int) == files@);
    let statuses = classify_all(specs, &refs);
    let forward = build_forward(specs, spec, &statuses, &refs);
    let problems = workspace_diagnostics(specs, &refs, &flags);
    let name = target.name.clone();
    ImplData { spec, name, status: status(&forward), forward, refs, flags, statuses, problems }
}

/// Whether all of `defs` use one prefix, and there is at least one.
pub open spec fn has_one_prefix(defs: Seq<Definition>) -> bool {
    defs.len() > 0 && first_other_prefix(defs, defs[0].prefix@, 0) == defs.len()
}

/// What is said of a spec named `name` whose definitions `defs` do not give
/// it one prefix.
pub open spec fn prefix_problem_text(name: Seq<char>, defs: Seq<Definition>) -> Seq<char> {
    if defs.len() == 0 {
        "spec `"@ + name + "` defines no rule"@
    } else {
        "spec `"@ + name + "` uses more than one prefix: `"@ + defs[0].prefix@ + "` and `"@
            + defs[first_other_prefix(defs, defs[0].prefix@, 0)].prefix@ + "`"@
    }
}

/// The index of the first of `previous` from `from` on that is named `name`,
/// or their number.
pub open spec fn first_named(previous: Seq<ResolvedSpec>, name: Seq<char>, from: int) -> int
    decreases previous.len() - from,
{
    if from < 0 || from >= previous.len() {
        previous.len() as int
    } else if previous[from].name@ == name {
        from
    } else {
        first_named(previous, name, from + 1)
    }
}

/// Whether a spec named `name` with the definitions `defs` has data after a
/// build: its definitions give it a prefix, or the build before has left a
/// spec of that name.
pub open spec fn resolves(defs: Seq<Definition>, name: Seq<char>, previous: Seq<ResolvedSpec>) -> bool {
    has_one_prefix(defs) || first_named(previous, name, 0) < previous.len()
}

/// Whether `r` is the data of the spec named `name` with the definitions
/// `defs`: these definitions under their prefix or, where they have not one
/// prefix, what the build before has left under that name.
pub open spec fn is_resolved(
    r: ResolvedSpec,
    defs: Seq<Definition>,
    name: Seq<char>,
    previous: Seq<ResolvedSpec>,
) -> bool {
    &&& r.name@ == name
    &&& if has_one_prefix(defs) {
        r.prefix@ == defs[0].prefix@ && r.definitions@ == defs
    } else {
        let at = first_named(previous, name, 0);
        at < previous.len() && r.prefix@ == previous[at].prefix@ && r.definitions@
            == previous[at].definitions@
    }
}

fn copy_definitions(defs: &Vec<Definition>) -> (copy: Vec<Definition>)
    ensures
        copy@ == defs@,
{
    let mut out: Vec<Definition> = Vec::new();
    let mut i: usize = 0;
    while i < defs.len()
        invariant
            i <= defs@.len(),
            out@ == defs@.subrange(0, i as int),
        decreases defs@.len() - i,
    {
        out.push(copy_definition(&defs[i]));
        assert(defs@.subrange(0, i + 1) == defs@.subrange(0, i as int).push(defs@[i as int]));
        i += 1;
    }
    assert(defs@.subrange(0, i as int) == defs@);
    out
}

fn find_named(previous: &Vec<ResolvedSpec>, name: &str) -> (at: usize)
    ensures
        at == first_named(previous@, name@, 0),
        at <= previous@.len(),
{
    let mut i: usize = 0;
    while i < previous.len()
        invariant
            i <= previous@.len(),
            first_named(previous@, name@, 0) == first_named(previous@, name@, i as int),
        decreases previous@.len() - i,
    {
        if str_same(previous[i].name.as_str(), name) {
            return i;
        }
        i += 1;
    }
    i
}

/// Resolves one spec: gives its data, if it has any after this build, and
/// the configuration error that it makes, if it makes one.
pub fn resolve_spec(name: &str, definitions: &Vec<Definition>, previous: &Vec<ResolvedSpec>) -> (r: (
    Option<ResolvedSpec>,
    Option<String>,
))
    ensures
        r.0.is_some() == resolves(definitions@, name@, previous@),
        r.0.is_some() ==> is_resolved(r.0.unwrap(), definitions@, name@, previous@),
        r.1.is_some() == !has_one_prefix(definitions@),
        r.1.is_some() ==> r.1.unwrap()@ == prefix_problem_text(name@, definitions@),
{
    match infer_prefix(definitions) {
        Ok(prefix) => {
            let spec = ResolvedSpec {
                name: name.to_owned(),
                prefix,
                definitions: copy_definitions(definitions),
            };
            (Some(spec), None)
        },
        Err(problem) => {
            let text = problem.message(name);
            let at = find_named(previous, name);
            if at < previous.len() {
                let spec = ResolvedSpec {
                    name: name.to_owned(),
                    prefix: previous[at].prefix.clone(),
                    definitions: copy_definitions(&previous[at].definitions),
                };
                (Some(spec), Some(text))
            } else {
                (None, Some(text))
            }
        },
    }
}

/// The places, among the first `upto` configured specs, of those that have
/// data after the build.
pub open spec fn resolved_places(
    configs: Seq<SpecConfig>,
    scans: Seq<SpecScan>,
    previous: Seq<ResolvedSpec>,
    upto: int,
) -> Seq<int>
    decreases upto,
{
    if upto <= 0 {
        Seq::empty()
    } else if upto <= configs.len() && upto <= scans.len() && resolves(
        scans[upto - 1].definitions@,
        configs[upto - 1].name@,
        previous,
    ) {
        resolved_places(configs, scans, previous, upto - 1).push(upto - 1)
    } else {
        resolved_places(configs, scans, previous, upto - 1)
    }
}

/// The index of the first of `scans` from `from` on whose definitions have
/// not one prefix, or their number.
pub open spec fn first_without_prefix(scans: Seq<SpecScan>, from: int) -> int
    decreases scans.len() - from,
{
    if from < 0 || from >= scans.len() {
        scans.len() as int
    } else if !has_one_prefix(scans[from].definitions@) {
        from
    } else {
        first_without_prefix(scans, from + 1)
    }
}

/// The error of a build: that the configuration could not be read; else the
/// first spec that still sets a prefix; else the first spec whose
/// definitions do not give it one prefix.
pub open spec fn build_error(
    load_error: Option<Seq<char>>,
    configs: Seq<SpecConfig>,
    scans: Seq<SpecScan>,
) -> Option<Seq<char>> {
    if load_error.is_some() {
        load_error
    } else if first_with_prefix(configs, 0) != -1 {
        let at = first_with_prefix(configs, 0);
        Some(deprecated_prefix_text(configs[at].name@, configs[at].prefix.unwrap()@))
    } else if first_without_prefix(scans, 0) < scans.len() && first_without_prefix(scans, 0)
        < configs.len() {
        let at = first_without_prefix(scans, 0);
        Some(prefix_problem_text(configs[at].name@, scans[at].definitions@))
    } else {
        None
    }
}

/// Whether `specs` holds the data of the configured specs that have any,
/// in the order of the configuration, and `places` the place of each in the
/// configuration.
pub open spec fn is_resolution(
    specs: Seq<ResolvedSpec>,
    places: Seq<usize>,
    configs: Seq<SpecConfig>,
    scans: Seq<SpecScan>,
    previous: Seq<ResolvedSpec>,
) -> bool {
    let expected = resolved_places(configs, scans, previous, configs.len() as int);
    &&& scans.len() == configs.len()
    &&& specs.len() == expected.len()
    &&& places.len() == expected.len()
    &&& forall|j: int| 0 <= j < expected.len() ==> #[trigger] is_nth_resolved(specs, places, configs, scans, previous, expected, j)
}

/// Whether the `j`-th of `specs` is the data of the spec at the `j`-th of
/// `expected`, and the `j`-th of `places` that place.
pub open spec fn is_nth_resolved(
    specs: Seq<ResolvedSpec>,
    places: Seq<usize>,
    configs: Seq<SpecConfig>,
    scans: Seq<SpecScan>,
    previous: Seq<ResolvedSpec>,
    expected: Seq<int>,
    j: int,
) -> bool {
    &&& 0 <= j < specs.len()
    &&& j < places.len()
    &&& j < expected.len()
    &&& places[j] == expected[j]
    &&& 0 <= expected[j] < configs.len()
    &&& expected[j] < scans.len()
    &&& j > 0 ==> expected[j - 1] < expected[j]
    &&& is_resolved(specs[j], scans[expected[j]].definitions@, configs[expected[j]].name@, previous)
}

/// The specs that have data after a build, the place of each in the
/// configuration, and the first error that a spec without one prefix makes.
pub fn resolve(config: &Config, scans: &Vec<SpecScan>, previous: &Vec<ResolvedSpec>) -> (r: (
    Vec<ResolvedSpec>,
    Vec<usize>,
    Option<String>,
))
    requires
        scans@.len() == config.specs@.len(),
    ensures
        is_resolution(r.0@, r.1@, config.specs@, scans@, previous@),
        r.2.is_some() == (first_without_prefix(scans@, 0) < scans@.len()),
        r.2.is_some() ==> r.2.unwrap()@ == prefix_problem_text(
            config.specs@[first_without_prefix(scans@, 0)].name@,
            scans@[first_without_prefix(scans@, 0)].definitions@,
        ),
{
    let mut specs: Vec<ResolvedSpec> = Vec::new();
    let mut places: Vec<usize> = Vec::new();
    let mut error: Option<String> = None;
    let mut i: usize = 0;
    while i < config.specs.len()
        invariant
            i <= config.specs@.len(),
            scans@.len() == config.specs@.len(),
            specs@.len() == resolved_places(config.specs@, scans@, previous@, i as int).len(),
            places@.len() == specs@.len(),
            forall|j: int|
                0 <= j < specs@.len() ==> #[trigger] is_nth_resolved(
                    specs@,
                    places@,
                    config.specs@,
                    scans@,
                    previous@,
                    resolved_places(config.specs@, scans@, previous@, i as int),
                    j,
                ),
            forall|j: int| 0 <= j < places@.len() ==> (#[trigger] places@[j]) < i,
            error.is_none() ==> first_without_prefix(scans@, 0) == first_without_prefix(scans@, i as int),
            error.is_some() ==> first_without_prefix(scans@, 0) < i,
            error.is_some() ==> error.unwrap()@ == prefix_problem_text(
                config.specs@[first_without_prefix(scans@, 0)].name@,
                scans@[first_without_prefix(scans@, 0)].definitions@,
            ),
        decreases config.specs@.len() - i,
    {
        let ghost before = resolved_places(config.specs@, scans@, previous@, i as int);
        let ghost after = resolved_places(config.specs@, scans@, previous@, i + 1);
        let ghost old_specs = specs@;
        let ghost old_places = places@;
        let (spec, problem) = resolve_spec(config.specs[i].name.as_str(), &scans[i].definitions, previous);
        if error.is_none() {
            error = problem;
        }
        match spec {
            Some(spec) => {
                specs.push(spec);
                places.push(i);
                assert(after == before.push(i as int));
                assert forall|j: int| 0 <= j < specs@.len() implies #[trigger] is_nth_resolved(
                    specs@,
                    places@,
                    config.specs@,
                    scans@,
                    previous@,
                    after,
                    j,
                ) by {
                    if j < old_specs.len() {
                        assert(is_nth_resolved(
                            old_specs,
                            old_places,
                            config.specs@,
                            scans@,
                            previous@,
                            before,
                            j,
                        ));
                    } else if j > 0 {
                        assert(is_nth_resolved(
                            old_specs,
                            old_places,
                            config.specs@,
                            scans@,
                            previous@,
                            before,
                            j - 1,
                        ));
                        assert(old_places[j - 1] < i);
                    }
                }
            },
            None => {
                assert(after == before);
            },
        }
        i += 1;
    }
    (specs, places, error)
}

/// The number of implementations that the specs at the first `upto` of
/// `places` have.
pub open spec fn impls_before(configs: Seq<SpecConfig>, places: Seq<usize>, upto: int) -> int
    decreases upto,
{
    if upto <= 0 {
        0
    } else if upto <= places.len() && places[upto - 1] < configs.len() {
        impls_before(configs, places, upto - 1) + configs[places[upto - 1] as int].impls@.len()
    } else {
        impls_before(configs, places, upto - 1)
    }
}

/// Whether `impls` holds, at its place, the data of implementation `t` of
/// the spec at the `j`-th of `places`.
pub open spec fn is_impl_at(
    impls: Seq<ImplData>,
    specs: Seq<ResolvedSpec>,
    places: Seq<usize>,
    configs: Seq<SpecConfig>,
    files: Seq<SourceFile>,
    j: int,
    t: int,
) -> bool {
    let at = impls_before(configs, places, j) + t;
    &&& 0 <= at < impls.len()
    &&& is_impl_data(impls[at], specs, j, configs[places[j] as int].impls@[t], files)
}

/// Whether `impls` holds the data of every implementation of the specs at
/// `places`: spec after spec, and for each spec in the order of its
/// configuration.
pub open spec fn are_impls(
    impls: Seq<ImplData>,
    specs: Seq<ResolvedSpec>,
    places: Seq<usize>,
    configs: Seq<SpecConfig>,
    files: Seq<SourceFile>,
) -> bool {
    &&& impls.len() == impls_before(configs, places, places.len() as int)
    &&& forall|j: int, t: int|
        0 <= j < places.len() && 0 <= t < configs[places[j] as int].impls@.len() ==> #[trigger] is_impl_at(
            impls,
            specs,
            places,
            configs,
            files,
            j,
            t,
        )
}

/// Reads every implementation of the specs at `places` out of `files`.
pub fn build_impls(
    config: &Config,
    specs: &Vec<ResolvedSpec>,
    places: &Vec<usize>,
    files: &Vec<SourceFile>,
) -> (impls: Vec<ImplData>)
    requires
        specs@.len() == places@.len(),
        forall|j: int| 0 <= j < places@.len() ==> (#[trigger] places@[j]) < config.specs@.len(),
    ensures
        are_impls(impls@, specs@, places@, config.specs@, files@),
{
    let mut impls: Vec<ImplData> = Vec::new();
    let mut j: usize = 0;
    while j < places.len()
        invariant
            j <= places@.len(),
            specs@.len() == places@.len(),
            forall|n: int| 0 <= n < places@.len() ==> (#[trigger] places@[n]) < config.specs@.len(),
            impls@.len() == impls_before(config.specs@, places@, j as int),
            forall|a: int, b: int|
                0 <= a < j && 0 <= b < config.specs@[places@[a] as int].impls@.len() ==> #[trigger] is_impl_at(
                    impls@,
                    specs@,
                    places@,
                    config.specs@,
                    files@,
                    a,
                    b,
                ),
        decreases places@.len() - j,
    {
        let targets = &config.specs[places[j]].impls;
        let mut t: usize = 0;
        while t < targets.len()
            invariant
                j < places@.len(),
                t <= targets@.len(),
                specs@.len() == places@.len(),
                places@[j as int] < config.specs@.len(),
                targets@ == config.specs@[places@[j as int] as int].impls@,
                impls@.len() == impls_before(config.specs@, places@, j as int) + t,
                forall|a: int, b: int|
                    0 <= a < j && 0 <= b < config.specs@[places@[a] as int].impls@.len() ==> #[trigger] is_impl_at(
                        impls@,
                        specs@,
                        places@,
                        config.specs@,
                        files@,
                        a,
                        b,
                    ),
                forall|b: int|
                    0 <= b < t ==> #[trigger] is_impl_at(
                        impls@,
                        specs@,
                        places@,
                        config.specs@,
                        files@,
                        j as int,
                        b,
                    ),
            decreases targets@.len() - t,
        {
            let ghost before = impls@;
            let data = build_impl(specs, j, &targets[t], files);
            impls.push(data);
            assert forall|a: int, b: int|
                0 <= a < j && 0 <= b < config.specs@[places@[a] as int].impls@.len() implies #[trigger] is_impl_at(
                impls@,
                specs@,
                places@,
                config.specs@,
                files@,
                a,
                b,
            ) by {
                assert(is_impl_at(before, specs@, places@, config.specs@, files@, a, b));
            }
            assert forall|b: int| 0 <= b < t + 1 implies #[trigger] is_impl_at(
                impls@,
                specs@,
                places@,
                config.specs@,
                files@,
                j as int,
                b,
            ) by {
                if b < t {
                    assert(is_impl_at(before, specs@, places@, config.specs@, files@, j as int, b));
                }
            }
            t += 1;
        }
        j += 1;
    }
    impls
}

proof fn lemma_impls_before_grows(configs: Seq<SpecConfig>, places: Seq<usize>, a: int, b: int)
    requires
        a <= b,
    ensures
        0 <= impls_before(configs, places, a) <= impls_before(configs, places, b),
    decreases b,
{
    if b > 0 {
        if a < b {
            lemma_impls_before_grows(configs, places, a, b - 1);
        } else {
            lemma_impls_before_grows(configs, places, a - 1, b - 1);
        }
    }
}

/// Whether `found` holds, of `refs`, those that carry `prefix`, as the
/// dashboard keeps them and in their order.
pub open spec fn are_spec_refs(found: Seq<SourceRef>, refs: Seq<Reference>, prefix: Seq<char>) -> bool {
    &&& found.len() == with_prefix(refs, prefix, refs.len() as int).len()
    &&& forall|n: int|
        0 <= n < found.len() ==> #[trigger] is_nth_source_ref(
            found,
            refs,
            with_prefix(refs, prefix, refs.len() as int),
            n,
        )
}

/// Whether `manifest` says of each of `defs`, in their order, what the
/// dashboard shows of a rule.
pub open spec fn is_manifest_of(manifest: Seq<RuleInfo>, defs: Seq<Definition>) -> bool {
    &&& manifest.len() == defs.len()
    &&& forall|k: int| 0 <= k < defs.len() ==> is_info_of(#[trigger] manifest[k], defs[k])
}

/// Whether `forward` is the forward view of a spec named `name` with this
/// manifest and these references: one rule for each entry of the manifest,
/// with the references to it, sorted by the rule's id.
pub open spec fn is_forward_from(
    forward: ApiSpecForward,
    name: Seq<char>,
    manifest: Seq<RuleInfo>,
    refs: Seq<SourceRef>,
    root: Seq<char>,
) -> bool {
    &&& forward.name@ == name
    &&& forward.rules@.len() == manifest.len()
    &&& sorted_by_key(forward.rules@)
    &&& forall|i: int|
        0 <= i < forward.rules@.len() ==> comes_from(#[trigger] forward.rules@[i], manifest, refs, root)
    &&& forall|k: int|
        0 <= k < manifest.len() ==> has_forward_of(forward.rules@, #[trigger] manifest[k], refs, root)
}

/// Whether `forward` is the forward view of `spec` made with `manifest` and
/// with `parts`, where `manifest` is the spec's manifest and `parts` holds,
/// for each of the `count` implementations from `first` on, its references
/// to the spec.
pub open spec fn is_forward_with(
    forward: ApiSpecForward,
    manifest: Seq<RuleInfo>,
    parts: Seq<Seq<SourceRef>>,
    spec: ResolvedSpec,
    impls: Seq<ImplData>,
    first: int,
    count: int,
    root: Seq<char>,
) -> bool {
    &&& is_manifest_of(manifest, spec.definitions@)
    &&& parts.len() == count
    &&& 0 <= first
    &&& first + count <= impls.len()
    &&& forall|t: int|
        0 <= t < count ==> are_spec_refs(#[trigger] parts[t], impls[first + t].refs@, spec.prefix@)
    &&& is_forward_from(forward, spec.name@, manifest, joined_parts(parts), root)
}

/// Whether `forward` is the forward view of `spec`, whose implementations
/// are the `count` of `impls` from `first` on: the rules of the spec, each
/// with the references that these implementations make to it.
pub open spec fn is_spec_forward(
    forward: ApiSpecForward,
    spec: ResolvedSpec,
    impls: Seq<ImplData>,
    first: int,
    count: int,
    root: Seq<char>,
) -> bool {
    exists|manifest: Seq<RuleInfo>, parts: Seq<Seq<SourceRef>>| #[trigger]
        is_forward_with(forward, manifest, parts, spec, impls, first, count, root)
}

/// Whether `forward` holds the forward view of each of `specs`, in their
/// order.
pub open spec fn is_forward_data(
    forward: ApiForwardData,
    specs: Seq<ResolvedSpec>,
    places: Seq<usize>,
    configs: Seq<SpecConfig>,
    impls: Seq<ImplData>,
    root: Seq<char>,
) -> bool {
    &&& forward.specs@.len() == specs.len()
    &&& forall|j: int|
        0 <= j < specs.len() ==> is_spec_forward(
            #[trigger] forward.specs@[j],
            specs[j],
            impls,
            impls_before(configs, places, j),
            configs[places[j] as int].impls@.len() as int,
            root,
        )
}

/// The forward view of every spec.
pub fn build_forward_data(
    config: &Config,
    specs: &Vec<ResolvedSpec>,
    places: &Vec<usize>,
    impls: &Vec<ImplData>,
    project_root: &str,
) -> (forward: ApiForwardData)
    requires
        specs@.len() == places@.len(),
        forall|j: int| 0 <= j < places@.len() ==> (#[trigger] places@[j]) < config.specs@.len(),
        impls@.len() == impls_before(config.specs@, places@, places@.len() as int),
    ensures
        is_forward_data(forward, specs@, places@, config.specs@, impls@, project_root@),
{
    let mut out: Vec<ApiSpecForward> = Vec::new();
    let total = impls.len();
    let mut first: usize = 0;
    let mut j: usize = 0;
    while j < specs.len()
        invariant
            j <= specs@.len(),
            total == impls@.len(),
            specs@.len() == places@.len(),
            forall|n: int| 0 <= n < places@.len() ==> (#[trigger] places@[n]) < config.specs@.len(),
            impls@.len() == impls_before(config.specs@, places@, places@.len() as int),
            first == impls_before(config.specs@, places@, j as int),
            out@.len() == j,
            forall|n: int|
                0 <= n < j ==> is_spec_forward(
                    #[trigger] out@[n],
                    specs@[n],
                    impls@,
                    impls_before(config.specs@, places@, n),
                    config.specs@[places@[n] as int].impls@.len() as int,
                    project_root@,
                ),
        decreases specs@.len() - j,
    {
        let count = config.specs[places[j]].impls.len();
        proof {
            lemma_impls_before_grows(config.specs@, places@, j + 1, places@.len() as int);
            assert(first + count <= total);
        }
        let mut all: Vec<SourceRef> = Vec::new();
        let ghost mut parts: Seq<Seq<SourceRef>> = Seq::empty();
        let mut t: usize = 0;
        while t < count
            invariant
                j < specs@.len(),
                t <= count,
                total == impls@.len(),
                first + count <= total,
                parts.len() == t,
                all@ == joined_parts(parts),
                forall|n: int|
                    0 <= n < t ==> are_spec_refs(
                        #[trigger] parts[n],
                        impls@[first + n].refs@,
                        specs@[j as int].prefix@,
                    ),
            decreases count - t,
        {
            let mut part = source_refs(&impls[first + t].refs, specs[j].prefix.as_str());
            proof {
                let longer = parts.push(part@);
                assert(longer.drop_last() == parts);
                assert forall|n: int| 0 <= n < t + 1 implies are_spec_refs(
                    #[trigger] longer[n],
                    impls@[first + n].refs@,
                    specs@[j as int].prefix@,
                ) by {
                    if n < t {
                        assert(longer[n] == parts[n]);
                    }
                }
                parts = longer;
            }
            all.append(&mut part);
            t += 1;
        }
        let manifest = rule_infos(&specs[j].definitions);
        let view = build_spec_forward(specs[j].name.as_str(), &manifest, &all, project_root);
        assert(is_forward_with(
            view,
            manifest@,
            parts,
            specs@[j as int],
            impls@,
            first as int,
            count as int,
            project_root@,
        ));
        out.push(view);
        first = first + count;
        j += 1;
    }
    ApiForwardData { specs: out }
}

/// Whether implementation `t` of the spec at the `j`-th of `places` chooses
/// the file at `path`.
pub open spec fn chooses(configs: Seq<SpecConfig>, places: Seq<usize>, path: Seq<char>, j: int, t: int) -> bool {
    &&& 0 <= j < places.len()
    &&& places[j] < configs.len()
    &&& 0 <= t < configs[places[j] as int].impls@.len()
    &&& is_chosen(path, configs[places[j] as int].impls@[t])
}

/// Whether the file at `path` belongs to an implementation of one of the
/// specs at `places`.
pub open spec fn in_scope(configs: Seq<SpecConfig>, places: Seq<usize>, path: Seq<char>) -> bool {
    exists|j: int, t: int| #[trigger] chooses(configs, places, path, j, t)
}

/// The places, among the first `upto` of `files`, of those that belong to
/// an implementation.
pub open spec fn scoped(files: Seq<SourceFile>, configs: Seq<SpecConfig>, places: Seq<usize>, upto: int) -> Seq<
    int,
>
    decreases upto,
{
    if upto <= 0 {
        Seq::empty()
    } else if upto <= files.len() && in_scope(configs, places, files[upto - 1].path@) {
        scoped(files, configs, places, upto - 1).push(upto - 1)
    } else {
        scoped(files, configs, places, upto - 1)
    }
}

/// Whether `unit` holds `file` as one code unit: the whole file, from its
/// first line to its last, with the rules that its references name.
pub open spec fn is_unit_of(unit: FileUnits, file: SourceFile) -> bool {
    &&& unit.path@ == file.path@
    &&& unit.units@.len() == 1
    &&& unit.units@[0].kind@ == "file"@
    &&& unit.units@[0].name.is_none()
    &&& unit.units@[0].start_line == 1
    &&& unit.units@[0].end_line == line_count(encode_utf8(file.text@))
    &&& exists|refs: Seq<Reference>| #[trigger]
        is_file_scan(refs, file) && strs(unit.units@[0].rule_refs@) == rendered_ids(refs)
}

/// Whether the `m`-th of `units` holds the file at the `m`-th of `expected`.
pub open spec fn is_nth_unit(units: Seq<FileUnits>, files: Seq<SourceFile>, expected: Seq<int>, m: int) -> bool {
    &&& 0 <= m < units.len()
    &&& m < expected.len()
    &&& 0 <= expected[m] < files.len()
    &&& is_unit_of(units[m], files[expected[m]])
}

/// Whether `units` holds one entry for each of `files` that belongs to an
/// implementation, in the order of `files`.
pub open spec fn are_units(
    units: Seq<FileUnits>,
    files: Seq<SourceFile>,
    configs: Seq<SpecConfig>,
    places: Seq<usize>,
) -> bool {
    let expected = scoped(files, configs, places, files.len() as int);
    &&& units.len() == expected.len()
    &&& forall|m: int| 0 <= m < units.len() ==> #[trigger] is_nth_unit(units, files, expected, m)
}

/// Whether the file at `path` belongs to an implementation of one of the
/// specs at `places`.
pub fn is_in_scope(config: &Config, places: &Vec<usize>, path: &str) -> (yes: bool)
    requires
        forall|j: int| 0 <= j < places@.len() ==> (#[trigger] places@[j]) < config.specs@.len(),
    ensures
        yes == in_scope(config.specs@, places@, path@),
{
    let mut j: usize = 0;
    while j < places.len()
        invariant
            j <= places@.len(),
            forall|n: int| 0 <= n < places@.len() ==> (#[trigger] places@[n]) < config.specs@.len(),
            forall|a: int, b: int| 0 <= a < j ==> !#[trigger] chooses(config.specs@, places@, path@, a, b),
        decreases places@.len() - j,
    {
        let targets = &config.specs[places[j]].impls;
        let mut t: usize = 0;
        while t < targets.len()
            invariant
                j < places@.len(),
                t <= targets@.len(),
                places@[j as int] < config.specs@.len(),
                targets@ == config.specs@[places@[j as int] as int].impls@,
                forall|b: int| 0 <= b < t ==> !#[trigger] chooses(config.specs@, places@, path@, j as int, b),
            decreases targets@.len() - t,
        {
            if is_selected(path, &targets[t].includes, &targets[t].exclude) {
                assert(chooses(config.specs@, places@, path@, j as int, t as int));
                return true;
            }
            t += 1;
        }
        j += 1;
    }
    false
}

/// The code units of the files that belong to an implementation: for each
/// of them the file as a whole.
pub fn build_units(config: &Config, places: &Vec<usize>, files: &Vec<SourceFile>) -> (units: Vec<FileUnits>)
    requires
        forall|j: int| 0 <= j < places@.len() ==> (#[trigger] places@[j]) < config.specs@.len(),
        distinct_paths(files@),
    ensures
        are_units(units@, files@, config.specs@, places@),
        distinct_unit_paths(units@),
        total_units_of(units@) == units@.len(),
        units@.len() <= usize::MAX,
{
    let mut units: Vec<FileUnits> = Vec::new();
    let mut i: usize = 0;
    while i < files.len()
        invariant
            i <= files@.len(),
            forall|j: int| 0 <= j < places@.len() ==> (#[trigger] places@[j]) < config.specs@.len(),
            distinct_paths(files@),
            units@.len() == scoped(files@, config.specs@, places@, i as int).len(),
            forall|m: int|
                0 <= m < units@.len() ==> #[trigger] is_nth_unit(
                    units@,
                    files@,
                    scoped(files@, config.specs@, places@, i as int),
                    m,
                ),
            forall|m: int|
                0 <= m < units@.len() ==> (#[trigger] scoped(files@, config.specs@, places@, i as int)[m]) < i,
            distinct_unit_paths(units@),
            total_units_of(units@) == units@.len(),
            units@.len() <= i,
        decreases files@.len() - i,
    {
        let ghost before = scoped(files@, config.specs@, places@, i as int);
        let ghost after = scoped(files@, config.specs@, places@, i + 1);
        let ghost old_units = units@;
        let file = &files[i];
        if is_in_scope(config, places, file.path.as_str()) {
            let refs = scan_source_file(file.path.as_str(), file.text.as_str());
            let unit = whole_file_unit(file.path.as_str(), file.text.as_str(), &refs);
            assert(is_file_scan(refs@, files@[i as int]));
            assert(is_unit_of(unit, files@[i as int]));
            units.push(unit);
            assert(after == before.push(i as int));
            assert(units@.drop_last() == old_units);
            assert forall|m: int| 0 <= m < units@.len() implies #[trigger] is_nth_unit(
                units@,
                files@,
                after,
                m,
            ) by {
                if m < old_units.len() {
                    assert(is_nth_unit(old_units, files@, before, m));
                }
            }
            assert forall|m: int| 0 <= m < units@.len() implies (#[trigger] after[m]) < i + 1 by {
                if m < old_units.len() {
                    assert(before[m] < i);
                }
            }
            assert forall|a: int, b: int| 0 <= a < b < units@.len() implies (#[trigger] units@[a]).path@ != (
            #[trigger] units@[b]).path@ by {
                if b == old_units.len() {
                    assert(is_nth_unit(old_units, files@, before, a));
                    assert(before[a] < i);
                    assert(files@[before[a]].path@ != files@[i as int].path@);
                } else {
                    assert(old_units[a].path@ != old_units[b].path@);
                }
            }
        } else {
            assert(after == before);
        }
        i += 1;
    }
    units
}

/// The findings about the first `upto` of `scans`: for each spec those about
/// repeated definitions, then those about cycles.
pub open spec fn spec_problems(scans: Seq<SpecScan>, upto: int) -> Seq<Diagnostic>
    decreases upto,
{
    if upto <= 0 || upto > scans.len() {
        Seq::empty()
    } else {
        spec_problems(scans, upto - 1) + scans[upto - 1].duplicates@ + scans[upto - 1].cycles@
    }
}

/// The findings about the references of the first `upto` of `impls`.
pub open spec fn impl_problems(impls: Seq<ImplData>, upto: int) -> Seq<Diagnostic>
    decreases upto,
{
    if upto <= 0 || upto > impls.len() {
        Seq::empty()
    } else {
        impl_problems(impls, upto - 1) + impls[upto - 1].problems@
    }
}

/// Whether `found` holds all findings of a build in their order: those
/// about the specs, then one about the configuration where the build has an
/// error, then those about the implementations.
pub open spec fn are_findings(
    found: Seq<Diagnostic>,
    about_specs: Seq<Diagnostic>,
    about_impls: Seq<Diagnostic>,
    error: Option<Seq<char>>,
    config_path: Seq<char>,
) -> bool {
    let extra: int = if error.is_some() {
        1
    } else {
        0
    };
    &&& found.len() == about_specs.len() + extra + about_impls.len()
    &&& found.subrange(0, about_specs.len() as int) == about_specs
    &&& error.is_some() ==> is_config_error_report(
        found[about_specs.len() as int],
        config_path,
        error.unwrap(),
    )
    &&& found.subrange(about_specs.len() + extra, found.len() as int) == about_impls
}

fn copy_diagnostic(d: &Diagnostic) -> (copy: Diagnostic)
    ensures
        copy == *d,
{
    Diagnostic {
        code: d.code,
        severity: d.severity,
        message: d.message.clone(),
        file: d.file.clone(),
        line: d.line,
        start: d.start,
        end: d.end,
        prefix: d.prefix.clone(),
        reference: d.reference,
    }
}

fn push_copies(out: &mut Vec<Diagnostic>, from: &Vec<Diagnostic>)
    ensures
        final(out)@ == old(out)@ + from@,
{
    let mut i: usize = 0;
    while i < from.len()
        invariant
            i <= from@.len(),
            out@ == old(out)@ + from@.subrange(0, i as int),
        decreases from@.len() - i,
    {
        out.push(copy_diagnostic(&from[i]));
        assert(from@.subrange(0, i + 1) == from@.subrange(0, i as int).push(from@[i as int]));
        i += 1;
    }
    assert(from@.subrange(0, i as int) == from@);
}

/// All findings of a build, in their order.
pub fn collect_findings(
    scans: &Vec<SpecScan>,
    impls: &Vec<ImplData>,
    error: &Option<String>,
    config_path: &str,
) -> (found: Vec<Diagnostic>)
    ensures
        are_findings(
            found@,
            spec_problems(scans@, scans@.len() as int),
            impl_problems(impls@, impls@.len() as int),
            opt_view(*error),
            config_path@,
        ),
{
    let mut found: Vec<Diagnostic> = Vec::new();
    let mut i: usize = 0;
    while i < scans.len()
        invariant
            i <= scans@.len(),
            found@ == spec_problems(scans@, i as int),
        decreases scans@.len() - i,
    {
        push_copies(&mut found, &scans[i].duplicates);
        push_copies(&mut found, &scans[i].cycles);
        i += 1;
    }
    let ghost head = found@;
    match error {
        Some(message) => {
            found.push(config_error_diagnostic(config_path, message.as_str()));
        },
        None => {},
    }
    let ghost middle = found@;
    let mut k: usize = 0;
    while k < impls.len()
        invariant
            k <= impls@.len(),
            found@ == middle + impl_problems(impls@, k as int),
        decreases impls@.len() - k,
    {
        push_copies(&mut found, &impls[k].problems);
        assert(middle + impl_problems(impls@, k as int) + impls@[k as int].problems@ == middle + (
        impl_problems(impls@, k as int) + impls@[k as int].problems@));
        k += 1;
    }
    proof {
        let tail = impl_problems(impls@, impls@.len() as int);
        assert(found@.subrange(0, head.len() as int) == head);
        assert(found@.subrange(middle.len() as int, found@.len() as int) == tail);
    }
    found
}

/// Whether `reverse` sums up `units`: one entry for each file, sorted by
/// path, and the numbers of units and of covered units in all of them.
pub open spec fn is_reverse_of(reverse: ApiReverseData, units: Seq<FileUnits>, root: Seq<char>) -> bool {
    &&& reverse.total_units == total_units_of(units)
    &&& reverse.covered_units == covered_units_of(units)
    &&& reverse.files@.len() == units.len()
    &&& sorted_by_key(reverse.files@)
    &&& forall|i: int|
        0 <= i < reverse.files@.len() ==> summarizes_one(#[trigger] reverse.files@[i], units, root)
    &&& forall|k: int| 0 <= k < units.len() ==> has_entry_of(reverse.files@, #[trigger] units[k], root)
}

/// The state of a workspace after one build.
#[derive(Debug)]
pub struct Snapshot {
    /// Why the configuration, or a spec in it, could not be used.
    pub config_error: Option<String>,
    /// What the files hold for each configured spec.
    pub scans: Vec<SpecScan>,
    /// The specs that have data.
    pub specs: Vec<ResolvedSpec>,
    /// For each of `specs`, its place in the configuration.
    pub places: Vec<usize>,
    /// The implementations of `specs`, spec after spec.
    pub impls: Vec<ImplData>,
    pub diagnostics: Vec<Diagnostic>,
    /// The files that belong to an implementation, each as one code unit.
    pub units: Vec<FileUnits>,
    pub forward: ApiForwardData,
    pub reverse: ApiReverseData,
    pub content_hash: u64,
}

/// Whether `s` is the state that a build reaches from the configured specs
/// `configs`, the files `files` and the specs `previous` that the build
/// before has left.
pub open spec fn is_snapshot_of(
    s: Snapshot,
    configs: Seq<SpecConfig>,
    load_error: Option<Seq<char>>,
    files: Seq<SourceFile>,
    previous: Seq<ResolvedSpec>,
    root: Seq<char>,
    config_path: Seq<char>,
) -> bool {
    &&& s.scans@.len() == configs.len()
    &&& forall|i: int|
        0 <= i < configs.len() ==> is_spec_scan(#[trigger] s.scans@[i], files, strs(configs[i].includes@))
    &&& is_resolution(s.specs@, s.places@, configs, s.scans@, previous)
    &&& opt_view(s.config_error) == build_error(load_error, configs, s.scans@)
    &&& are_impls(s.impls@, s.specs@, s.places@, configs, files)
    &&& are_findings(
        s.diagnostics@,
        spec_problems(s.scans@, s.scans@.len() as int),
        impl_problems(s.impls@, s.impls@.len() as int),
        opt_view(s.config_error),
        config_path,
    )
    &&& are_units(s.units@, files, configs, s.places@)
    &&& is_forward_data(s.forward, s.specs@, s.places@, configs, s.impls@, root)
    &&& is_reverse_of(s.reverse, s.units@, root)
    &&& s.content_hash == content_hash_of(s.forward, s.reverse)
}

/// The configured specs that a build uses: none where the configuration
/// could not be read.
pub open spec fn usable_specs(config: Config, load_error: Option<Seq<char>>) -> Seq<SpecConfig> {
    if load_error.is_some() {
        Seq::empty()
    } else {
        config.specs@
    }
}

fn scan_specs(config: &Config, files: &Vec<SourceFile>) -> (scans: Vec<SpecScan>)
    ensures
        scans@.len() == config.specs@.len(),
        forall|i: int|
            0 <= i < config.specs@.len() ==> is_spec_scan(
                #[trigger] scans@[i],
                files@,
                strs(config.specs@[i].includes@),
            ),
{
    let mut scans: Vec<SpecScan> = Vec::new();
    let mut i: usize = 0;
    while i < config.specs.len()
        invariant
            i <= config.specs@.len(),
            scans@.len() == i,
            forall|n: int|
                0 <= n < i ==> is_spec_scan(#[trigger] scans@[n], files@, strs(config.specs@[n].includes@)),
        decreases config.specs@.len() - i,
    {
        scans.push(scan_spec(files, &config.specs[i].includes));
        i += 1;
    }
    scans
}

fn build_with(
    config: &Config,
    load_error: Option<String>,
    files: &Vec<SourceFile>,
    previous: &Vec<ResolvedSpec>,
    project_root: &str,
    config_path: &str,
) -> (s: Snapshot)
    requires
        distinct_paths(files@),
        load_error.is_some() ==> config.specs@.len() == 0,
    ensures
        is_snapshot_of(
            s,
            config.specs@,
            opt_view(load_error),
            files@,
            previous@,
            project_root@,
            config_path@,
        ),
{
    let scans = scan_specs(config, files);
    let (specs, places, prefix_error) = resolve(config, &scans, previous);
    let config_error = match load_error {
        Some(text) => Some(text),
        None => match config_error(config) {
            Some(text) => Some(text),
            None => prefix_error,
        },
    };
    proof {
        let expected = resolved_places(config.specs@, scans@, previous@, config.specs@.len() as int);
        assert forall|j: int| 0 <= j < places@.len() implies (#[trigger] places@[j])
            < config.specs@.len() by {
            assert(is_nth_resolved(specs@, places@, config.specs@, scans@, previous@, expected, j));
        }
    }
    let impls = build_impls(config, &specs, &places, files);
    let diagnostics = collect_findings(&scans, &impls, &config_error, config_path);
    let units = build_units(config, &places, files);
    let forward = build_forward_data(config, &specs, &places, &impls, project_root);
    let reverse = build_reverse(&units, project_root);
    let content_hash = content_hash(&forward, &reverse);
    Snapshot {
        config_error,
        scans,
        specs,
        places,
        impls,
        diagnostics,
        units,
        forward,
        reverse,
        content_hash,
    }
}

/// Builds the state of a workspace from its configuration and its files.
///
/// Each configured spec is read from the Markdown files that its globs name,
/// and each implementation from the files that its globs choose. A spec
/// whose definitions do not give it one prefix makes a configuration error
/// and keeps what `previous` holds under its name; where that is nothing, it
/// has no data and no implementations in this state. Where the configuration
/// could not be read, `load_error` says why, and the state holds no spec.
pub fn build_snapshot(
    config: &Config,
    load_error: Option<String>,
    files: &Vec<SourceFile>,
    previous: &Vec<ResolvedSpec>,
    project_root: &str,
    config_path: &str,
) -> (s: Snapshot)
    requires
        distinct_paths(files@),
    ensures
        is_snapshot_of(
            s,
            usable_specs(*config, opt_view(load_error)),
            opt_view(load_error),
            files@,
            previous@,
            project_root@,
            config_path@,
        ),
        s.content_hash == content_hash_of(s.forward, s.reverse),
{
    if load_error.is_some() {
        let nothing = Config::default();
        assert(nothing.specs@ == Seq::<SpecConfig>::empty());
        build_with(&nothing, load_error, files, previous, project_root, config_path)
    } else {
        build_with(config, load_error, files, previous, project_root, config_path)
    }
}

/// Whether the implementation `data` of one of `specs` is asked for by a
/// query that names the spec `spec` and the implementation `name`, each of
/// which may be left open.
pub open spec fn is_asked_for(
    data: ImplData,
    specs: Seq<ResolvedSpec>,
    spec: Option<Seq<char>>,
    name: Option<Seq<char>>,
) -> bool {
    &&& data.spec < specs.len()
    &&& spec matches Some(wanted) ==> specs[data.spec as int].name@ == wanted
    &&& name matches Some(wanted) ==> data.name@ == wanted
}

impl Snapshot {
    /// Whether a query for `spec` and `name` asks for the implementation at
    /// `k`.
    pub fn asks_for(&self, k: usize, spec: Option<&str>, name: Option<&str>) -> (yes: bool)
        requires
            k < self.impls@.len(),
        ensures
            yes == is_asked_for(
                self.impls@[k as int],
                self.specs@,
                match spec {
                    Some(text) => Some(text@),
                    None => None,
                },
                match name {
                    Some(text) => Some(text@),
                    None => None,
                },
            ),
    {
        let data = &self.impls[k];
        if data.spec >= self.specs.len() {
            return false;
        }
        let spec_fits = match spec {
            Some(wanted) => str_same(self.specs[data.spec].name.as_str(), wanted),
            None => true,
        };
        let name_fits = match name {
            Some(wanted) => str_same(data.name.as_str(), wanted),
            None => true,
        };
        spec_fits && name_fits
    }
}

/// The index of the first of `defs` from `from` on that defines `id` in
/// this very version, or -1.
pub open spec fn rule_with_id(defs: Seq<Definition>, id: RuleId, from: int) -> int
    decreases defs.len() - from,
{
    if from < 0 || from >= defs.len() {
        -1
    } else if defs[from].id.base@ == id.base@ && defs[from].id.version == id.version {
        from
    } else {
        rule_with_id(defs, id, from + 1)
    }
}

/// The first of `defs` that defines `id` in this very version.
pub fn find_rule(defs: &Vec<Definition>, id: &RuleId) -> (found: Option<usize>)
    ensures
        match found {
            Some(at) => at == rule_with_id(defs@, *id, 0) && at < defs@.len(),
            None => rule_with_id(defs@, *id, 0) == -1,
        },
{
    let mut i: usize = 0;
    while i < defs.len()
        invariant
            i <= defs@.len(),
            rule_with_id(defs@, *id, 0) == rule_with_id(defs@, *id, i as int),
        decreases defs@.len() - i,
    {
        if defs[i].id.same(id) {
            return Some(i);
        }
        i += 1;
    }
    None
}

/// Whether `problems` holds a finding that reports `r`, the reference at
/// `i`, as an orphan: as orphaned, or as of unknown prefix.
pub open spec fn holds_orphan_finding(problems: Seq<Diagnostic>, r: Reference, i: int) -> bool {
    exists|n: int|
        0 <= n < problems.len() && (#[trigger] problems[n]).reference == Some(i as usize)
            && problems[n].file@ == r.file@ && problems[n].line == r.line && (problems[n].code
            == DiagnosticCode::Orphaned || problems[n].code == DiagnosticCode::UnknownPrefix)
}

/// In the state that a build reaches, every reference of every
/// implementation resolves to a definition of its base in a spec of its
/// prefix, or the findings about the implementation report it as an orphan.
pub proof fn law_snapshot_reference_resolves_or_is_reported(
    s: Snapshot,
    configs: Seq<SpecConfig>,
    load_error: Option<Seq<char>>,
    files: Seq<SourceFile>,
    previous: Seq<ResolvedSpec>,
    root: Seq<char>,
    config_path: Seq<char>,
    j: int,
    t: int,
    i: int,
)
    requires
        is_snapshot_of(s, configs, load_error, files, previous, root, config_path),
        0 <= j < s.places@.len(),
        0 <= t < configs[s.places@[j] as int].impls@.len(),
        0 <= i < s.impls@[impls_before(configs, s.places@, j) + t].refs@.len(),
    ensures
        ({
            let data = s.impls@[impls_before(configs, s.places@, j) + t];
            has_definition(s.specs@, data.refs@[i]) || holds_orphan_finding(
                data.problems@,
                data.refs@[i],
                i,
            )
        }),
{
    let data = s.impls@[impls_before(configs, s.places@, j) + t];
    assert(is_impl_at(s.impls@, s.specs@, s.places@, configs, files, j, t));
    law_reference_resolves_or_is_reported(s.specs@, data.refs@, data.flags@, i);
    if !has_definition(s.specs@, data.refs@[i]) {
        let listed = reported(s.specs@, data.refs@, data.flags@, None, data.refs@.len() as int);
        let n = choose|n: int| 0 <= n < listed.len() && listed[n] == i;
        assert(is_nth_report(data.problems@, listed, s.specs@, data.refs@, data.flags@, None, n));
        assert(data.problems@[n].reference == Some(i as usize));
    }
}

proof fn lemma_counts_are_bounded(forward: Seq<RuleCoverage>, upto: int)
    requires
        0 <= upto,
    ensures
        covered_upto(forward, upto) <= upto,
        verified_upto(forward, upto) <= upto,
    decreases upto,
{
    if upto > 0 {
        lemma_counts_are_bounded(forward, upto - 1);
    }
}

/// In the state that a build reaches, no implementation covers or verifies
/// more rules than its spec has.
pub proof fn law_snapshot_counts(
    s: Snapshot,
    configs: Seq<SpecConfig>,
    load_error: Option<Seq<char>>,
    files: Seq<SourceFile>,
    previous: Seq<ResolvedSpec>,
    root: Seq<char>,
    config_path: Seq<char>,
    j: int,
    t: int,
)
    requires
        is_snapshot_of(s, configs, load_error, files, previous, root, config_path),
        0 <= j < s.places@.len(),
        0 <= t < configs[s.places@[j] as int].impls@.len(),
    ensures
        ({
            let data = s.impls@[impls_before(configs, s.places@, j) + t];
            &&& data.status.total_rules == s.specs@[j].definitions@.len()
            &&& data.status.covered_rules <= data.status.total_rules
            &&& data.status.verified_rules <= data.status.total_rules
        }),
{
    let data = s.impls@[impls_before(configs, s.places@, j) + t];
    assert(is_impl_at(s.impls@, s.specs@, s.places@, configs, files, j, t));
    lemma_counts_are_bounded(data.forward@, data.forward@.len() as int);
}

} // verus!
