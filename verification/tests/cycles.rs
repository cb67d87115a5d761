use tracey::cycles::{entangled_rules, Edge};
use tracey::index::{cycle_diagnostics, dependency_edges, duplicate_diagnostics, DiagnosticCode, Severity};
use tracey::spec_loader::{duplicate_flags, merge_definitions, scan_spec_file};

fn edges(pairs: &[(usize, usize)]) -> Vec<Edge> {
    pairs.iter().map(|&(from, to)| Edge { from, to }).collect()
}

#[test]
fn rules_without_dependencies_are_free() {
    assert_eq!(entangled_rules(0, &vec![]), Vec::<bool>::new());
    assert_eq!(entangled_rules(3, &vec![]), vec![false, false, false]);
    assert_eq!(entangled_rules(3, &edges(&[(0, 1), (1, 2), (0, 2)])), vec![false, false, false]);
}

#[test]
fn cycles_are_found() {
    assert_eq!(entangled_rules(1, &edges(&[(0, 0)])), vec![true]);
    assert_eq!(entangled_rules(2, &edges(&[(0, 1), (1, 0)])), vec![true, true]);
    assert_eq!(
        entangled_rules(5, &edges(&[(0, 1), (1, 2), (2, 1), (2, 3), (4, 3)])),
        vec![true, true, true, false, false]
    );
    assert_eq!(
        entangled_rules(4, &edges(&[(3, 2), (2, 1), (1, 0), (0, 3)])),
        vec![true, true, true, true]
    );
}

#[test]
fn dependencies_beyond_the_rules_are_passed_over() {
    assert_eq!(entangled_rules(2, &edges(&[(0, 7), (7, 0), (1, 2)])), vec![false, false]);
}

const SPEC: &str = "\
r[a.one]
First. r[depends a.two]

r[a.two]
Second, see `r[depends a.three]`.

r[a.three]
Third. r[depends a.one] r[depends a.gone] r[related a.four]

r[a.four]
Fourth. r[depends a.one]

r[a.five]
Fifth.
";

#[test]
fn dependencies_are_read_from_the_bodies() {
    let found = scan_spec_file("doc.md", SPEC);
    let rules = merge_definitions(&found.definitions);
    assert_eq!(rules.len(), 5);
    let edges = dependency_edges(&rules, &found.references);
    let pairs: Vec<(usize, usize)> = edges.iter().map(|e| (e.from, e.to)).collect();
    assert_eq!(pairs, vec![(0, 1), (1, 2), (2, 0), (3, 0)]);
    let entangled = entangled_rules(rules.len(), &edges);
    assert_eq!(entangled, vec![true, true, true, true, false]);
    let findings = cycle_diagnostics(&rules, &entangled);
    assert_eq!(findings.len(), 4);
    assert_eq!(findings[0].code, DiagnosticCode::Cycle);
    assert_eq!(findings[0].code.name(), "cycle");
    assert_eq!(findings[0].severity, Severity::Error);
    assert_eq!(findings[0].message, "rule `a.one` takes part in a cycle of dependencies");
    assert_eq!(findings[3].message, "rule `a.four` takes part in a cycle of dependencies");
    assert_eq!((findings[1].file.as_str(), findings[1].line), ("doc.md", 4));
    assert!(cycle_diagnostics(&rules, &vec![false; 5]).is_empty());
    assert!(cycle_diagnostics(&rules, &vec![]).is_empty());
}

#[test]
fn repeated_definitions_are_reported() {
    let found = scan_spec_file("doc.md", "r[a.b]\nOne.\n\nr[c.d]\nTwo.\n\nr[a.b]\nAgain.\n").definitions;
    let flags = duplicate_flags(&found);
    assert_eq!(flags, vec![false, false, true]);
    let findings = duplicate_diagnostics(&found, &flags);
    assert_eq!(findings.len(), 1);
    assert_eq!(findings[0].code, DiagnosticCode::DuplicateDefinition);
    assert_eq!(findings[0].code.name(), "duplicate-definition");
    assert_eq!(findings[0].message, "rule `a.b` is defined more than once");
    assert_eq!(findings[0].line, 7);
    assert_eq!(findings[0].reference, None);
}
