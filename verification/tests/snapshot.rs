use tracey::config::{Config, Impl, SpecConfig};
use tracey::dashboard::content_hash;
use tracey::index::{DiagnosticCode, RefStatus, ResolvedSpec};
use tracey::marker::RuleId;
use tracey::snapshot::{
    build_impl, build_snapshot, build_units, find_rule, is_in_scope, resolve_spec, scan_spec, Snapshot,
    SourceFile,
};

fn strings(items: &[&str]) -> Vec<String> {
    items.iter().map(|s| s.to_string()).collect()
}

fn file(path: &str, text: &str) -> SourceFile {
    SourceFile { path: path.to_string(), text: text.to_string() }
}

fn spec(name: &str, includes: &[&str], impls: Vec<Impl>) -> SpecConfig {
    SpecConfig { name: name.to_string(), prefix: None, source_url: None, includes: strings(includes), impls }
}

fn target(name: &str, includes: &[&str], exclude: &[&str], tests: &[&str]) -> Impl {
    Impl {
        name: name.to_string(),
        includes: strings(includes),
        exclude: strings(exclude),
        test_include: strings(tests),
    }
}

fn one_spec() -> Config {
    Config {
        specs: vec![spec(
            "alpha",
            &["docs/**/*.md"],
            vec![target("rust", &["src/**/*.rs", "tests/**/*.rs"], &["src/gen/**"], &["tests/**/*.rs"])],
        )],
    }
}

const ALPHA: &str = "# Alpha\n\nr[auth.login]\nUsers must log in.\n\nr[auth.logout]\nUsers must log out.\n";

fn workspace() -> Vec<SourceFile> {
    vec![
        file("README.md", "r[not.a.rule]\n"),
        file("docs/alpha.md", ALPHA),
        file("src/gen/out.rs", "// r[impl auth.logout]\n"),
        file("src/lib.rs", "// r[impl auth.login]\nfn login() {}\n// r[impl auth.gone]\n"),
        file("src/notes.txt", "// r[impl auth.logout]\n"),
        file("tests/login.rs", "// r[verify auth.login]\n// r[impl auth.login]\n"),
    ]
}

fn build(config: &Config, files: &Vec<SourceFile>, previous: &Vec<ResolvedSpec>) -> Snapshot {
    build_snapshot(config, None, files, previous, "/repo", "/repo/.config/tracey/config.styx")
}

#[test]
fn a_build_reads_specs_and_implementations() {
    let s = build(&one_spec(), &workspace(), &Vec::new());
    assert_eq!(s.config_error, None);
    assert_eq!(s.specs.len(), 1);
    assert_eq!((s.specs[0].name.as_str(), s.specs[0].prefix.as_str()), ("alpha", "r"));
    let rules: Vec<String> = s.specs[0].definitions.iter().map(|d| d.id.render()).collect();
    assert_eq!(rules, vec!["auth.login", "auth.logout"]);
    assert_eq!(s.places, vec![0]);

    assert_eq!(s.impls.len(), 1);
    let data = &s.impls[0];
    assert_eq!((data.spec, data.name.as_str()), (0, "rust"));
    let refs: Vec<(&str, String)> = data.refs.iter().map(|r| (r.file.as_str(), r.id.render())).collect();
    assert_eq!(
        refs,
        vec![
            ("src/lib.rs", "auth.login".to_string()),
            ("src/lib.rs", "auth.gone".to_string()),
            ("tests/login.rs", "auth.login".to_string()),
            ("tests/login.rs", "auth.login".to_string()),
        ]
    );
    assert_eq!(data.flags, vec![false, false, true, true]);
    assert!(matches!(data.statuses[0], RefStatus::Resolved { spec: 0, rule: 0 }));
    assert!(matches!(data.statuses[1], RefStatus::Orphaned));
    assert_eq!(data.forward.len(), 2);
    assert_eq!(data.forward[0].impl_refs, vec![0, 3]);
    assert_eq!(data.forward[0].verify_refs, vec![2]);
    assert!(data.forward[1].impl_refs.is_empty());
    assert_eq!(
        (data.status.total_rules, data.status.covered_rules, data.status.verified_rules),
        (2, 1, 1)
    );
}

#[test]
fn findings_come_in_their_order() {
    let mut files = workspace();
    files[1].text = format!("{ALPHA}\nr[auth.login]\nAgain.\n");
    let mut config = one_spec();
    config.specs[0].prefix = Some("r".to_string());
    let s = build(&config, &files, &Vec::new());
    let codes: Vec<DiagnosticCode> = s.diagnostics.iter().map(|d| d.code).collect();
    assert_eq!(codes.len(), 4);
    assert_eq!(codes[0], DiagnosticCode::DuplicateDefinition);
    assert_eq!(codes[1], DiagnosticCode::ConfigError);
    assert_eq!((s.diagnostics[1].file.as_str(), s.diagnostics[1].line), ("/repo/.config/tracey/config.styx", 0));
    assert_eq!(Some(s.diagnostics[1].message.clone()), s.config_error);
    assert_eq!(s.diagnostics[2].file, "src/lib.rs");
    assert_eq!(s.diagnostics[2].line, 3);
    assert_eq!(s.diagnostics[3].file, "tests/login.rs");
    assert_eq!(s.diagnostics[3].line, 2);
    assert_eq!(s.scans[0].duplicates.len(), 1);
    assert_eq!(s.impls[0].problems.len(), 2);
}

#[test]
fn the_views_and_the_hash_belong_together() {
    let s = build(&one_spec(), &workspace(), &Vec::new());
    assert_eq!(s.content_hash, content_hash(&s.forward, &s.reverse));
    assert_eq!(s.forward.specs.len(), 1);
    assert_eq!(s.forward.specs[0].name, "alpha");
    let rules: Vec<(&str, usize, usize)> = s.forward.specs[0]
        .rules
        .iter()
        .map(|r| (r.id.as_str(), r.impl_refs.len(), r.verify_refs.len()))
        .collect();
    assert_eq!(rules, vec![("auth.login", 2, 1), ("auth.logout", 0, 0)]);

    let units: Vec<&str> = s.units.iter().map(|u| u.path.as_str()).collect();
    assert_eq!(units, vec!["src/lib.rs", "tests/login.rs"]);
    assert_eq!((s.reverse.total_units, s.reverse.covered_units), (2, 2));
    let entries: Vec<&str> = s.reverse.files.iter().map(|f| f.path.as_str()).collect();
    assert_eq!(entries, vec!["src/lib.rs", "tests/login.rs"]);

    let mut changed = workspace();
    changed[3].text = "fn login() {}\n".to_string();
    assert_ne!(build(&one_spec(), &changed, &Vec::new()).content_hash, s.content_hash);
    let mut same = workspace();
    same[0].text = "something else\n".to_string();
    assert_eq!(build(&one_spec(), &same, &Vec::new()).content_hash, s.content_hash);
}

#[test]
fn a_file_of_two_implementations_is_one_unit() {
    let mut config = one_spec();
    config.specs[0].impls.push(target("again", &["src/**/*.rs"], &[], &[]));
    let s = build(&config, &workspace(), &Vec::new());
    assert_eq!(s.impls.len(), 2);
    assert_eq!(s.impls[1].name, "again");
    let units: Vec<&str> = s.units.iter().map(|u| u.path.as_str()).collect();
    assert_eq!(units, vec!["src/gen/out.rs", "src/lib.rs", "tests/login.rs"]);
    assert_eq!(s.reverse.files.len(), 3);
    assert_eq!(s.reverse.total_units, 3);
}

#[test]
fn a_spec_without_one_prefix_keeps_its_earlier_data() {
    let first = build(&one_spec(), &workspace(), &Vec::new());
    let mut files = workspace();
    files[1].text = format!("{ALPHA}\ns[other.rule]\nText.\n");
    let second = build(&one_spec(), &files, &first.specs);
    assert_eq!(
        second.config_error.as_deref(),
        Some("spec `alpha` uses more than one prefix: `r` and `s`")
    );
    assert_eq!(second.specs.len(), 1);
    assert_eq!(second.specs[0].prefix, "r");
    assert_eq!(second.specs[0].definitions.len(), 2);
    assert_eq!(second.impls.len(), 1);
    assert_eq!(second.impls[0].status.total_rules, 2);

    let fresh = build(&one_spec(), &files, &Vec::new());
    assert_eq!(fresh.config_error, second.config_error);
    assert!(fresh.specs.is_empty());
    assert!(fresh.places.is_empty());
    assert!(fresh.impls.is_empty());
    assert!(fresh.units.is_empty());
    assert_eq!(fresh.diagnostics.len(), 1);
    assert_eq!(fresh.diagnostics[0].code, DiagnosticCode::ConfigError);
}

#[test]
fn specs_keep_the_order_of_the_configuration() {
    let config = Config {
        specs: vec![
            spec("empty", &["none/**/*.md"], vec![target("a", &["src/**/*.rs"], &[], &[])]),
            spec("alpha", &["docs/**/*.md"], vec![target("b", &["src/**/*.rs"], &[], &[])]),
            spec("beta", &["beta/**/*.md"], vec![
                target("c", &["src/**/*.rs"], &[], &[]),
                target("d", &["tests/**/*.rs"], &[], &[]),
            ]),
        ],
    };
    let mut files = workspace();
    files.insert(1, file("beta/main.md", "b[pay.card]\nCards are taken.\n"));
    let s = build(&config, &files, &Vec::new());
    assert_eq!(s.config_error.as_deref(), Some("spec `empty` defines no rule"));
    assert_eq!(s.scans.len(), 3);
    let names: Vec<&str> = s.specs.iter().map(|r| r.name.as_str()).collect();
    assert_eq!(names, vec!["alpha", "beta"]);
    assert_eq!(s.places, vec![1, 2]);
    let impls: Vec<(usize, &str)> = s.impls.iter().map(|d| (d.spec, d.name.as_str())).collect();
    assert_eq!(impls, vec![(0, "b"), (1, "c"), (1, "d")]);
    assert_eq!(s.forward.specs.len(), 2);
    assert!(s.asks_for(1, Some("beta"), None));
    assert!(s.asks_for(2, Some("beta"), Some("d")));
    assert!(!s.asks_for(0, Some("beta"), None));
    assert!(!s.asks_for(1, None, Some("d")));
    assert!(s.asks_for(0, None, None));
}

#[test]
fn a_configuration_that_cannot_be_read_gives_an_empty_state() {
    let s = build_snapshot(
        &one_spec(),
        Some("config is not a configuration".to_string()),
        &workspace(),
        &Vec::new(),
        "/repo",
        "/repo/config.styx",
    );
    assert_eq!(s.config_error.as_deref(), Some("config is not a configuration"));
    assert!(s.specs.is_empty() && s.scans.is_empty() && s.impls.is_empty() && s.units.is_empty());
    assert_eq!(s.diagnostics.len(), 1);
    assert_eq!(s.diagnostics[0].file, "/repo/config.styx");
    assert!(s.forward.specs.is_empty());
    assert_eq!(s.reverse.total_units, 0);
}

#[test]
fn a_deprecated_prefix_comes_before_a_missing_one() {
    let mut config = one_spec();
    config.specs[0].prefix = Some("r".to_string());
    let s = build(&config, &vec![file("src/lib.rs", "")], &Vec::new());
    let error = s.config_error.expect("the configuration sets a prefix");
    assert!(error.starts_with("spec `alpha` sets the deprecated `prefix r`"));
}

#[test]
fn the_stages_of_a_build() {
    let files = workspace();
    let scan = scan_spec(&files, &strings(&["docs/**/*.md"]));
    assert_eq!(scan.found.len(), 2);
    assert_eq!(scan.definitions.len(), 2);
    assert!(scan.links.is_empty() && scan.duplicates.is_empty() && scan.cycles.is_empty());
    assert!(scan_spec(&files, &strings(&["**/*.rs"])).found.is_empty());

    let (resolved, problem) = resolve_spec("alpha", &scan.definitions, &Vec::new());
    assert_eq!(problem, None);
    let resolved = resolved.expect("the definitions use one prefix");
    assert_eq!(resolved.prefix, "r");
    let (nothing, problem) = resolve_spec("alpha", &Vec::new(), &Vec::new());
    assert!(nothing.is_none());
    assert_eq!(problem.as_deref(), Some("spec `alpha` defines no rule"));
    let (kept, problem) = resolve_spec("alpha", &Vec::new(), &vec![resolved.clone()]);
    assert_eq!(kept.expect("the earlier build has the spec").definitions.len(), 2);
    assert!(problem.is_some());

    let specs = vec![resolved];
    let rust = target("rust", &["src/**/*.rs"], &["src/gen/**"], &[]);
    let data = build_impl(&specs, 0, &rust, &files);
    assert_eq!(data.refs.len(), 2);
    assert_eq!(data.flags, vec![false, false]);
    assert_eq!(data.problems.len(), 1);

    let config = one_spec();
    assert!(is_in_scope(&config, &vec![0], "src/lib.rs"));
    assert!(!is_in_scope(&config, &vec![0], "src/gen/out.rs"));
    assert!(!is_in_scope(&config, &vec![], "src/lib.rs"));
    assert_eq!(build_units(&config, &vec![0], &files).len(), 2);

    let id = RuleId { base: "auth.logout".to_string(), version: 1 };
    assert_eq!(find_rule(&specs[0].definitions, &id), Some(1));
    let later = RuleId { base: "auth.logout".to_string(), version: 2 };
    assert_eq!(find_rule(&specs[0].definitions, &later), None);
}

#[test]
fn an_orphan_clears_when_the_spec_defines_the_rule() {
    let config = one_spec();
    let mut files = vec![
        file("docs/alpha.md", "r[auth.login]\nUsers must log in.\n"),
        file("src/lib.rs", "// r[impl auth.login]\n// r[impl payment.checkout]\n"),
    ];
    let before = build(&config, &files, &Vec::new());
    assert_eq!(before.diagnostics.len(), 1);
    assert_eq!(before.diagnostics[0].code, DiagnosticCode::Orphaned);
    assert!(before.diagnostics[0].message.contains("payment.checkout"));

    files[0].text.push_str("\nr[payment.checkout]\nOrders are paid.\n");
    let after = build(&config, &files, &before.specs);
    assert!(after.diagnostics.is_empty());
    let rule = after.forward.specs[0].rules.iter().find(|r| r.id == "payment.checkout").expect("the rule is listed");
    assert_eq!(rule.impl_refs.len(), 1);
    assert_ne!(after.content_hash, before.content_hash);
}

#[test]
fn the_same_files_give_the_same_state() {
    let first = build(&one_spec(), &workspace(), &Vec::new());
    let second = build(&one_spec(), &workspace(), &first.specs);
    assert_eq!(first.content_hash, second.content_hash);
    assert_eq!(first.forward.to_json(), second.forward.to_json());
    assert_eq!(first.reverse.to_json(), second.reverse.to_json());
    assert_eq!(
        (first.impls[0].status.covered_rules, first.impls[0].status.verified_rules),
        (second.impls[0].status.covered_rules, second.impls[0].status.verified_rules)
    );
}
