use tracey::dashboard::{
    directory_coverage, rule_infos, source_refs, whole_file_unit, build_reverse, build_spec_forward, content_hash, file_entry, forward_rule, glob_match, glob_match_with, pattern_needs_matcher,
    simple_hash, sort_by_key, version_json, ApiCodeRef, ApiCodeUnit, ApiConfig, ApiFileData,
    ApiFileEntry, ApiForwardData, ApiReverseData, ApiRule, ApiSpecData, ApiSpecForward,
    ApiSpecInfo, CodeUnit, FileUnits, RuleInfo, SourceRef,
};
use tracey::json::{json_opt_string, json_string};
use tracey::marker::RefVerb;

#[test]
fn json_string_escapes() {
    assert_eq!(json_string("plain"), "\"plain\"");
    assert_eq!(json_string(""), "\"\"");
    assert_eq!(json_string("a\"b"), "\"a\\\"b\"");
    assert_eq!(json_string("a\\b"), "\"a\\\\b\"");
    assert_eq!(json_string("a\nb\rc\td"), "\"a\\nb\\rc\\td\"");
    assert_eq!(json_string("\u{1}"), "\"\\u0001\"");
    assert_eq!(json_string("\u{1f}\u{7f}\u{9f}"), "\"\\u001f\\u007f\\u009f\"");
    assert_eq!(json_string("\u{a0}é➜"), "\"\u{a0}é➜\"");
    assert_eq!(json_string("\u{0}"), "\"\\u0000\"");
}

#[test]
fn json_string_parses_back() {
    for text in ["", "plain", "q\"uote", "back\\slash", "line\nfeed\ttab\r", "\u{1}\u{8}\u{c}\u{7f}", "é ➜ 中"] {
        let parsed: String = serde_json::from_str(&json_string(text)).unwrap();
        assert_eq!(parsed, text);
    }
}

#[test]
fn json_opt_string_is_null_for_none() {
    assert_eq!(json_opt_string(&None), "null");
    assert_eq!(json_opt_string(&Some("x".to_string())), "\"x\"");
}

fn code_ref(file: &str, line: usize) -> ApiCodeRef {
    ApiCodeRef { file: file.to_string(), line }
}

#[test]
fn code_ref_to_json() {
    assert_eq!(code_ref("src/lib.rs", 12).to_json(), r#"{"file":"src/lib.rs","line":12}"#);
    assert_eq!(code_ref("", 0).to_json(), r#"{"file":"","line":0}"#);
}

#[test]
fn config_to_json() {
    let config = ApiConfig {
        project_root: "/repo".to_string(),
        specs: vec![
            ApiSpecInfo { name: "a".to_string(), source: Some("docs/**/*.md".to_string()) },
            ApiSpecInfo { name: "b".to_string(), source: None },
        ],
    };
    assert_eq!(
        config.to_json(),
        r#"{"projectRoot":"/repo","specs":[{"name":"a","source":"docs/**/*.md"},{"name":"b","source":null}]}"#
    );
    let empty = ApiConfig { project_root: "/".to_string(), specs: vec![] };
    assert_eq!(empty.to_json(), r#"{"projectRoot":"/","specs":[]}"#);
}

fn rule() -> ApiRule {
    ApiRule {
        id: "auth.login".to_string(),
        text: Some("Users MUST log in.".to_string()),
        status: None,
        level: Some("must".to_string()),
        source_file: Some("requirements.md".to_string()),
        source_line: Some(3),
        impl_refs: vec![code_ref("src/lib.rs", 5), code_ref("src/auth.rs", 9)],
        verify_refs: vec![code_ref("src/tests.rs", 1)],
        depends_refs: vec![],
    }
}

#[test]
fn rule_to_json() {
    assert_eq!(
        rule().to_json(),
        r#"{"id":"auth.login","text":"Users MUST log in.","status":null,"level":"must","sourceFile":"requirements.md","sourceLine":3,"implRefs":[{"file":"src/lib.rs","line":5},{"file":"src/auth.rs","line":9}],"verifyRefs":[{"file":"src/tests.rs","line":1}],"dependsRefs":[]}"#
    );
    let bare = ApiRule {
        id: "a.b".to_string(),
        text: None,
        status: None,
        level: None,
        source_file: None,
        source_line: None,
        impl_refs: vec![],
        verify_refs: vec![],
        depends_refs: vec![],
    };
    assert_eq!(
        bare.to_json(),
        r#"{"id":"a.b","text":null,"status":null,"level":null,"sourceFile":null,"sourceLine":null,"implRefs":[],"verifyRefs":[],"dependsRefs":[]}"#
    );
}

#[test]
fn forward_and_reverse_to_json() {
    let forward = ApiForwardData {
        specs: vec![ApiSpecForward { name: "test".to_string(), rules: vec![] }],
    };
    assert_eq!(forward.to_json(), r#"{"specs":[{"name":"test","rules":[]}]}"#);
    let entry = ApiFileEntry { path: "src/lib.rs".to_string(), total_units: 4, covered_units: 3 };
    assert_eq!(entry.to_json(), r#"{"path":"src/lib.rs","totalUnits":4,"coveredUnits":3}"#);
    let reverse = ApiReverseData {
        total_units: 4,
        covered_units: 3,
        files: vec![entry],
    };
    assert_eq!(
        reverse.to_json(),
        r#"{"totalUnits":4,"coveredUnits":3,"files":[{"path":"src/lib.rs","totalUnits":4,"coveredUnits":3}]}"#
    );
    let parsed: serde_json::Value = serde_json::from_str(&reverse.to_json()).unwrap();
    assert_eq!(parsed["files"][0]["coveredUnits"], 3);
}

#[test]
fn file_and_spec_data_to_json() {
    let unit = ApiCodeUnit {
        kind: "function".to_string(),
        name: Some("login".to_string()),
        start_line: 3,
        end_line: 10,
        rule_refs: vec!["auth.login".to_string(), "api.fetch".to_string()],
    };
    assert_eq!(
        unit.to_json(),
        r#"{"kind":"function","name":"login","startLine":3,"endLine":10,"ruleRefs":["auth.login","api.fetch"]}"#
    );
    let file = ApiFileData {
        path: "src/lib.rs".to_string(),
        content: "fn a() {}\n".to_string(),
        units: vec![unit],
    };
    assert_eq!(
        file.to_json(),
        r#"{"path":"src/lib.rs","content":"fn a() {}\n","units":[{"kind":"function","name":"login","startLine":3,"endLine":10,"ruleRefs":["auth.login","api.fetch"]}]}"#
    );
    let spec = ApiSpecData {
        name: "test".to_string(),
        content: "# Spec".to_string(),
        source_file: None,
    };
    assert_eq!(spec.to_json(), r##"{"name":"test","content":"# Spec","sourceFile":null}"##);
    assert_eq!(version_json(17), r#"{"version":17}"#);
}

#[test]
fn simple_hash_is_fnv1a() {
    assert_eq!(simple_hash(""), 0xcbf29ce484222325);
    assert_eq!(simple_hash("a"), 0xaf63dc4c8601ec8c);
    assert_eq!(simple_hash("foobar"), 0x85944171f73967e8);
}

#[test]
fn content_hash_combines_the_two_documents() {
    let forward = ApiForwardData { specs: vec![] };
    let reverse = ApiReverseData { total_units: 0, covered_units: 0, files: vec![] };
    assert_eq!(
        content_hash(&forward, &reverse),
        simple_hash(r#"{"specs":[]}"#) ^ simple_hash(r#"{"totalUnits":0,"coveredUnits":0,"files":[]}"#)
    );
    let other = ApiReverseData { total_units: 1, covered_units: 0, files: vec![] };
    assert_ne!(content_hash(&forward, &reverse), content_hash(&forward, &other));
}

#[test]
fn simple_globs() {
    assert!(glob_match("src/lib.rs", "**/*.rs"));
    assert!(!glob_match("src/lib.md", "**/*.rs"));
    assert!(glob_match("docs/a.md", "**/*.md"));
    assert!(glob_match("crates/core/src/lib.rs", "crates/**/*.rs"));
    assert!(!glob_match("other/src/lib.rs", "crates/**/*.rs"));
    assert!(!glob_match("crates/readme.md", "crates/**/*.rs"));
    assert!(glob_match("docs/spec/a.md", "docs/**/*.md"));
    assert!(glob_match("vendor/x/y", "vendor/**"));
    assert!(!glob_match("src/x", "vendor/**"));
    assert!(glob_match("src/lib.rs", "src/lib.rs"));
    assert!(!glob_match("src/main.rs", "src/lib.rs"));
    assert!(!glob_match("anything", "src/*.rs"));
}

#[test]
fn other_globs_go_to_the_matcher() {
    assert!(glob_match("src/a.rs", "src/*.rs"));
    assert!(!glob_match("README.md", "src/*.rs"));
    assert!(glob_match("src/a.rs", "src/*.{rs,md}"));
    assert!(!glob_match("src/a.txt", "src/*.{rs,md}"));
    assert!(!glob_match("src/a.rs", "src/*.{rs"));
}

#[test]
fn directory_globs_stop_at_a_component() {
    assert!(!glob_match("srcfoo/x.rs", "src/**/*.rs"));
    assert!(glob_match("src/foo/x.rs", "src/**/*.rs"));
    assert!(!glob_match("docsx/a.md", "docs/**/*.md"));
    assert!(!glob_match("vendored/x", "vendor/**"));
    assert!(glob_match("vendor/x", "vendor/**"));
}

#[test]
fn glob_match_with_takes_the_verdict_only_for_other_shapes() {
    assert!(glob_match_with("a/b.rs", "a/*.rs", Some(true)));
    assert!(!glob_match_with("a/b.rs", "a/*.rs", Some(false)));
    assert!(!glob_match_with("a/b.rs", "a/*.rs", None));
    assert!(glob_match_with("a/b.rs", "**/*.rs", Some(false)));
    assert!(!glob_match_with("a/b.md", "a/**", None) == false);
    assert!(pattern_needs_matcher("a/*.rs"));
    assert!(!pattern_needs_matcher("a/**"));
    assert!(!pattern_needs_matcher("a/b.rs"));
}

fn source_ref(rule_id: &str, file: &str, line: usize, verb: RefVerb) -> SourceRef {
    SourceRef { rule_id: rule_id.to_string(), file: file.to_string(), line, verb }
}

fn info(id: &str) -> RuleInfo {
    RuleInfo {
        id: id.to_string(),
        text: Some(format!("text of {id}")),
        status: None,
        level: None,
        source_file: Some("requirements.md".to_string()),
        source_line: Some(1),
    }
}

fn refs() -> Vec<SourceRef> {
    vec![
        source_ref("auth.login", "/repo/src/lib.rs", 3, RefVerb::Impl),
        source_ref("auth.logout", "/repo/src/lib.rs", 9, RefVerb::Impl),
        source_ref("auth.login", "/repo/src/tests.rs", 4, RefVerb::Verify),
        source_ref("auth.login", "/elsewhere/x.rs", 1, RefVerb::Define),
        source_ref("auth.login", "/repo/src/a.rs", 7, RefVerb::Depends),
        source_ref("auth.login", "/repo/src/b.rs", 8, RefVerb::Related),
    ]
}

fn pairs(refs: &[ApiCodeRef]) -> Vec<(String, usize)> {
    refs.iter().map(|r| (r.file.clone(), r.line)).collect()
}

#[test]
fn forward_rule_sorts_references_into_lists() {
    let rule = forward_rule(&info("auth.login"), &refs(), "/repo");
    assert_eq!(rule.id, "auth.login");
    assert_eq!(rule.text, Some("text of auth.login".to_string()));
    assert_eq!(
        pairs(&rule.impl_refs),
        vec![("src/lib.rs".to_string(), 3), ("/elsewhere/x.rs".to_string(), 1)]
    );
    assert_eq!(pairs(&rule.verify_refs), vec![("src/tests.rs".to_string(), 4)]);
    assert_eq!(
        pairs(&rule.depends_refs),
        vec![("src/a.rs".to_string(), 7), ("src/b.rs".to_string(), 8)]
    );
    let none = forward_rule(&info("auth.other"), &refs(), "/repo");
    assert!(none.impl_refs.is_empty() && none.verify_refs.is_empty() && none.depends_refs.is_empty());
}

#[test]
fn spec_forward_is_sorted_by_id() {
    let manifest = vec![info("b.two"), info("a.one"), info("auth.login"), info("a.one.x")];
    let forward = build_spec_forward("test", &manifest, &refs(), "/repo");
    assert_eq!(forward.name, "test");
    let ids: Vec<&str> = forward.rules.iter().map(|r| r.id.as_str()).collect();
    assert_eq!(ids, vec!["a.one", "a.one.x", "auth.login", "b.two"]);
    assert_eq!(forward.rules[2].impl_refs.len(), 2);
}

#[test]
fn sort_by_key_is_stable_and_keeps_every_item() {
    let entries = vec![
        ApiFileEntry { path: "b".to_string(), total_units: 1, covered_units: 0 },
        ApiFileEntry { path: "a".to_string(), total_units: 2, covered_units: 0 },
        ApiFileEntry { path: "b".to_string(), total_units: 3, covered_units: 0 },
        ApiFileEntry { path: "".to_string(), total_units: 4, covered_units: 0 },
        ApiFileEntry { path: "ab".to_string(), total_units: 5, covered_units: 0 },
    ];
    let sorted = sort_by_key(entries);
    let seen: Vec<(&str, usize)> = sorted.iter().map(|e| (e.path.as_str(), e.total_units)).collect();
    assert_eq!(seen, vec![("", 4), ("a", 2), ("ab", 5), ("b", 1), ("b", 3)]);
}

fn unit(rule_refs: &[&str]) -> CodeUnit {
    CodeUnit {
        kind: "function".to_string(),
        name: None,
        start_line: 1,
        end_line: 2,
        rule_refs: rule_refs.iter().map(|s| s.to_string()).collect(),
    }
}

#[test]
fn reverse_counts_covered_units() {
    let files = vec![
        FileUnits {
            path: "/repo/src/z.rs".to_string(),
            units: vec![unit(&["a.b"]), unit(&[]), unit(&["a.b", "c.d"])],
        },
        FileUnits { path: "/repo/src/a.rs".to_string(), units: vec![unit(&[])] },
        FileUnits { path: "/other/b.rs".to_string(), units: vec![] },
    ];
    let entry = file_entry(&files[0], "/repo");
    assert_eq!((entry.path.as_str(), entry.total_units, entry.covered_units), ("src/z.rs", 3, 2));
    let reverse = build_reverse(&files, "/repo");
    assert_eq!(reverse.total_units, 4);
    assert_eq!(reverse.covered_units, 2);
    assert!(reverse.covered_units <= reverse.total_units);
    let paths: Vec<&str> = reverse.files.iter().map(|f| f.path.as_str()).collect();
    assert_eq!(paths, vec!["/other/b.rs", "src/a.rs", "src/z.rs"]);
    for file in &reverse.files {
        assert!(file.covered_units <= file.total_units);
    }
}

#[test]
fn directories_roll_up_their_files() {
    let entry = |path: &str, total_units: usize, covered_units: usize| ApiFileEntry {
        path: path.to_string(),
        total_units,
        covered_units,
    };
    let files = vec![
        entry("src/a.rs", 4, 2),
        entry("src/deep/b.rs", 3, 3),
        entry("srcs/c.rs", 5, 1),
        entry("tests/d.rs", 2, 0),
        entry("src/odd.rs", 1, 9),
    ];
    let src = directory_coverage(&files, "src");
    assert_eq!((src.path.as_str(), src.total_units, src.covered_units), ("src", 8, 6));
    let deep = directory_coverage(&files, "src/deep");
    assert_eq!((deep.total_units, deep.covered_units), (3, 3));
    let file = directory_coverage(&files, "tests/d.rs");
    assert_eq!((file.total_units, file.covered_units), (2, 0));
    let all = directory_coverage(&files, "");
    assert_eq!((all.total_units, all.covered_units), (15, 7));
    let none = directory_coverage(&files, "docs");
    assert_eq!((none.total_units, none.covered_units), (0, 0));
    assert!(src.covered_units <= src.total_units);
}

#[test]
fn definitions_and_references_become_dashboard_values() {
    let found = tracey::spec_loader::scan_spec_file("doc.md", "r[a.b+2]\nText.\n\nr[c.d]\nMore.\n");
    let infos = rule_infos(&found.definitions);
    assert_eq!(infos.len(), 2);
    assert_eq!(infos[0].id, "a.b+2");
    assert_eq!(infos[0].text, Some("\nText.\n\n".to_string()));
    assert_eq!(infos[0].source_file, Some("doc.md".to_string()));
    assert_eq!(infos[1].source_line, Some(4));
    assert_eq!((infos[1].status.clone(), infos[1].level.clone()), (None, None));

    let source = "// r[impl a.b+2]\n// s[verify c.d]\n// r[depends c.d]\n";
    let refs = tracey::source::scan_source_file("src/x.rs", source);
    let kept = source_refs(&refs, "r");
    let seen: Vec<(&str, &str, usize, RefVerb)> =
        kept.iter().map(|r| (r.rule_id.as_str(), r.file.as_str(), r.line, r.verb)).collect();
    assert_eq!(
        seen,
        vec![("a.b+2", "src/x.rs", 1, RefVerb::Impl), ("c.d", "src/x.rs", 3, RefVerb::Depends)]
    );
    assert!(source_refs(&refs, "t").is_empty());

    let file = whole_file_unit("src/x.rs", source, &refs);
    assert_eq!(file.path, "src/x.rs");
    assert_eq!(file.units.len(), 1);
    assert_eq!(file.units[0].kind, "file");
    assert_eq!((file.units[0].start_line, file.units[0].end_line), (1, 3));
    assert_eq!(file.units[0].rule_refs, vec!["a.b+2".to_string(), "c.d".to_string(), "c.d".to_string()]);
    assert_eq!(whole_file_unit("e", "", &vec![]).units[0].end_line, 1);
    assert_eq!(whole_file_unit("e", "a", &vec![]).units[0].end_line, 1);
    assert_eq!(whole_file_unit("e", "a\nb", &vec![]).units[0].end_line, 2);
    assert_eq!(whole_file_unit("e", "\n", &vec![]).units[0].end_line, 1);
}
