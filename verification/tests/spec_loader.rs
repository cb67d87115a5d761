use tracey::config::{Config, Impl, SpecConfig};
use tracey::index::Definition;
use tracey::marker::{RefVerb, RuleId};
use tracey::spec_loader::{
    is_spec_path, config_error, duplicate_definitions, infer_prefix, load_spec_file, merge_definitions,
    role_of, scan_spec_file, MarkdownRole, PrefixError,
};

fn definitions(text: &str) -> Vec<(String, usize, String)> {
    scan_spec_file("doc.md", text)
        .definitions
        .into_iter()
        .map(|d| (d.id.render(), d.line, d.text))
        .collect()
}

#[test]
fn definitions_carry_their_bodies() {
    let text = "# Spec\n\nr[auth.login]\nUsers must log in.\n\nr[auth.logout+2]\nUsers must log out.\n\n## Next\n\nProse.\n";
    assert_eq!(
        definitions(text),
        vec![
            ("auth.login".to_string(), 3, "\nUsers must log in.\n\n".to_string()),
            ("auth.logout+2".to_string(), 6, "\nUsers must log out.\n\n".to_string()),
        ]
    );
    let found = scan_spec_file("doc.md", text);
    assert_eq!(found.definitions[0].file, "doc.md");
    assert_eq!(found.definitions[0].prefix, "r");
    assert_eq!((found.definitions[0].start, found.definitions[0].end), (8, 21));
    assert!(found.definitions[0].previous_text.is_none());
    assert!(found.references.is_empty());
}

#[test]
fn a_body_runs_to_the_end_of_the_text() {
    assert_eq!(
        definitions("r[a.b] tail é"),
        vec![("a.b".to_string(), 1, " tail é".to_string())]
    );
    assert_eq!(definitions("r[a.b]"), vec![("a.b".to_string(), 1, String::new())]);
    assert_eq!(
        definitions("r[a.b]r[c.d]x"),
        vec![("a.b".to_string(), 1, String::new()), ("c.d".to_string(), 1, "x".to_string())]
    );
}

#[test]
fn blockquotes_define_rules() {
    let found = scan_spec_file("doc.md", "\n> r[alpha.rule]\n> Alpha rule definition.\n");
    assert_eq!(found.definitions.len(), 1);
    assert_eq!(found.definitions[0].id.base, "alpha.rule");
    assert_eq!(found.definitions[0].line, 2);
    assert_eq!(found.definitions[0].text, "\n> Alpha rule definition.\n");
}

#[test]
fn markers_in_fenced_code_are_nothing() {
    let text = "r[a.b]\nText.\n\n```\nr[c.d]\nr[impl a.b]\n```\n\n~~~rust\n// r[e.f]\n~~~\n\nr[g.h]\nMore.\n";
    let found = scan_spec_file("doc.md", text);
    let bases: Vec<&str> = found.definitions.iter().map(|d| d.id.base.as_str()).collect();
    assert_eq!(bases, vec!["a.b", "g.h"]);
    assert!(found.references.is_empty());
}

#[test]
fn markers_in_inline_code_are_references() {
    let text = "r[auth.login]\nSee `r[auth.login]` and `r[impl auth.typo]` and r[verify auth.login] for details.\n";
    let found = scan_spec_file("doc.md", text);
    assert_eq!(found.definitions.len(), 1);
    let refs: Vec<(String, RefVerb, usize)> =
        found.references.iter().map(|r| (r.id.render(), r.verb, r.line)).collect();
    assert_eq!(
        refs,
        vec![
            ("auth.login".to_string(), RefVerb::Related, 2),
            ("auth.typo".to_string(), RefVerb::Impl, 2),
            ("auth.login".to_string(), RefVerb::Verify, 2),
        ]
    );
    assert_eq!(found.definitions[0].text, "\nSee `r[auth.login]` and `r[impl auth.typo]` and r[verify auth.login] for details.\n");
}

#[test]
fn indented_specs_are_read_without_their_indentation() {
    let text = "    r[a.b]\n    Text.\n\n    ```\n    r[c.d]\n    ```\n\n    r[e.f]\n";
    let found = scan_spec_file("doc.md", text);
    let bases: Vec<(&str, usize)> =
        found.definitions.iter().map(|d| (d.id.base.as_str(), d.start)).collect();
    assert_eq!(bases, vec![("a.b", 4), ("e.f", 54)]);
}

#[test]
fn roles_go_by_verb_and_place() {
    assert_eq!(role_of(None, false), MarkdownRole::Definition);
    assert_eq!(role_of(Some(RefVerb::Define), false), MarkdownRole::Definition);
    assert_eq!(role_of(None, true), MarkdownRole::Reference(RefVerb::Related));
    assert_eq!(role_of(Some(RefVerb::Define), true), MarkdownRole::Reference(RefVerb::Related));
    assert_eq!(role_of(Some(RefVerb::Impl), false), MarkdownRole::Reference(RefVerb::Impl));
    assert_eq!(role_of(Some(RefVerb::Verify), true), MarkdownRole::Reference(RefVerb::Verify));
}

#[test]
fn given_masks_are_obeyed() {
    let text = "r[a.b] r[c.d] r[e.f]";
    let mut code = vec![false; text.len()];
    let mut fence = vec![false; text.len()];
    code[7] = true;
    code[14] = true;
    fence[14] = true;
    let found = load_spec_file("doc.md", text, &code, &fence);
    assert_eq!(found.definitions.len(), 1);
    assert_eq!(found.definitions[0].text, " r[c.d] r[e.f]");
    assert_eq!(found.references.len(), 1);
    assert_eq!(found.references[0].id.base, "c.d");
    assert_eq!(found.references[0].verb, RefVerb::Related);
}

fn definition(base: &str, version: u32, text: &str) -> Definition {
    Definition {
        id: RuleId { base: base.to_string(), version },
        prefix: "r".to_string(),
        file: "doc.md".to_string(),
        line: 1,
        start: 0,
        end: 1,
        text: text.to_string(),
        previous_text: None,
        previous_version: None,
    }
}

fn merged(found: &[Definition]) -> Vec<(String, u32, String, Option<String>, Option<u32>)> {
    merge_definitions(&found.to_vec())
        .into_iter()
        .map(|d| (d.id.base, d.id.version, d.text, d.previous_text, d.previous_version))
        .collect()
}

#[test]
fn the_latest_version_counts_and_keeps_the_one_before() {
    let found = vec![
        definition("a.b", 1, "one"),
        definition("c.d", 1, "other"),
        definition("a.b", 3, "three"),
        definition("a.b", 2, "two"),
    ];
    assert_eq!(
        merged(&found),
        vec![
            ("a.b".to_string(), 3, "three".to_string(), Some("two".to_string()), Some(2)),
            ("c.d".to_string(), 1, "other".to_string(), None, None),
        ]
    );
    let found = vec![
        definition("a.b", 3, "three"),
        definition("a.b", 1, "one"),
        definition("a.b", 2, "two"),
        definition("a.b", 1, "again"),
        definition("a.b", 3, "repeat"),
    ];
    assert_eq!(
        merged(&found),
        vec![("a.b".to_string(), 3, "three".to_string(), Some("two".to_string()), Some(2))]
    );
    assert!(merged(&[]).is_empty());
}

#[test]
fn a_bumped_rule_keeps_its_previous_text() {
    let text = "r[auth.login]\nUsers must log in.\n\nr[auth.login+2]\nUsers MUST log in with two factors.\n";
    let found = scan_spec_file("doc.md", text);
    let rules = merge_definitions(&found.definitions);
    assert_eq!(rules.len(), 1);
    assert_eq!(rules[0].id.render(), "auth.login+2");
    assert_eq!(rules[0].text, "\nUsers MUST log in with two factors.\n");
    assert_eq!(rules[0].previous_text, Some("\nUsers must log in.\n\n".to_string()));
    assert_eq!(rules[0].previous_version, Some(1));
}

#[test]
fn repeated_definitions_are_found() {
    let found = vec![
        definition("a.b", 1, ""),
        definition("c.d", 1, ""),
        definition("a.b", 2, ""),
        definition("a.b", 1, ""),
        definition("c.d", 1, ""),
        definition("a.b", 1, ""),
    ];
    assert_eq!(duplicate_definitions(&found), vec![3, 4, 5]);
    assert!(duplicate_definitions(&vec![]).is_empty());
}

#[test]
fn a_spec_uses_one_prefix() {
    let with_prefix = |prefix: &str| {
        let mut d = definition("a.b", 1, "");
        d.prefix = prefix.to_string();
        d
    };
    assert_eq!(
        infer_prefix(&vec![with_prefix("r"), with_prefix("r")]).ok(),
        Some("r".to_string())
    );
    match infer_prefix(&vec![]) {
        Err(PrefixError::NoDefinitions) => {}
        other => panic!("unexpected {:?}", other),
    }
    match infer_prefix(&vec![with_prefix("r"), with_prefix("r"), with_prefix("shm"), with_prefix("x")]) {
        Err(PrefixError::Conflicting { first, other }) => {
            assert_eq!(first, "r");
            assert_eq!(other, "shm");
        }
        other => panic!("unexpected {:?}", other),
    }
}

fn spec(name: &str, prefix: Option<&str>) -> SpecConfig {
    SpecConfig {
        name: name.to_string(),
        prefix: prefix.map(|p| p.to_string()),
        source_url: None,
        includes: vec![],
        impls: vec![Impl {
            name: "rust".to_string(),
            includes: vec![],
            exclude: vec![],
            test_include: vec![],
        }],
    }
}

#[test]
fn a_deprecated_prefix_is_a_config_error() {
    let config = Config { specs: vec![spec("one", None), spec("test", Some("r")), spec("x", Some("y"))] };
    let error = config_error(&config).expect("the prefix is deprecated");
    assert!(error.contains("deprecated `prefix r`"));
    assert_eq!(
        error,
        "spec `test` sets the deprecated `prefix r`; remove it: the prefix is inferred from the markers in the spec's files"
    );
    assert_eq!(config_error(&Config { specs: vec![spec("one", None)] }), None);
    assert_eq!(config_error(&Config::default()), None);
}

#[test]
fn prefix_errors_name_the_spec() {
    assert_eq!(PrefixError::NoDefinitions.message("test"), "spec `test` defines no rule");
    let error = PrefixError::Conflicting { first: "r".to_string(), other: "shm".to_string() };
    assert_eq!(error.message("test"), "spec `test` uses more than one prefix: `r` and `shm`");
}

#[test]
fn spec_files_are_markdown_files_that_a_glob_names() {
    let includes = vec!["docs/**/*.md".to_string(), "*.rs".to_string()];
    assert!(is_spec_path("docs/a/b.md", &includes));
    assert!(!is_spec_path("docs/a/b.txt", &includes));
    assert!(!is_spec_path("other/b.md", &includes));
    assert!(!is_spec_path("lib.rs", &includes));
    assert!(!is_spec_path("docs/a/b.md", &vec![]));
}
