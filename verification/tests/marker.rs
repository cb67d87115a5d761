use tracey::source::{source_mask, suppression_mask};
use tracey::marker::{all_eligible, parse_rule_id, scan_markers, RefVerb, RuleId};
use tracey::source::{comment_mask, scan_source_file};

fn id(text: &str) -> Option<(String, u32)> {
    parse_rule_id(text).map(|r| (r.base, r.version))
}

#[test]
fn rule_ids_parse() {
    assert_eq!(id("auth.login"), Some(("auth.login".to_string(), 1)));
    assert_eq!(id("auth.login+2"), Some(("auth.login".to_string(), 2)));
    assert_eq!(id("config.spec.name"), Some(("config.spec.name".to_string(), 1)));
    assert_eq!(id("config.spec.source-url"), Some(("config.spec.source-url".to_string(), 1)));
    assert_eq!(id("a1.b2-c3+40"), Some(("a1.b2-c3".to_string(), 40)));
    assert_eq!(id("a.b+0"), Some(("a.b".to_string(), 0)));
    assert_eq!(id("a.b+007"), Some(("a.b".to_string(), 7)));
    assert_eq!(id("a.b+4294967295"), Some(("a.b".to_string(), u32::MAX)));
}

#[test]
fn malformed_rule_ids_are_refused() {
    for text in [
        "", "auth", "auth.", ".login", "auth..login", "Auth.login", "auth.Login", "1a.b",
        "a.1b", "a-b.c", "a.-b", "auth.login+", "auth.login+x", "auth.login+2+3",
        "auth.login+-1", "auth.login+4294967296", "auth login", "auth.login ", " auth.login",
        "a.b_c", "é.b", "a.b+2 ",
    ] {
        assert_eq!(id(text), None, "{text:?} is no rule id");
    }
}

#[test]
fn a_trailing_hyphen_is_part_of_a_component() {
    assert_eq!(id("a.b-c-"), Some(("a.b-c-".to_string(), 1)));
    assert_eq!(id("a.b--c"), Some(("a.b--c".to_string(), 1)));
}

#[test]
fn rule_ids_render() {
    let render = |base: &str, version: u32| RuleId { base: base.to_string(), version }.render();
    assert_eq!(render("auth.login", 1), "auth.login");
    assert_eq!(render("auth.login", 2), "auth.login+2");
    assert_eq!(render("auth.login", 0), "auth.login+0");
    assert_eq!(render("auth.login", u32::MAX), "auth.login+4294967295");
    for text in ["auth.login", "auth.login+2", "a.b-c+17"] {
        assert_eq!(parse_rule_id(text).unwrap().render(), text);
    }
    let a = parse_rule_id("a.b+2").unwrap();
    assert!(a.same(&parse_rule_id("a.b+2").unwrap()));
    assert!(!a.same(&parse_rule_id("a.b").unwrap()));
    assert!(!a.same(&parse_rule_id("a.c+2").unwrap()));
}

fn scan(text: &str) -> Vec<(String, Option<RefVerb>, String, usize, usize, usize)> {
    scan_markers(text, &all_eligible(text.len()))
        .into_iter()
        .map(|m| (m.prefix, m.verb, m.id.render(), m.start, m.id_start, m.end))
        .collect()
}

#[test]
fn markers_are_found() {
    assert_eq!(
        scan("see r[impl auth.login] and shm[verify a.b+3]; r[c.d]"),
        vec![
            ("r".to_string(), Some(RefVerb::Impl), "auth.login".to_string(), 4, 11, 22),
            ("shm".to_string(), Some(RefVerb::Verify), "a.b+3".to_string(), 27, 38, 44),
            ("r".to_string(), None, "c.d".to_string(), 46, 48, 52),
        ]
    );
    assert_eq!(
        scan("r[depends a.b]r[related a.b]r[define a.b]"),
        vec![
            ("r".to_string(), Some(RefVerb::Depends), "a.b".to_string(), 0, 10, 14),
            ("r".to_string(), Some(RefVerb::Related), "a.b".to_string(), 14, 24, 28),
            ("r".to_string(), Some(RefVerb::Define), "a.b".to_string(), 28, 37, 41),
        ]
    );
}

#[test]
fn what_is_no_marker_is_passed_over() {
    for text in [
        "", "r", "r[", "r[]", "[a.b]", "R[a.b]", "r [a.b]", "r[a]", "r[impl]", "r[impl  a.b]",
        "r[Impl a.b]", "r[a.b", "r[a.b c.d]", "1[a.b]", "r[implements a.b]", "r[a.b\n]",
    ] {
        assert!(scan(text).is_empty(), "{text:?} holds no marker");
    }
    assert_eq!(scan("xr[a.b]").len(), 1);
    assert_eq!(scan("xr[a.b]")[0].0, "xr");
    assert_eq!(scan("r[x] r[a.b]").len(), 1);
    assert_eq!(scan("é r[a.b] é")[0].3, 3);
    assert_eq!(scan("r[r[a.b]]").len(), 1);
    assert_eq!(scan("r[r[a.b]]")[0].3, 2);
}

#[test]
fn the_mask_decides_where_markers_start() {
    let text = "r[a.b] r[c.d] r[e.f]";
    let mut mask = vec![true; text.len()];
    mask[7] = false;
    let found = scan_markers(text, &mask);
    assert_eq!(found.len(), 2);
    assert_eq!(found[1].id.base, "e.f");
    assert!(scan_markers(text, &[]).is_empty());
    assert_eq!(scan_markers(text, &[true]).len(), 1);
    assert!(scan_markers(text, &vec![false; text.len()]).is_empty());
}

#[test]
fn comments_are_masked() {
    let text = "a // b\nc /* d\ne */ f \"//g\" h";
    let mask = comment_mask(text);
    let shown: String = mask.iter().map(|&m| if m { '#' } else { '.' }).collect();
    assert_eq!(shown, "..####...#########..........");
    assert_eq!(mask.len(), text.len());
    let mask = comment_mask("\"a\\\"//b\" // c");
    let shown: String = mask.iter().map(|&m| if m { '#' } else { '.' }).collect();
    assert_eq!(shown, ".........####");
    assert!(comment_mask("").is_empty());
    let shown: String = comment_mask("/").iter().map(|&m| if m { '#' } else { '.' }).collect();
    assert_eq!(shown, ".");
    let shown: String = comment_mask("/*/ x").iter().map(|&m| if m { '#' } else { '.' }).collect();
    assert_eq!(shown, "#####");
}

#[test]
fn source_references_come_from_comments_only() {
    let source = "\
/// r[impl auth.login]
fn login() { let s = \"r[impl in.string]\"; } // r[verify auth.login+2]
/* r[auth.session]
   r[define auth.logout] */
fn r() { x.r[impl not.comment] }
";
    let refs = scan_source_file("src/lib.rs", source);
    let seen: Vec<(String, RefVerb, String, usize)> = refs
        .iter()
        .map(|r| (r.prefix.clone(), r.verb, r.id.render(), r.line))
        .collect();
    assert_eq!(
        seen,
        vec![
            ("r".to_string(), RefVerb::Impl, "auth.login".to_string(), 1),
            ("r".to_string(), RefVerb::Verify, "auth.login+2".to_string(), 2),
            ("r".to_string(), RefVerb::Impl, "auth.session".to_string(), 3),
            ("r".to_string(), RefVerb::Impl, "auth.logout".to_string(), 4),
        ]
    );
    assert_eq!(refs[0].file, "src/lib.rs");
    assert_eq!((refs[0].start, refs[0].end), (4, 22));
    assert_eq!(&source[refs[1].start..refs[1].end], "r[verify auth.login+2]");
}

#[test]
fn pragmas_suppress_lines_and_regions() {
    let source = "\
// r[impl a.one]
// @tracey:ignore-next-line
// r[impl a.two]
// r[impl a.three]
// @tracey:ignore-start
// r[impl a.four]
fn f() {}
// r[impl a.five] @tracey:ignore-end
// r[impl a.six]
// @tracey:ignore-start r[impl a.seven]
// r[impl a.eight]
";
    let refs = scan_source_file("src/lib.rs", source);
    let bases: Vec<(&str, usize)> = refs.iter().map(|r| (r.id.base.as_str(), r.line)).collect();
    assert_eq!(
        bases,
        vec![("a.one", 1), ("a.three", 4), ("a.six", 9), ("a.seven", 10)]
    );
}

#[test]
fn suppression_is_counted_line_by_line() {
    let text = "a\n@tracey:ignore-next-line\nbc\nd";
    let shown: String = suppression_mask(text).iter().map(|&m| if m { '#' } else { '.' }).collect();
    assert_eq!(shown, "...........................###.");
    assert!(suppression_mask("").is_empty());
    let text = "// x\n// @tracey:ignore-next-line\n// y\nz // w";
    let shown: String = source_mask(text).iter().map(|&m| if m { '#' } else { '.' }).collect();
    assert_eq!(shown, "####.###########################........####");
}

#[test]
fn written_rule_ids_read_back() {
    for (base, version) in [("a.b", 1u32), ("a.b", 0), ("a.b", 2), ("x9.y-z.w", 4294967295), ("auth.login", 10)] {
        let id = RuleId { base: base.to_string(), version };
        let back = parse_rule_id(&id.render()).expect("a written id is an id");
        assert_eq!((back.base.as_str(), back.version), (base, version));
    }
}
