use tracey::cli::{
    bridge_log_path, cli_version_text, parse_register_args, parse_rule_ids, parse_spec_impl,
    registration_outcome, tail_start, RegisterError, RegisterRequest,
};
use tracey::web::{
    decoded_or_empty, is_forwarded_header, is_ignored_path, proxy_target, query_param, search_limit,
    static_asset, Asset, QueryParam, DEFAULT_SEARCH_LIMIT,
};

#[test]
fn version_text_shows_what_the_build_recorded() {
    assert_eq!(cli_version_text("1.2.3", None, None), "1.2.3");
    assert_eq!(cli_version_text("1.2.3", Some("abc123"), None), "1.2.3 (abc123)");
    assert_eq!(
        cli_version_text("1.2.3", Some("abc123"), Some("2026-01-02")),
        "1.2.3 (abc123 2026-01-02)"
    );
    assert_eq!(
        cli_version_text("1.2.3", None, Some("2026-01-02")),
        "1.2.3 (built 2026-01-02)"
    );
}

fn strings(args: &[&str]) -> Vec<String> {
    args.iter().map(|s| s.to_string()).collect()
}

#[test]
fn registration_targets_follow_the_flags() {
    let parse = |args: &[&str]| parse_register_args(&strings(args), "--one", "--two");
    match parse(&[]) {
        RegisterRequest::Targets { first: true, second: true } => {}
        other => panic!("unexpected {:?}", other),
    }
    match parse(&["--one"]) {
        RegisterRequest::Targets { first: true, second: false } => {}
        other => panic!("unexpected {:?}", other),
    }
    match parse(&["--two", "--two"]) {
        RegisterRequest::Targets { first: false, second: true } => {}
        other => panic!("unexpected {:?}", other),
    }
    match parse(&["--two", "--one"]) {
        RegisterRequest::Targets { first: true, second: true } => {}
        other => panic!("unexpected {:?}", other),
    }
    match parse(&["--one", "-h", "--bogus"]) {
        RegisterRequest::Help => {}
        other => panic!("unexpected {:?}", other),
    }
    match parse(&["--help"]) {
        RegisterRequest::Help => {}
        other => panic!("unexpected {:?}", other),
    }
    match parse(&["--one", "--bogus", "--help"]) {
        RegisterRequest::Unknown(arg) => assert_eq!(arg, "--bogus"),
        other => panic!("unexpected {:?}", other),
    }
}

#[test]
fn registration_outcomes() {
    assert_eq!(registration_outcome(2, 1), Ok(1));
    assert_eq!(registration_outcome(2, 2), Ok(2));
    assert_eq!(registration_outcome(0, 0), Err(RegisterError::NoClientSelected));
    assert_eq!(registration_outcome(2, 0), Err(RegisterError::NoneSucceeded));
}

#[test]
fn spec_impl_splits_at_the_first_slash() {
    assert_eq!(parse_spec_impl(None), (None, None));
    assert_eq!(
        parse_spec_impl(Some("my-spec/rust")),
        (Some("my-spec".to_string()), Some("rust".to_string()))
    );
    assert_eq!(parse_spec_impl(Some("my-spec")), (Some("my-spec".to_string()), None));
    assert_eq!(
        parse_spec_impl(Some("a/b/c")),
        (Some("a".to_string()), Some("b/c".to_string()))
    );
    assert_eq!(parse_spec_impl(Some("a/")), (Some("a".to_string()), Some(String::new())));
    assert_eq!(parse_spec_impl(Some("")), (Some(String::new()), None));
}

#[test]
fn rule_ids_of_a_query_are_read_in_order() {
    let parsed = parse_rule_ids(&strings(&["auth.login", "a.b+3"])).unwrap();
    let seen: Vec<(&str, u32)> = parsed.iter().map(|r| (r.base.as_str(), r.version)).collect();
    assert_eq!(seen, vec![("auth.login", 1), ("a.b", 3)]);
    assert_eq!(
        parse_rule_ids(&strings(&["auth.login", "Bad", "also bad"])).unwrap_err(),
        "invalid rule ID: Bad"
    );
    assert!(parse_rule_ids(&vec![]).unwrap().is_empty());
}

#[test]
fn the_tail_of_a_log_starts_late() {
    assert_eq!(tail_start(100, 50), 50);
    assert_eq!(tail_start(50, 50), 0);
    assert_eq!(tail_start(10, 50), 0);
    assert_eq!(tail_start(0, 0), 0);
    assert_eq!(tail_start(7, 0), 7);
}

#[test]
fn bridge_logs_are_named_by_bridge_and_process() {
    assert_eq!(bridge_log_path("/repo", "mcp", 4711), "/repo/.tracey/mcp-4711.log");
    assert_eq!(bridge_log_path("/repo/", "lsp", 1), "/repo/.tracey/lsp-1.log");
}

#[test]
fn the_dashboard_ignores_build_directories() {
    assert!(is_ignored_path("/repo/node_modules/x/index.js"));
    assert!(is_ignored_path("/repo/target/debug/build.rs"));
    assert!(is_ignored_path("/repo/.git/HEAD"));
    assert!(is_ignored_path("dashboard/src/app.tsx"));
    assert!(is_ignored_path("/repo/dashboard"));
    assert!(is_ignored_path("/repo/.vite/deps"));
    assert!(!is_ignored_path("/repo/src/lib.rs"));
    assert!(!is_ignored_path("/repo/targets/x"));
    assert!(!is_ignored_path("/repo/my.git/x"));
    assert!(!is_ignored_path(""));
    assert!(!is_ignored_path("/"));
}

#[test]
fn assets_go_by_their_ending() {
    assert_eq!(static_asset("index-CPUJscSr.js"), Asset::Script);
    assert_eq!(static_asset("index-DxtBNHQk.css"), Asset::Style);
    assert_eq!(static_asset("logo.png"), Asset::NotFound);
    assert_eq!(static_asset("js"), Asset::NotFound);
    assert_eq!(static_asset(".js"), Asset::Script);
}

#[test]
fn requests_are_proxied_to_the_dev_server() {
    assert_eq!(
        proxy_target(false, 5173, "/src/main.tsx", None),
        "http://127.0.0.1:5173/src/main.tsx"
    );
    assert_eq!(
        proxy_target(false, 5173, "/@vite/client", Some("t=1&x=y")),
        "http://127.0.0.1:5173/@vite/client?t=1&x=y"
    );
    assert_eq!(proxy_target(true, 80, "/", Some("")), "ws://127.0.0.1:80/?");
    assert_eq!(proxy_target(true, 65535, "", None), "ws://127.0.0.1:65535");
}

fn params(pairs: &[(&str, &str)]) -> Vec<QueryParam> {
    pairs
        .iter()
        .map(|(name, value)| QueryParam { name: name.to_string(), value: value.to_string() })
        .collect()
}

#[test]
fn query_parameters_are_decoded() {
    let query = params(&[("path", "src%2Fmy%20file.rs"), ("q", "a+b"), ("path", "second"), ("bad", "%ff")]);
    assert_eq!(query_param(&query, "path"), "src/my file.rs");
    assert_eq!(query_param(&query, "q"), "a+b");
    assert_eq!(query_param(&query, "missing"), "");
    assert_eq!(query_param(&query, "bad"), "");
    assert_eq!(query_param(&vec![], "path"), "");
    assert_eq!(query_param(&params(&[("name", "%C3%A9")]), "name"), "é");
    assert_eq!(decoded_or_empty(None), "");
    assert_eq!(decoded_or_empty(Some("x".to_string())), "x");
}

#[test]
fn the_search_limit_has_a_default() {
    assert_eq!(DEFAULT_SEARCH_LIMIT, 50);
    assert_eq!(search_limit(&vec![]), 50);
    assert_eq!(search_limit(&params(&[("q", "x")])), 50);
    assert_eq!(search_limit(&params(&[("limit", "7")])), 7);
    assert_eq!(search_limit(&params(&[("limit", "0")])), 0);
    assert_eq!(search_limit(&params(&[("limit", "many")])), 50);
    assert_eq!(search_limit(&params(&[("limit", "")])), 50);
    assert_eq!(search_limit(&params(&[("limit", "-1")])), 50);
    assert_eq!(search_limit(&params(&[("limit", "3"), ("limit", "9")])), 3);
}

#[test]
fn the_host_header_is_not_passed_on() {
    assert!(!is_forwarded_header("host"));
    assert!(is_forwarded_header("accept"));
    assert!(is_forwarded_header("x-host"));
    assert!(is_forwarded_header(""));
}
