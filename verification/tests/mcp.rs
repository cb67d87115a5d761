use tracey::mcp::{mcp_routing_diagnostics, RootRefreshState, Startup};
use tracey::mcp::trace_enabled;
use tracey::mcp::{
    first_usable_root, format_root_entry, parse_required_cwd, plan_tool_call, roots_summary,
    select_project_root_from_roots, Root, ToolArgs, ToolCall, ToolPlan,
};

fn root(name: Option<&str>, uri: &str) -> Root {
    Root { name: name.map(|n| n.to_string()), uri: uri.to_string() }
}

#[test]
fn select_project_root_from_roots_skips_non_file_uris() {
    let roots = vec![
        root(Some("bad"), "https://example.com/repo"),
        root(Some("good"), "file:///tmp/workspace"),
    ];

    let selected = select_project_root_from_roots(&roots);
    assert_eq!(selected, Some("/tmp/workspace".to_string()));
}

#[test]
fn select_project_root_from_roots_returns_none_when_unusable() {
    let roots = vec![root(None, "not-a-uri")];

    assert_eq!(select_project_root_from_roots(&roots), None);
}

#[test]
fn select_project_root_decodes_the_path() {
    let roots = vec![root(None, "file:///tmp/my%20work")];
    assert_eq!(select_project_root_from_roots(&roots), Some("/tmp/my work".to_string()));
    assert_eq!(select_project_root_from_roots(&vec![]), None);
}

#[test]
fn format_root_entry_prefers_name_when_available() {
    let root = root(Some("trame"), "file:///Users/amos/bearcove/trame");
    assert_eq!(
        format_root_entry(&root),
        "trame: file:///Users/amos/bearcove/trame"
    );
}

#[test]
fn format_root_entry_uses_uri_when_name_missing() {
    let root = root(None, "file:///Users/amos/bearcove/trame");
    assert_eq!(
        format_root_entry(&root),
        "file:///Users/amos/bearcove/trame"
    );
}

#[test]
fn format_root_entry_uses_uri_when_name_empty() {
    assert_eq!(format_root_entry(&root(Some(""), "file:///x")), "file:///x");
}

#[test]
fn parse_required_cwd_rejects_missing_value() {
    let error = parse_required_cwd(None).unwrap_err();
    assert_eq!(
        error,
        "Error: missing required `cwd` argument (absolute workspace path)"
    );
}

#[test]
fn parse_required_cwd_rejects_relative_paths() {
    let error = parse_required_cwd(Some(".")).unwrap_err();
    assert_eq!(error, "Error: `cwd` must be an absolute path, got `.`");
}

#[test]
fn parse_required_cwd_trims_and_accepts_absolute_paths() {
    assert_eq!(parse_required_cwd(Some("  /repo \n")), Ok("/repo".to_string()));
    assert_eq!(parse_required_cwd(Some("/")), Ok("/".to_string()));
    assert_eq!(
        parse_required_cwd(Some(" \t ")),
        Err("Error: `cwd` must not be empty".to_string())
    );
    assert_eq!(
        parse_required_cwd(Some("")),
        Err("Error: `cwd` must not be empty".to_string())
    );
    assert_eq!(
        parse_required_cwd(Some(" src/lib ")),
        Err("Error: `cwd` must be an absolute path, got `src/lib`".to_string())
    );
    assert_eq!(parse_required_cwd(Some("\u{a0}/repo\u{3000}")), Ok("/repo".to_string()));
}

#[test]
fn first_usable_root_picks_the_first_path() {
    assert_eq!(first_usable_root(&vec![]), None);
    assert_eq!(first_usable_root(&vec![None, None]), None);
    assert_eq!(
        first_usable_root(&vec![None, Some("/a".to_string()), Some("/b".to_string())]),
        Some(1)
    );
}

fn args(cwd: Option<&str>) -> ToolArgs {
    ToolArgs {
        cwd: cwd.map(|s| s.to_string()),
        spec_impl: None,
        prefix: None,
        path: None,
        rule_id: None,
        pattern: None,
    }
}

#[test]
fn tool_call_without_cwd_is_refused() {
    match plan_tool_call("tracey_status", args(None)) {
        ToolPlan::InvalidCwd(error) => assert_eq!(
            error,
            "Error: missing required `cwd` argument (absolute workspace path)"
        ),
        other => panic!("unexpected plan {:?}", other),
    }
    match plan_tool_call("tracey_rule", args(Some("relative"))) {
        ToolPlan::InvalidCwd(error) => {
            assert_eq!(error, "Error: `cwd` must be an absolute path, got `relative`")
        }
        other => panic!("unexpected plan {:?}", other),
    }
}

#[test]
fn status_and_config_carry_the_routing_diagnostics() {
    match plan_tool_call("tracey_status", args(Some("/repo"))) {
        ToolPlan::Call { call: ToolCall::Status(tool), with_diagnostics } => {
            assert_eq!(tool.cwd, "/repo");
            assert!(with_diagnostics);
        }
        other => panic!("unexpected plan {:?}", other),
    }
    match plan_tool_call("tracey_config", args(Some("/repo"))) {
        ToolPlan::Call { call: ToolCall::Config(_), with_diagnostics } => assert!(with_diagnostics),
        other => panic!("unexpected plan {:?}", other),
    }
    match plan_tool_call("tracey_reload", args(Some("/repo"))) {
        ToolPlan::Call { call: ToolCall::Reload(_), with_diagnostics } => assert!(!with_diagnostics),
        other => panic!("unexpected plan {:?}", other),
    }
}

#[test]
fn tools_take_their_arguments() {
    let mut a = args(Some(" /repo "));
    a.spec_impl = Some("spec/rust".to_string());
    a.prefix = Some("auth".to_string());
    match plan_tool_call("tracey_uncovered", a) {
        ToolPlan::Call { call: ToolCall::Uncovered(tool), with_diagnostics } => {
            assert_eq!(tool.cwd, "/repo");
            assert_eq!(tool.spec_impl, Some("spec/rust".to_string()));
            assert_eq!(tool.prefix, Some("auth".to_string()));
            assert!(!with_diagnostics);
        }
        other => panic!("unexpected plan {:?}", other),
    }
    let mut a = args(Some("/repo"));
    a.path = Some("src".to_string());
    match plan_tool_call("tracey_unmapped", a) {
        ToolPlan::Call { call: ToolCall::Unmapped(tool), .. } => {
            assert_eq!(tool.path, Some("src".to_string()));
            assert_eq!(tool.spec_impl, None);
        }
        other => panic!("unexpected plan {:?}", other),
    }
    for name in ["tracey_untested", "tracey_stale", "tracey_validate"] {
        match plan_tool_call(name, args(Some("/repo"))) {
            ToolPlan::Call { call: ToolCall::Untested(_), .. } => assert_eq!(name, "tracey_untested"),
            ToolPlan::Call { call: ToolCall::Stale(_), .. } => assert_eq!(name, "tracey_stale"),
            ToolPlan::Call { call: ToolCall::Validate(_), .. } => assert_eq!(name, "tracey_validate"),
            other => panic!("unexpected plan {:?}", other),
        }
    }
}

#[test]
fn tools_report_missing_arguments() {
    match plan_tool_call("tracey_rule", args(Some("/repo"))) {
        ToolPlan::Call { call: ToolCall::Banner { cwd, message }, .. } => {
            assert_eq!(cwd, "/repo");
            assert_eq!(message, "Error: rule_id is required");
        }
        other => panic!("unexpected plan {:?}", other),
    }
    let mut a = args(Some("/repo"));
    a.rule_id = Some("auth.login".to_string());
    match plan_tool_call("tracey_rule", a) {
        ToolPlan::Call { call: ToolCall::Rule(tool), .. } => assert_eq!(tool.rule_id, "auth.login"),
        other => panic!("unexpected plan {:?}", other),
    }
    for name in ["tracey_config_exclude", "tracey_config_include"] {
        match plan_tool_call(name, args(Some("/repo"))) {
            ToolPlan::Call { call: ToolCall::Banner { message, .. }, .. } => {
                assert_eq!(message, "Error: pattern is required")
            }
            other => panic!("unexpected plan {:?}", other),
        }
    }
    let mut a = args(Some("/repo"));
    a.pattern = Some("**/*_test.rs".to_string());
    match plan_tool_call("tracey_config_exclude", a) {
        ToolPlan::Call { call: ToolCall::ConfigExclude(tool), .. } => {
            assert_eq!(tool.pattern, "**/*_test.rs")
        }
        other => panic!("unexpected plan {:?}", other),
    }
    let mut a = args(Some("/repo"));
    a.pattern = Some("src/**/*.rs".to_string());
    match plan_tool_call("tracey_config_include", a) {
        ToolPlan::Call { call: ToolCall::ConfigInclude(tool), .. } => {
            assert_eq!(tool.pattern, "src/**/*.rs")
        }
        other => panic!("unexpected plan {:?}", other),
    }
}

#[test]
fn unknown_tools_are_named() {
    match plan_tool_call("tracey_dance", args(Some("/repo"))) {
        ToolPlan::Call { call: ToolCall::Banner { message, .. }, with_diagnostics } => {
            assert_eq!(message, "Unknown tool: tracey_dance");
            assert!(!with_diagnostics);
        }
        other => panic!("unexpected plan {:?}", other),
    }
}

#[test]
fn roots_summary_shows_up_to_eight() {
    assert_eq!(roots_summary(&vec![]), "(none)");
    assert_eq!(roots_summary(&vec!["a".to_string()]), "a");
    assert_eq!(roots_summary(&vec!["a".to_string(), "b".to_string()]), "a | b");
    let eight: Vec<String> = (1..=8).map(|n| format!("r{n}")).collect();
    assert_eq!(roots_summary(&eight), "r1 | r2 | r3 | r4 | r5 | r6 | r7 | r8");
    let nine: Vec<String> = (1..=9).map(|n| format!("r{n}")).collect();
    assert_eq!(roots_summary(&nine), "r1 | r2 | r3 | r4 | r5 | r6 | r7 | r8 | ...");
}

#[test]
fn routing_state_follows_the_roots() {
    let mut state = RootRefreshState::new();
    assert!(!state.note_capability(None));
    assert!(!state.note_capability(Some(false)));
    assert!(state.note_capability(Some(true)));
    assert_eq!(state.client_supports_root_list, Some(true));

    let roots = vec![root(Some("a"), "https://x"), root(None, "file:///w")];
    state.roots_listed(&roots, None);
    assert_eq!(state.last_client_roots, vec!["a: https://x".to_string(), "file:///w".to_string()]);
    assert_eq!(
        state.last_refresh_error,
        Some("roots/list returned no usable file:// root".to_string())
    );
    assert_eq!(state.last_selected_root, None);

    state.roots_listed(&roots, Some("/w".to_string()));
    assert_eq!(state.last_selected_root, Some("/w".to_string()));
    assert_eq!(state.last_refresh_error, None);

    state.roots_failed("timed out");
    assert_eq!(
        state.last_refresh_error,
        Some("roots/list request failed: timed out".to_string())
    );
    assert_eq!(state.last_selected_root, Some("/w".to_string()));

    state.cwd_rejected("Error: `cwd` must not be empty".to_string());
    assert_eq!(state.last_tool_cwd, None);
    assert_eq!(state.last_tool_cwd_error, Some("Error: `cwd` must not be empty".to_string()));

    state.cwd_accepted("/w/src".to_string(), "/w".to_string());
    assert_eq!(state.last_tool_cwd, Some("/w/src".to_string()));
    assert_eq!(state.last_tool_cwd_error, None);
    assert_eq!(state.last_refresh_error, None);
    assert_eq!(state.last_selected_root, Some("/w".to_string()));
}

#[test]
fn routing_diagnostics_list_everything() {
    let startup = Startup {
        pid: 4711,
        cwd: None,
        project_root: "/start".to_string(),
        config_path: ".config/tracey/config.styx".to_string(),
    };
    let state = RootRefreshState::new();
    assert_eq!(
        mcp_routing_diagnostics(&startup, "/active", &state),
        "\n---\nMCP routing diagnostics:\n- pid: 4711\n- startup cwd: (unknown)\n- startup project root: /start\n- startup config path: .config/tracey/config.styx\n- active project root: /active\n- client supports roots/list: unknown\n- last client roots: (none)\n- last selected root: (none)\n- last root refresh error: (none)\n- last tool cwd: (none)\n- last tool cwd error: (none)\n"
    );
    let startup = Startup { cwd: Some("/cwd".to_string()), ..startup };
    let state = RootRefreshState {
        client_supports_root_list: Some(false),
        last_client_roots: vec!["a".to_string(), "b".to_string()],
        last_selected_root: Some("/sel".to_string()),
        last_refresh_error: Some("oops".to_string()),
        last_tool_cwd: Some("/tool".to_string()),
        last_tool_cwd_error: Some("bad".to_string()),
    };
    assert_eq!(
        mcp_routing_diagnostics(&startup, "/active", &state),
        "\n---\nMCP routing diagnostics:\n- pid: 4711\n- startup cwd: /cwd\n- startup project root: /start\n- startup config path: .config/tracey/config.styx\n- active project root: /active\n- client supports roots/list: no\n- last client roots: a | b\n- last selected root: /sel\n- last root refresh error: oops\n- last tool cwd: /tool\n- last tool cwd error: bad\n"
    );
}

#[test]
fn the_trace_switch() {
    assert!(!trace_enabled(None));
    for off in ["", "0", "false", "off", "no", " OFF ", "False", "NO\n", "  "] {
        assert!(!trace_enabled(Some(off)), "{off:?} leaves tracing off");
    }
    for on in ["1", "true", "yes", "on", "2", "x", "00", "n o"] {
        assert!(trace_enabled(Some(on)), "{on:?} turns tracing on");
    }
}
