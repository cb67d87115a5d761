use tracey::watcher::{is_selected, matches_any, process_batch};
use tracey::config::{Config, Impl, SpecConfig};
use tracey::watcher::{
    change_is_relevant, classify_batch, glob_to_watch_dir, glob_verdicts,
    is_temporary_edit_artifact, path_triggers_reconfigure, relevant_changes, watched_dirs,
    watched_files, ChangedPath, WatcherEvent, WatcherState,
};

#[test]
fn test_glob_to_watch_dir_double_star() {
    assert_eq!(glob_to_watch_dir("foo/bar/**/*.rs"), "foo/bar");
}

#[test]
fn test_glob_to_watch_dir_single_star() {
    assert_eq!(glob_to_watch_dir("src/*.rs"), "src");
}

#[test]
fn test_glob_to_watch_dir_root_pattern() {
    assert_eq!(glob_to_watch_dir("*.rs"), ".");
}

#[test]
fn test_glob_to_watch_dir_deep_path() {
    assert_eq!(glob_to_watch_dir("docs/spec/**/*.md"), "docs/spec");
}

#[test]
fn test_glob_to_watch_dir_literal_path() {
    assert_eq!(glob_to_watch_dir("src/lib.rs"), "src/lib.rs");
}

#[test]
fn test_glob_to_watch_dir_question_mark() {
    assert_eq!(glob_to_watch_dir("src/?.rs"), "src");
}

#[test]
fn test_glob_to_watch_dir_brackets() {
    assert_eq!(glob_to_watch_dir("src/[abc].rs"), "src");
}

#[test]
fn test_glob_to_watch_dir_braces() {
    assert_eq!(glob_to_watch_dir("src/{foo,bar}.rs"), "src");
}

#[test]
fn test_glob_to_watch_dir_nested_globs() {
    assert_eq!(glob_to_watch_dir("crates/*/src/**/*.rs"), "crates");
}

#[test]
fn glob_to_watch_dir_edge_cases() {
    assert_eq!(glob_to_watch_dir(""), ".");
    assert_eq!(glob_to_watch_dir("/*.rs"), "/");
    assert_eq!(glob_to_watch_dir("/abs/dir/**"), "/abs/dir");
    assert_eq!(glob_to_watch_dir("src/a*"), "src");
}

#[test]
fn test_watcher_state_initial() {
    let state = WatcherState::new();
    assert!(!state.is_active());
    assert!(state.error().is_none());
    assert_eq!(state.event_count(), 0);
    assert!(state.last_event_ms().is_none());
    assert!(state.watched_dirs().is_empty());
}

#[test]
fn test_watcher_state_mark_active() {
    let mut state = WatcherState::new();
    state.mark_active();
    assert!(state.is_active());
    assert!(state.error().is_none());
}

#[test]
fn test_watcher_state_mark_failed() {
    let mut state = WatcherState::new();
    state.mark_active();
    state.mark_failed("test error".to_string());

    assert!(!state.is_active());
    assert_eq!(state.error(), Some("test error".to_string()));
}

#[test]
fn test_watcher_state_mark_active_clears_error() {
    let mut state = WatcherState::new();
    state.mark_failed("test error".to_string());
    state.mark_active();

    assert!(state.is_active());
    assert!(state.error().is_none());
}

#[test]
fn test_watcher_state_record_event() {
    let mut state = WatcherState::new();

    state.record_event(1_700_000_000_000);
    assert_eq!(state.event_count(), 1);
    assert!(state.last_event_ms().is_some());

    state.record_event(1_700_000_000_200);
    assert_eq!(state.event_count(), 2);
    assert_eq!(state.last_event_ms(), Some(1_700_000_000_200));
}

#[test]
fn test_watcher_state_set_watched_dirs() {
    let mut state = WatcherState::new();

    state.set_watched_dirs(vec!["/foo/bar".into(), "/baz/qux".into()]);

    let dirs = state.watched_dirs();
    assert_eq!(dirs.len(), 2);
}

#[test]
fn watcher_state_event_count_stops_at_the_top() {
    let mut state = WatcherState::new();
    state.event_count = u64::MAX;
    state.record_event(5);
    assert_eq!(state.event_count(), u64::MAX);
}

#[test]
fn reconfigure_triggers_for_exact_paths() {
    let config = "/repo/.config/tracey/config.styx";
    let gitignore = "/repo/.gitignore";
    assert!(path_triggers_reconfigure(config, config, gitignore));
    assert!(path_triggers_reconfigure(gitignore, config, gitignore));
}

#[test]
fn reconfigure_triggers_for_parent_directories() {
    let config = "/repo/.config/tracey/config.styx";
    let gitignore = "/repo/.gitignore";
    assert!(path_triggers_reconfigure(
        "/repo/.config/tracey",
        config,
        gitignore
    ));
    assert!(path_triggers_reconfigure("/repo", config, gitignore));
}

#[test]
fn reconfigure_triggers_for_temp_files_in_config_dir() {
    let config = "/repo/.config/tracey/config.styx";
    let gitignore = "/repo/.gitignore";
    assert!(path_triggers_reconfigure(
        "/repo/.config/tracey/.config.styx.tmp",
        config,
        gitignore
    ));
}

#[test]
fn reconfigure_ignores_unrelated_paths() {
    let config = "/repo/.config/tracey/config.styx";
    let gitignore = "/repo/.gitignore";
    assert!(!path_triggers_reconfigure(
        "/repo/src/lib.rs",
        config,
        gitignore
    ));
}

#[test]
fn reconfigure_needs_whole_components() {
    let config = "/repo/.config/tracey/config.styx";
    let gitignore = "/repo/.gitignore";
    assert!(!path_triggers_reconfigure("/rep", config, gitignore));
    assert!(!path_triggers_reconfigure("/repo/.config/tracey-old/x", config, gitignore));
    assert!(path_triggers_reconfigure("/", config, gitignore));
}

#[test]
fn temporary_edit_artifacts_are_recognized() {
    assert!(is_temporary_edit_artifact("src/lib.rs.tmp"));
    assert!(is_temporary_edit_artifact("src/lib.rs~"));
    assert!(is_temporary_edit_artifact("src/.lib.rs.swp"));
    assert!(is_temporary_edit_artifact("src/.lib.rs.swo"));
    assert!(is_temporary_edit_artifact("src/.lib.rs.swx"));
    assert!(is_temporary_edit_artifact("src/.#lib.rs"));
    assert!(is_temporary_edit_artifact("src/lib.tmp.1234"));
    assert!(is_temporary_edit_artifact("build.tmp.d/file.rs"));
    assert!(!is_temporary_edit_artifact("src/lib.rs"));
    assert!(!is_temporary_edit_artifact("src/tmp.rs"));
    assert!(!is_temporary_edit_artifact("src/swp"));
    assert!(!is_temporary_edit_artifact("src/"));
    assert!(!is_temporary_edit_artifact(""));
}

fn config_with(impl_includes: &[&str]) -> Config {
    Config {
        specs: vec![SpecConfig {
            name: "test".to_string(),
            prefix: None,
            source_url: None,
            includes: vec!["docs/spec/**/*.md".to_string()],
            impls: vec![Impl {
                name: "rust".to_string(),
                includes: impl_includes.iter().map(|s| s.to_string()).collect(),
                exclude: vec!["src/vendored/**".to_string()],
                test_include: vec![],
            }],
        }],
    }
}

#[test]
fn watched_dirs_are_the_literal_prefixes_the_config_dir_and_git() {
    let config = config_with(&["src/**/*.rs", "src/*.rs"]);
    let dirs = watched_dirs(&config, "/repo", "/repo/.config/tracey/config.styx");
    assert_eq!(
        dirs,
        vec![
            "/repo/docs/spec".to_string(),
            "/repo/src".to_string(),
            "/repo/.config/tracey".to_string(),
            "/repo/.git".to_string(),
        ]
    );
}

#[test]
fn watched_dirs_follow_the_configuration() {
    let config_path = "/repo/.config/tracey/config.styx";
    let before = watched_dirs(&config_with(&["src/**/*.rs"]), "/repo", config_path);
    assert!(!before.contains(&"/repo/crates".to_string()));

    let after = watched_dirs(
        &config_with(&["src/**/*.rs", "crates/**/*.rs"]),
        "/repo",
        config_path,
    );
    assert!(after.contains(&"/repo/crates".to_string()));

    let again = watched_dirs(&config_with(&["src/**/*.rs"]), "/repo", config_path);
    assert_eq!(again, before);
}

#[test]
fn watched_dirs_of_an_empty_config() {
    let dirs = watched_dirs(&Config::default(), "/repo", "/repo/.config/tracey/config.styx");
    assert_eq!(
        dirs,
        vec!["/repo/.config/tracey".to_string(), "/repo/.git".to_string()]
    );
}

#[test]
fn include_and_exclude_globs_are_collected_in_order() {
    let config = config_with(&["src/**/*.rs", "crates/**/*.rs"]);
    assert_eq!(
        config.include_globs(),
        vec![
            "docs/spec/**/*.md".to_string(),
            "src/**/*.rs".to_string(),
            "crates/**/*.rs".to_string()
        ]
    );
    assert_eq!(config.exclude_globs(), vec!["src/vendored/**".to_string()]);
}

#[test]
fn batches_are_classified() {
    let config = "/repo/.config/tracey/config.styx";
    let gitignore = "/repo/.gitignore";
    assert!(classify_batch(vec![], config, gitignore).is_none());
    match classify_batch(
        vec!["/repo/src/a.rs".to_string(), "/repo/.gitignore".to_string()],
        config,
        gitignore,
    ) {
        Some(WatcherEvent::Reconfigure) => {}
        other => panic!("expected a reconfiguration, got {:?}", other),
    }
    match classify_batch(
        vec!["/repo/src/a.rs".to_string(), "/repo/src/b.rs".to_string()],
        config,
        gitignore,
    ) {
        Some(WatcherEvent::FilesChanged(paths)) => {
            assert_eq!(paths, vec!["/repo/src/a.rs".to_string(), "/repo/src/b.rs".to_string()]);
        }
        other => panic!("expected changed files, got {:?}", other),
    }
}

#[test]
fn glob_verdicts_come_from_the_matcher() {
    let patterns = vec![
        "src/**/*.rs".to_string(),
        "*.md".to_string(),
        "a[".to_string(),
    ];
    assert_eq!(
        glob_verdicts(&patterns, "src/deep/mod.rs"),
        vec![Some(true), Some(false), None]
    );
    assert_eq!(
        glob_verdicts(&patterns, "README.md"),
        vec![Some(false), Some(true), None]
    );
}

#[test]
fn a_change_is_relevant_by_its_verdicts() {
    assert!(change_is_relevant("src/a.rs", false, &[], &[]));
    assert!(change_is_relevant("src/a.rs", false, &[Some(false), None], &[Some(true)]));
    assert!(!change_is_relevant("src/a.rs", false, &[], &[Some(false), None]));
    assert!(!change_is_relevant("src/a.rs", false, &[Some(true)], &[Some(true)]));
    assert!(!change_is_relevant("src/a.rs", true, &[], &[Some(true)]));
    assert!(!change_is_relevant("src/a.rs.tmp", false, &[], &[Some(true)]));
}

#[test]
fn relevant_changes_filter_a_batch() {
    let changed = |path: &str, git_ignored: bool| ChangedPath {
        path: path.to_string(),
        git_ignored,
    };
    let changes = vec![
        changed("/repo/src/a.rs", false),
        changed("/repo/src/vendored/b.rs", false),
        changed("/repo/target/c.rs", true),
        changed("/elsewhere/src/d.rs", false),
        changed("/repo/src/e.rs~", false),
        changed("/repo/docs/readme.txt", false),
        changed("/repo/src/deep/f.rs", false),
    ];
    let includes = vec!["src/**/*.rs".to_string(), "target/**".to_string()];
    let excludes = vec!["src/vendored/**".to_string()];
    assert_eq!(
        relevant_changes(&changes, "/repo", &includes, &excludes),
        vec!["/repo/src/a.rs".to_string(), "/repo/src/deep/f.rs".to_string()]
    );
    assert_eq!(
        relevant_changes(&changes, "/repo", &vec![], &vec![]),
        vec![
            "/repo/src/a.rs".to_string(),
            "/repo/src/vendored/b.rs".to_string(),
            "/repo/docs/readme.txt".to_string(),
            "/repo/src/deep/f.rs".to_string()
        ]
    );
}

#[test]
fn files_are_selected_by_globs() {
    let includes = vec!["src/**/*.rs".to_string(), "build.rs".to_string()];
    let excludes = vec!["src/vendored/**".to_string()];
    assert!(is_selected("src/lib.rs", &includes, &excludes));
    assert!(is_selected("build.rs", &includes, &excludes));
    assert!(!is_selected("src/vendored/x.rs", &includes, &excludes));
    assert!(!is_selected("docs/a.md", &includes, &excludes));
    assert!(!is_selected("src/lib.rs", &vec![], &excludes));
    assert!(matches_any(&includes, "src/a/b.rs"));
    assert!(!matches_any(&vec![], "src/a/b.rs"));
    assert!(!matches_any(&vec!["[".to_string()], "["));
}

#[test]
fn a_batch_goes_through_the_whole_pipeline() {
    let changed = |path: &str, git_ignored: bool| ChangedPath {
        path: path.to_string(),
        git_ignored,
    };
    let config = "/repo/.config/tracey/config.styx";
    let gitignore = "/repo/.gitignore";
    let includes = vec!["src/**/*.rs".to_string()];
    let excludes = vec!["src/vendored/**".to_string()];
    let run = |changes: Vec<ChangedPath>| {
        process_batch(&changes, "/repo", config, gitignore, &includes, &excludes)
    };
    assert!(run(vec![]).is_none());
    assert!(run(vec![changed("/repo/target/x.rs", true), changed("/repo/src/a.rs~", false)]).is_none());
    assert!(run(vec![changed("/repo/docs/readme.md", false)]).is_none());
    match run(vec![changed("/repo/src/a.rs", false), changed(config, false)]) {
        Some(WatcherEvent::Reconfigure) => {}
        other => panic!("expected a reconfiguration, got {:?}", other),
    }
    match run(vec![changed("/repo/.config/tracey/.config.styx.tmp", true)]) {
        Some(WatcherEvent::Reconfigure) => {}
        other => panic!("expected a reconfiguration, got {:?}", other),
    }
    match run(vec![
        changed("/repo/src/a.rs", false),
        changed("/repo/src/vendored/b.rs", false),
        changed("/repo/src/c.rs", false),
    ]) {
        Some(WatcherEvent::FilesChanged(paths)) => {
            assert_eq!(paths, vec!["/repo/src/a.rs".to_string(), "/repo/src/c.rs".to_string()]);
        }
        other => panic!("expected changed files, got {:?}", other),
    }
}

#[test]
fn paths_are_read_in_their_normal_form() {
    let config = "/repo/.config/tracey/config.styx";
    let gitignore = "/repo/.gitignore";
    assert!(path_triggers_reconfigure("/repo//.gitignore", config, gitignore));
    assert!(path_triggers_reconfigure("/repo/./.gitignore", config, gitignore));
    assert!(path_triggers_reconfigure("/repo/.config/tracey/", config, gitignore));
    assert!(path_triggers_reconfigure("/repo/.config//tracey/other.styx", config, gitignore));
    assert!(!path_triggers_reconfigure("/repo//src/lib.rs", config, gitignore));
    assert!(is_temporary_edit_artifact("dir/foo~/"));
    assert!(is_temporary_edit_artifact("dir//x.swp"));
    assert!(!is_temporary_edit_artifact("dir/foo/"));

    let dirs = watched_dirs(&Config::default(), "/repo/", "/repo//.config/tracey/config.styx");
    assert_eq!(dirs, vec!["/repo/.config/tracey".to_string(), "/repo/.git".to_string()]);

    let changes = vec![ChangedPath { path: "/repo//src/./lib.rs".to_string(), git_ignored: false }];
    let globs = vec!["src/**/*.rs".to_string()];
    assert_eq!(relevant_changes(&changes, "/repo/", &globs, &vec![]), vec!["/repo/src/lib.rs".to_string()]);
}

#[test]
fn watched_dirs_keep_the_order_of_the_configuration() {
    let config = config_with(&["z/**/*.rs", "a/*.rs", "z/b/*.rs", "docs/spec/x/*.rs"]);
    let dirs = watched_dirs(&config, "/repo", "/repo/a/config.styx");
    assert_eq!(
        dirs,
        vec![
            "/repo/docs/spec".to_string(),
            "/repo/z".to_string(),
            "/repo/a".to_string(),
            "/repo/z/b".to_string(),
            "/repo/docs/spec/x".to_string(),
            "/repo/.git".to_string(),
        ]
    );
}

#[test]
fn the_config_file_and_the_ignore_file_are_watched() {
    assert_eq!(
        watched_files("/repo", "/repo/.config/tracey/config.styx"),
        vec!["/repo/.config/tracey/config.styx".to_string(), "/repo/.gitignore".to_string()]
    );
}

#[test]
fn a_glob_whose_matcher_cannot_be_built_gives_no_verdict() {
    let depth = 2000;
    let pattern = format!("{}b{}", "{a,".repeat(depth), "}".repeat(depth));
    assert_eq!(glob_verdicts(&vec![pattern], "a"), vec![None]);
}
