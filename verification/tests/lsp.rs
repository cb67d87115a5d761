use tracey::lsp::{
    fuzzy_matches, in_order, marker_tokens, position_to_offset, references_to, rename_rule_edits,
};
use tracey::lsp::marker_at_offset;
use tracey::dashboard::ApiCodeRef;
use tracey::index::Severity;
use tracey::lsp::{
    completion_kind, encode_semantic_tokens, extract_root_from_initialize, hover_markdown,
    offset_to_line_col, parse_content_length, paths_to_clear, rename_edits,
    replacement_edits_for_file, select_root, severity_from_name, symbol_uri_from_path,
    CompletionKind, HoverInfo, InitializeRoots, LspToken, SemanticToken,
};
use tracey::marker::{all_eligible, parse_rule_id, scan_markers};

#[test]
fn symbol_uri_from_relative_path_resolves_under_project_root() {
    let uri = symbol_uri_from_path("/tmp/project", Some("docs/spec/auth.md"))
        .expect("uri should be constructed");
    assert_eq!(url::Url::parse(&uri).unwrap().path(), "/tmp/project/docs/spec/auth.md");
}

#[test]
fn symbol_uri_from_absolute_path_is_preserved() {
    let uri = symbol_uri_from_path("/tmp/project", Some("/tmp/elsewhere/requirements.md"))
        .expect("uri should be constructed");
    assert_eq!(url::Url::parse(&uri).unwrap().path(), "/tmp/elsewhere/requirements.md");
}

#[test]
fn symbol_uri_is_a_file_uri() {
    assert_eq!(
        symbol_uri_from_path("/tmp/project", Some("a b.md")),
        Some("file:///tmp/project/a%20b.md".to_string())
    );
    assert_eq!(symbol_uri_from_path("/tmp/project", None), None);
    assert_eq!(symbol_uri_from_path("relative", Some("x.md")), None);
}

#[test]
fn extract_root_with_root_uri() {
    let body = br#"{"jsonrpc":"2.0","id":1,"method":"initialize","params":{"rootUri":"file:///home/user/project","capabilities":{}}}"#;
    assert_eq!(
        extract_root_from_initialize(body),
        Some("/home/user/project".to_string())
    );
}

#[test]
fn extract_root_with_workspace_folders() {
    let body = br#"{"jsonrpc":"2.0","id":1,"method":"initialize","params":{"rootUri":null,"workspaceFolders":[{"uri":"file:///tmp/workspace","name":"workspace"}],"capabilities":{}}}"#;
    assert_eq!(
        extract_root_from_initialize(body),
        Some("/tmp/workspace".to_string())
    );
}

#[test]
fn extract_root_with_root_path() {
    let body = br#"{"jsonrpc":"2.0","id":1,"method":"initialize","params":{"rootPath":"/legacy/project","capabilities":{}}}"#;
    assert_eq!(
        extract_root_from_initialize(body),
        Some("/legacy/project".to_string())
    );
}

#[test]
fn extract_root_with_no_root_fields() {
    let body = br#"{"jsonrpc":"2.0","id":1,"method":"initialize","params":{"capabilities":{}}}"#;
    assert_eq!(extract_root_from_initialize(body), None);
}

#[test]
fn extract_root_with_invalid_json() {
    assert_eq!(extract_root_from_initialize(b"not json"), None);
}

#[test]
fn extract_root_prefers_root_uri_over_workspace_folders() {
    let body = br#"{"jsonrpc":"2.0","id":1,"method":"initialize","params":{"rootUri":"file:///preferred/root","workspaceFolders":[{"uri":"file:///other/folder","name":"other"}],"capabilities":{}}}"#;
    assert_eq!(
        extract_root_from_initialize(body),
        Some("/preferred/root".to_string())
    );
}

#[test]
fn extract_root_skips_unusable_uris() {
    let body = br#"{"params":{"rootUri":"https://example.com/x","workspaceFolders":[],"rootPath":"/fallback"}}"#;
    assert_eq!(extract_root_from_initialize(body), Some("/fallback".to_string()));
    let body = br#"{"params":{"rootUri":17,"workspaceFolders":[{"uri":"file:///w"}],"rootPath":"/fallback"}}"#;
    assert_eq!(extract_root_from_initialize(body), Some("/w".to_string()));
    assert_eq!(extract_root_from_initialize(br#"{"method":"initialize"}"#), None);
}

#[test]
fn select_root_takes_the_fields_in_order() {
    let roots = InitializeRoots {
        root_uri: Some("not a uri".to_string()),
        first_folder_uri: Some("file:///folder".to_string()),
        root_path: Some("/path".to_string()),
    };
    assert_eq!(select_root(&roots), Some("/folder".to_string()));
    let roots = InitializeRoots { root_uri: None, first_folder_uri: None, root_path: None };
    assert_eq!(select_root(&roots), None);
}

#[test]
fn offsets_become_lines_and_columns() {
    let text = "ab\ncdé f\n\nx";
    assert_eq!(offset_to_line_col(text, 0), (0, 0));
    assert_eq!(offset_to_line_col(text, 2), (0, 2));
    assert_eq!(offset_to_line_col(text, 3), (1, 0));
    assert_eq!(offset_to_line_col(text, 5), (1, 2));
    assert_eq!(offset_to_line_col(text, 6), (1, 3));
    assert_eq!(offset_to_line_col(text, 7), (1, 3));
    assert_eq!(offset_to_line_col(text, 8), (1, 4));
    assert_eq!(offset_to_line_col(text, 10), (2, 0));
    assert_eq!(offset_to_line_col(text, 11), (3, 0));
    assert_eq!(offset_to_line_col(text, 12), (3, 1));
    assert_eq!(offset_to_line_col(text, 999), (3, 1));
    assert_eq!(offset_to_line_col("", 0), (0, 0));
}

fn edit_tuples(edits: &[tracey::lsp::TextEdit]) -> Vec<(u32, u32, u32, u32, &str)> {
    edits
        .iter()
        .map(|e| (e.start_line, e.start_char, e.end_line, e.end_char, e.new_text.as_str()))
        .collect()
}

#[test]
fn rename_rewrites_every_reference() {
    let content = "/// r[impl auth.login]\nfn a() {}\n// r[verify auth.login] and r[auth.logout]\n// é r[auth.login]\n";
    let old = parse_rule_id("auth.login").unwrap();
    let edits = replacement_edits_for_file(content, &old, "auth.sign-in");
    assert_eq!(
        edit_tuples(&edits),
        vec![
            (0, 11, 0, 21, "auth.sign-in"),
            (2, 12, 2, 22, "auth.sign-in"),
            (3, 7, 3, 17, "auth.sign-in"),
        ]
    );
}

#[test]
fn rename_leaves_definitions_and_other_versions_alone() {
    let content = "r[define auth.login]\nr[impl auth.login+2]\nr[impl auth.login]\n";
    let old = parse_rule_id("auth.login").unwrap();
    let edits = replacement_edits_for_file(content, &old, "auth.entry");
    assert_eq!(edit_tuples(&edits), vec![(2, 7, 2, 17, "auth.entry")]);
    let old = parse_rule_id("auth.login+2").unwrap();
    let edits = replacement_edits_for_file(content, &old, "auth.entry+2");
    assert_eq!(edit_tuples(&edits), vec![(1, 7, 1, 19, "auth.entry+2")]);
}

#[test]
fn rename_to_the_same_name_gives_no_edits() {
    let content = "/// r[impl x.y]\n/// r[verify x.y]\n";
    let old = parse_rule_id("x.y").unwrap();
    assert!(replacement_edits_for_file(content, &old, "x.y").is_empty());
    let markers = scan_markers(content, &all_eligible(content.len()));
    assert_eq!(markers.len(), 2);
    assert!(rename_edits(content, &markers, &old, "x.y").is_empty());
    assert_eq!(rename_edits(content, &markers, &old, "x.z").len(), 2);
}

fn token(line: u32, start_char: u32, length: u32) -> LspToken {
    LspToken { line, start_char, length, token_type: 2, modifiers: 1 }
}

#[test]
fn semantic_tokens_are_relative() {
    let tokens = vec![token(0, 4, 1), token(0, 6, 4), token(0, 11, 10), token(3, 2, 5), token(3, 2, 1)];
    let encoded = encode_semantic_tokens(&tokens);
    let deltas: Vec<(u32, u32, u32)> =
        encoded.iter().map(|t| (t.delta_line, t.delta_start, t.length)).collect();
    assert_eq!(deltas, vec![(0, 4, 1), (0, 2, 4), (0, 5, 10), (3, 2, 5), (0, 0, 1)]);
    assert_eq!(
        encoded[0],
        SemanticToken {
            delta_line: 0,
            delta_start: 4,
            length: 1,
            token_type: 2,
            token_modifiers_bitset: 1
        }
    );
    assert!(encode_semantic_tokens(&vec![]).is_empty());
}

#[test]
fn semantic_tokens_decode_back() {
    let tokens = vec![token(1, 0, 1), token(1, 9, 2), token(2, 3, 3), token(7, 1, 1)];
    let encoded = encode_semantic_tokens(&tokens);
    let (mut line, mut column) = (0u32, 0u32);
    for (delta, token) in encoded.iter().zip(&tokens) {
        if delta.delta_line == 0 {
            column += delta.delta_start;
        } else {
            line += delta.delta_line;
            column = delta.delta_start;
        }
        assert_eq!((line, column), (token.line, token.start_char));
    }
}

#[test]
fn severities_and_kinds_by_name() {
    assert_eq!(severity_from_name("error"), Severity::Error);
    assert_eq!(severity_from_name("warning"), Severity::Warning);
    assert_eq!(severity_from_name("info"), Severity::Info);
    assert_eq!(severity_from_name("hint"), Severity::Hint);
    assert_eq!(severity_from_name("ERROR"), Severity::Hint);
    assert_eq!(severity_from_name(""), Severity::Hint);
    assert_eq!(completion_kind("verb"), CompletionKind::Keyword);
    assert_eq!(completion_kind("rule"), CompletionKind::Constant);
    assert_eq!(completion_kind("other"), CompletionKind::Text);
}

#[test]
fn vanished_paths_are_cleared() {
    let previous = vec!["/a.rs".to_string(), "/b.rs".to_string(), "/c.rs".to_string()];
    let current = vec!["/b.rs".to_string(), "/d.rs".to_string()];
    assert_eq!(
        paths_to_clear(&previous, &current),
        vec!["/a.rs".to_string(), "/c.rs".to_string()]
    );
    assert!(paths_to_clear(&vec![], &current).is_empty());
    assert_eq!(paths_to_clear(&previous, &vec![]), previous);
}

#[test]
fn content_length_is_read_from_the_header() {
    assert_eq!(parse_content_length("Content-Length: 42\r\n\r\n"), Some(42));
    assert_eq!(parse_content_length("content-length:7\r\n\r\n"), Some(7));
    assert_eq!(
        parse_content_length("Content-Type: x\r\nContent-Length: 12\r\n\r\n"),
        Some(12)
    );
    assert_eq!(parse_content_length("Content-Type: x\r\n\r\n"), None);
    assert_eq!(parse_content_length("\r\nContent-Length: 12\r\n"), None);
    assert_eq!(parse_content_length("Content-Length: twelve\r\n\r\n"), None);
    assert_eq!(
        parse_content_length("Content-Length: 5\r\nContent-Length: x\r\n\r\n"),
        None
    );
    assert_eq!(parse_content_length("CONTENT-LENGTH: 5\r\n\r\n"), None);
    assert_eq!(parse_content_length("Content-Length: 5"), Some(5));
    assert_eq!(parse_content_length(""), None);
}

fn hover_info() -> HoverInfo {
    HoverInfo {
        rule_id: "auth.login".to_string(),
        raw: "Users MUST log in.".to_string(),
        spec_name: "test".to_string(),
        spec_url: None,
        impl_refs: vec![],
        verify_refs: vec![],
        version_diff: None,
    }
}

#[test]
fn hover_without_references() {
    assert_eq!(
        hover_markdown(&hover_info(), "/repo"),
        "## auth.login\n\nUsers MUST log in.\n\n**Spec:** test\n\n*No implementations or verifications*"
    );
}

#[test]
fn hover_with_everything() {
    let mut info = hover_info();
    info.spec_url = Some("https://example.com/spec".to_string());
    info.impl_refs = vec![
        ApiCodeRef { file: "src/lib.rs".to_string(), line: 5 },
        ApiCodeRef { file: "src/my file.rs".to_string(), line: 12 },
    ];
    info.verify_refs = vec![ApiCodeRef { file: "tests/a.rs".to_string(), line: 1 }];
    info.version_diff = Some("~~old~~ **new**".to_string());
    assert_eq!(
        hover_markdown(&info, "/repo"),
        "## auth.login\n\nUsers MUST log in.\n\n**Spec:** test ([source](https://example.com/spec))\
\n\n**Implementations:**\
\n- [src/lib.rs:5](file:///repo/src/lib.rs#L5)\
\n- [src/my file.rs:12](file:///repo/src/my%20file.rs#L12)\
\n\n**Verifications:**\
\n- [tests/a.rs:1](file:///repo/tests/a.rs#L1)\
\n\n**Changes from previous version:**\n\n~~old~~ **new**"
    );
}

#[test]
fn hover_without_a_usable_root_shows_plain_references() {
    let mut info = hover_info();
    info.verify_refs = vec![ApiCodeRef { file: "tests/a.rs".to_string(), line: 3 }];
    assert_eq!(
        hover_markdown(&info, "relative"),
        "## auth.login\n\nUsers MUST log in.\n\n**Spec:** test\n\n**Verifications:**\n- tests/a.rs:3"
    );
}

#[test]
fn positions_become_offsets() {
    let text = "ab\ncdé f\n\nx";
    assert_eq!(position_to_offset(text, 0, 0), Some(0));
    assert_eq!(position_to_offset(text, 0, 2), Some(2));
    assert_eq!(position_to_offset(text, 0, 3), None);
    assert_eq!(position_to_offset(text, 1, 0), Some(3));
    assert_eq!(position_to_offset(text, 1, 2), Some(5));
    assert_eq!(position_to_offset(text, 1, 3), Some(7));
    assert_eq!(position_to_offset(text, 2, 0), Some(10));
    assert_eq!(position_to_offset(text, 3, 1), Some(12));
    assert_eq!(position_to_offset(text, 3, 2), None);
    assert_eq!(position_to_offset(text, 4, 0), None);
    assert_eq!(position_to_offset("", 0, 0), Some(0));
    for offset in [0usize, 1, 2, 3, 4, 5, 7, 8, 9, 10, 11, 12] {
        let (line, column) = offset_to_line_col(text, offset);
        assert_eq!(position_to_offset(text, line, column), Some(offset));
    }
}

#[test]
fn the_marker_under_the_cursor_is_found() {
    let content = "x r[impl a.b] y r[c.d]";
    let markers = scan_markers(content, &all_eligible(content.len()));
    assert_eq!(marker_at_offset(&markers, 0), None);
    assert_eq!(marker_at_offset(&markers, 2), Some(0));
    assert_eq!(marker_at_offset(&markers, 12), Some(0));
    assert_eq!(marker_at_offset(&markers, 13), None);
    assert_eq!(marker_at_offset(&markers, 16), Some(1));
    assert_eq!(marker_at_offset(&markers, 21), Some(1));
    assert_eq!(marker_at_offset(&markers, 22), None);
    assert_eq!(marker_at_offset(&vec![], 0), None);
}

#[test]
fn markers_give_semantic_tokens() {
    let content = "// é r[impl auth.login+2]\n// shm[a.b]";
    let markers = scan_markers(content, &all_eligible(content.len()));
    let tokens = marker_tokens(content, &markers[0], 2);
    let seen: Vec<(u32, u32, u32, u32, u32)> = tokens
        .iter()
        .map(|t| (t.line, t.start_char, t.length, t.token_type, t.modifiers))
        .collect();
    assert_eq!(seen, vec![(0, 5, 1, 0, 2), (0, 7, 4, 1, 2), (0, 12, 12, 2, 2)]);
    let tokens = marker_tokens(content, &markers[1], 1);
    let seen: Vec<(u32, u32, u32, u32)> =
        tokens.iter().map(|t| (t.line, t.start_char, t.length, t.token_type)).collect();
    assert_eq!(seen, vec![(1, 3, 3, 0), (1, 7, 3, 2)]);

    let mut all = marker_tokens(content, &markers[0], 0);
    all.extend(marker_tokens(content, &markers[1], 0));
    assert!(in_order(&all));
    assert_eq!(encode_semantic_tokens(&all).len(), 5);
    all.swap(0, 4);
    assert!(!in_order(&all));
    assert!(in_order(&vec![]));

    let mut broken = markers[0].clone();
    broken.end = 999;
    assert!(marker_tokens(content, &broken, 0).is_empty());
    broken.end = broken.id_start;
    assert!(marker_tokens(content, &broken, 0).is_empty());
}

#[test]
fn all_references_to_a_rule_are_found() {
    let refs = tracey::source::scan_source_file(
        "src/lib.rs",
        "// r[impl a.b]\n// s[impl a.b]\n// r[verify a.b+2]\n// r[impl a.c]\n",
    );
    assert_eq!(references_to(&refs, "r", "a.b"), vec![0, 2]);
    assert_eq!(references_to(&refs, "s", "a.b"), vec![1]);
    assert_eq!(references_to(&refs, "r", "a.d"), Vec::<usize>::new());
    assert_eq!(references_to(&vec![], "r", "a.b"), Vec::<usize>::new());
}

#[test]
fn completions_match_loosely() {
    assert!(fuzzy_matches("", "auth.login"));
    assert!(fuzzy_matches("auth", "auth.login"));
    assert!(fuzzy_matches("alog", "auth.login"));
    assert!(fuzzy_matches("auth.login", "auth.login"));
    assert!(fuzzy_matches("nn", "nin"));
    assert!(!fuzzy_matches("nn", "n"));
    assert!(!fuzzy_matches("login.auth", "auth.login"));
    assert!(!fuzzy_matches("Auth", "auth.login"));
    assert!(!fuzzy_matches("x", ""));
    assert!(fuzzy_matches("", ""));
}

#[test]
fn renaming_a_rule_rewrites_its_base_and_keeps_the_version() {
    let content = "// r[impl auth.login+2]\n// r[define auth.login]\n// s[impl auth.login]\n// é r[auth.login] r[auth.logout]\n";
    let markers = scan_markers(content, &all_eligible(content.len()));
    let edits = rename_rule_edits(content, &markers, "r", "auth.login", "auth.sign-in");
    assert_eq!(
        edit_tuples(&edits),
        vec![
            (0, 10, 0, 20, "auth.sign-in"),
            (1, 12, 1, 22, "auth.sign-in"),
            (3, 7, 3, 17, "auth.sign-in"),
        ]
    );
    assert!(rename_rule_edits(content, &markers, "r", "auth.login", "auth.login").is_empty());
    assert!(rename_rule_edits(content, &markers, "r", "x.y", "x.y").is_empty());
    assert!(rename_rule_edits(content, &markers, "q", "auth.login", "a.b").is_empty());
    assert_eq!(rename_rule_edits(content, &markers, "s", "auth.login", "a.b").len(), 1);
}
