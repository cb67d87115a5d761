use tracey::markdown::{
    apply_events, common_indent, dedent_by, dedent_with_index_map, is_code_index,
    markdown_code_mask, markdown_fence_mask, MdEvent, MdKind,
};

fn shown(mask: &[bool]) -> String {
    mask.iter().map(|&m| if m { '#' } else { '.' }).collect()
}

#[test]
fn code_is_masked() {
    let text = "a `b` c\n\n```\nd\n```\ne\n";
    assert_eq!(shown(&markdown_code_mask(text)), "..###....#########...");
    assert_eq!(markdown_code_mask(text).len(), text.len());
}

#[test]
fn the_fence_mask_leaves_inline_code_open() {
    let text = "a `b` c\n\n```\nd\n```\ne\n";
    let fence = markdown_fence_mask(text);
    assert_eq!(shown(&fence[..9]), ".........");
    assert!(fence[9..18].iter().all(|&m| m));
    assert_eq!(shown(&fence[18..]), "...");
    let code = markdown_code_mask(text);
    for (i, &fenced) in fence.iter().enumerate() {
        assert!(!fenced || code[i]);
    }
}

#[test]
fn plain_text_and_indented_code_are_not_masked() {
    assert!(markdown_code_mask("just text\n\n> quote r[a.b]\n").iter().all(|&m| !m));
    assert!(markdown_code_mask("text\n\n    indented code\n").iter().all(|&m| !m));
    assert!(markdown_code_mask("").is_empty());
}

#[test]
fn an_indented_fence_is_found_through_the_dedent() {
    let text = "    intro\n\n    ```\n    x\n    ```\n";
    let mask = markdown_code_mask(text);
    assert!(!mask[4]);
    assert!(mask[15] && mask[16] && mask[17]);
    assert!(mask[23]);
    assert!(!mask[11]);
}

#[test]
fn is_code_index_is_safe_behind_the_mask() {
    let mask = [false, true];
    assert!(!is_code_index(0, &mask));
    assert!(is_code_index(1, &mask));
    assert!(!is_code_index(2, &mask));
    assert!(!is_code_index(usize::MAX, &mask));
    assert!(!is_code_index(0, &[]));
}

#[test]
fn the_common_indent_is_the_least_of_the_written_lines() {
    assert_eq!(common_indent(b""), 0);
    assert_eq!(common_indent(b"a\n  b\n"), 0);
    assert_eq!(common_indent(b"    a\n  b\n      c"), 2);
    assert_eq!(common_indent(b"    a\n\n \n    b\n"), 4);
    assert_eq!(common_indent(b"\t\ta\n\t b\n"), 2);
    assert_eq!(common_indent(b"   \n\t\n"), 0);
    assert_eq!(common_indent(b"  \xc2\xa0x\n    y\n"), 2);
}

#[test]
fn dedent_maps_back_to_the_given_text() {
    let (normalized, map) = dedent_with_index_map("  ab\n    cd\n\n e\n");
    assert_eq!(normalized, b" ab\n   cd\n\ne\n");
    assert_eq!(map, vec![1, 2, 3, 4, 6, 7, 8, 9, 10, 11, 12, 14, 15]);
    let (normalized, map) = dedent_with_index_map("  ab\n    cd\n\n  e");
    assert_eq!(normalized, b"ab\n  cd\n\ne");
    assert_eq!(map, vec![2, 3, 4, 7, 8, 9, 10, 11, 12, 15]);
    let (normalized, map) = dedent_with_index_map("é\n");
    assert_eq!(normalized, "é\n".as_bytes());
    assert_eq!(map, vec![0, 1, 2]);
    let (normalized, map) = dedent_with_index_map("");
    assert!(normalized.is_empty() && map.is_empty());
}

#[test]
fn dedent_by_takes_no_more_than_a_line_has() {
    let (normalized, map) = dedent_by(b"    a\n b\n\tc", 2);
    assert_eq!(normalized, b"  a\nb\nc");
    assert_eq!(map, vec![2, 3, 4, 5, 7, 8, 10]);
    let (normalized, _) = dedent_by(b"  a\n", 0);
    assert_eq!(normalized, b"  a\n");
}

fn event(kind: MdKind, start: usize, end: usize) -> MdEvent {
    MdEvent { kind, start, end }
}

#[test]
fn events_mark_the_bytes_they_cover() {
    let map: Vec<usize> = (0..10).map(|i| i + 2).collect();
    let events = vec![
        event(MdKind::Other, 0, 1),
        event(MdKind::InlineCode, 1, 3),
        event(MdKind::IndentedStart, 3, 5),
        event(MdKind::Other, 3, 5),
        event(MdKind::CodeBlockEnd, 3, 5),
        event(MdKind::FencedStart, 5, 8),
        event(MdKind::Other, 6, 7),
        event(MdKind::InlineCode, 6, 7),
        event(MdKind::CodeBlockEnd, 5, 8),
        event(MdKind::Other, 8, 10),
    ];
    assert_eq!(shown(&apply_events(&events, &map, 12, true)), "...##..###..");
    assert_eq!(shown(&apply_events(&events, &map, 12, false)), ".......###..");
    assert_eq!(shown(&apply_events(&events, &map, 8, true)), "...##..#");
    assert_eq!(shown(&apply_events(&vec![], &map, 3, true)), "...");
}

#[test]
fn events_beyond_the_text_are_harmless() {
    let map = vec![0usize, 1, 99];
    let events = vec![
        event(MdKind::FencedStart, 1, 500),
        event(MdKind::InlineCode, 7, 3),
        event(MdKind::InlineCode, usize::MAX, usize::MAX),
    ];
    assert_eq!(shown(&apply_events(&events, &map, 3, true)), ".#.");
}

#[test]
fn a_line_of_unicode_white_space_is_blank() {
    assert_eq!(common_indent("  a\n\u{a0}\n  b\n".as_bytes()), 2);
    assert_eq!(common_indent("  a\n\u{3000}\u{2003} \u{85}\n  b\n".as_bytes()), 2);
    assert_eq!(common_indent("  a\n\u{1680}\u{2028}\u{202f}\u{205f}\n  b\n".as_bytes()), 2);
    assert_eq!(common_indent("  a\n\u{a0}x\n  b\n".as_bytes()), 0);
    assert_eq!(common_indent("  a\n\u{200b}\n  b\n".as_bytes()), 0);
    let (normalized, map) = dedent_with_index_map("  a\n\u{a0}\n  b");
    assert_eq!(normalized, "a\n\u{a0}\nb".as_bytes());
    assert_eq!(map, vec![2, 3, 4, 5, 6, 9]);
}

#[test]
fn dedenting_twice_is_dedenting_once() {
    for text in ["  ab\n    cd\n\n e\n", "\t\tx\n\t\t\ty\n", "  a\n\u{a0}\n  b", "flush\n  in\n", "   \n  \n", ""] {
        let (once, _) = dedent_with_index_map(text);
        let as_text = String::from_utf8(once.clone()).expect("whole characters stay");
        let (twice, map) = dedent_with_index_map(&as_text);
        assert_eq!(twice, once);
        assert_eq!(map, (0..once.len()).collect::<Vec<usize>>());
        assert_eq!(common_indent(&once), 0);
    }
}
