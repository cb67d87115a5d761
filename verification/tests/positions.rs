use tracey::positions::{ByteLength, ByteOffset, ByteSpan, LineNumber, LineStarts, RefLocation};

#[test]
fn byte_span_uses_inclusive_end_indices() {
    let span = ByteSpan::from_relative_indices(ByteOffset::from_usize(10), 5, 9);
    assert_eq!(span.offset().as_usize(), 15);
    assert_eq!(span.length().as_usize(), 5);
}

#[test]
fn line_starts_maps_offsets_to_one_based_lines() {
    let starts = LineStarts::from_content("a\nbc\ndef");
    assert_eq!(
        starts
            .line_number_for_offset(ByteOffset::from_usize(0))
            .as_usize(),
        1
    );
    assert_eq!(
        starts
            .line_number_for_offset(ByteOffset::from_usize(2))
            .as_usize(),
        2
    );
    assert_eq!(
        starts
            .line_number_for_offset(ByteOffset::from_usize(5))
            .as_usize(),
        3
    );
}

#[test]
fn line_number_after_check_is_one_step() {
    let previous = LineNumber::from_one_based(7);
    let next = LineNumber::from_one_based(8);
    let skipped = LineNumber::from_one_based(9);
    assert!(next.is_immediately_after(previous));
    assert!(!skipped.is_immediately_after(previous));
}

#[test]
fn line_numbers_count_from_one() {
    assert_eq!(LineNumber::from_zero_based(0).as_usize(), 1);
    assert_eq!(LineNumber::from_zero_based(41).as_usize(), 42);
    assert_eq!(LineNumber::from_one_based(1).as_usize(), 1);
}

#[test]
fn nothing_follows_the_last_line_but_itself() {
    let last = LineNumber::from_one_based(usize::MAX);
    assert!(last.is_immediately_after(last));
    assert!(!LineNumber::from_one_based(1).is_immediately_after(last));
}

#[test]
fn byte_offsets_add_up() {
    assert_eq!(ByteOffset::zero().as_usize(), 0);
    assert_eq!(ByteOffset::from_usize(7).add(5).as_usize(), 12);
    assert_eq!(ByteOffset::from_usize(7).add(0).as_usize(), 7);
}

#[test]
fn byte_length_counts_both_ends() {
    assert_eq!(ByteLength::from_inclusive_bounds(3, 3).as_usize(), 1);
    assert_eq!(ByteLength::from_inclusive_bounds(0, 9).as_usize(), 10);
}

#[test]
fn ref_location_keeps_line_and_span() {
    let location = RefLocation::from_relative_indices(
        LineNumber::from_one_based(4),
        ByteOffset::from_usize(100),
        2,
        6,
    );
    assert_eq!(location.line().as_usize(), 4);
    assert_eq!(location.span().offset().as_usize(), 102);
    assert_eq!(location.span().length().as_usize(), 5);
}

#[test]
fn line_starts_index_each_line_feed() {
    let starts = LineStarts::from_content("a\nbc\ndef");
    assert_eq!(starts.line_start_for_index(0).as_usize(), 0);
    assert_eq!(starts.line_start_for_index(1).as_usize(), 2);
    assert_eq!(starts.line_start_for_index(2).as_usize(), 5);
    assert_eq!(starts.line_start_for_index(3).as_usize(), 0);
}

#[test]
fn line_starts_of_empty_content() {
    let starts = LineStarts::from_content("");
    assert_eq!(starts.line_number_for_offset(ByteOffset::from_usize(0)).as_usize(), 1);
    assert_eq!(starts.line_number_for_offset(ByteOffset::from_usize(99)).as_usize(), 1);
    assert_eq!(starts.line_start_for_index(0).as_usize(), 0);
}

#[test]
fn line_starts_handle_trailing_line_feed_and_wide_characters() {
    let starts = LineStarts::from_content("é\nx\n");
    assert_eq!(starts.line_start_for_index(1).as_usize(), 3);
    assert_eq!(starts.line_start_for_index(2).as_usize(), 5);
    assert_eq!(starts.line_number_for_offset(ByteOffset::from_usize(2)).as_usize(), 1);
    assert_eq!(starts.line_number_for_offset(ByteOffset::from_usize(3)).as_usize(), 2);
    assert_eq!(starts.line_number_for_offset(ByteOffset::from_usize(5)).as_usize(), 3);
    let copy = starts.clone();
    assert_eq!(copy.line_start_for_index(1).as_usize(), 3);
}
