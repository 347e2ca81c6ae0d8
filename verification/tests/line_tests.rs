use stack_editor::annotation::AnnotationType;
use stack_editor::line::Line;
use stack_editor::width::TAB_WIDTH;

fn chars(s: &str) -> Vec<char> {
    s.chars().collect()
}

#[test]
fn width_until_totals_ascii() {
    let line = Line::from_str("hello");
    assert_eq!(line.grapheme_count(), 5);
    assert_eq!(line.width_until(5), 5);
    assert_eq!(line.width_until(100), 5);
}

#[test]
fn width_until_monotone() {
    let line = Line::from_str("a\u{597D}b\tc");
    let mut prev = 0;
    for g in 0..=line.grapheme_count() {
        let w = line.width_until(g);
        assert!(w >= prev);
        prev = w;
    }
}

#[test]
fn width_double_width_char() {
    let line = Line::from_str("a\u{597D}b");
    assert_eq!(line.grapheme_count(), 3);
    assert_eq!(line.width_until(1), 1);
    assert_eq!(line.width_until(2), 3);
    assert_eq!(line.width_until(3), 4);
}

#[test]
fn width_tab_policy() {
    let line = Line::from_str("\t");
    assert_eq!(line.grapheme_count(), 1);
    assert_eq!(line.width_until(1), TAB_WIDTH);
}

#[test]
fn combining_mark_joins_cluster() {
    let line = Line::from_str("e\u{0301}x");
    assert_eq!(line.grapheme_count(), 2);
    assert_eq!(line.width_until(1), 1);
    assert_eq!(line.width_until(2), 2);
}

#[test]
fn insert_then_remove_is_identity() {
    let mut line = Line::from_str("hello");
    let original = line.chars.clone();
    line.insert(2, 'x');
    assert_eq!(line.chars, chars("hexllo"));
    line.remove(2);
    assert_eq!(line.chars, original);
    assert_eq!(line.grapheme_count(), 5);
}

#[test]
fn insert_at_end_then_remove() {
    let mut line = Line::from_str("ab");
    line.insert(2, 'c');
    assert_eq!(line.chars, chars("abc"));
    line.remove(2);
    assert_eq!(line.chars, chars("ab"));
}

#[test]
fn insert_out_of_range_clamps_to_end() {
    let mut line = Line::from_str("ab");
    line.insert(99, 'c');
    assert_eq!(line.chars, chars("abc"));
}

#[test]
fn remove_out_of_range_is_noop() {
    let mut line = Line::from_str("ab");
    line.remove(5);
    assert_eq!(line.chars, chars("ab"));
}

#[test]
fn remove_takes_whole_cluster() {
    let mut line = Line::from_str("ae\u{0301}b");
    assert_eq!(line.grapheme_count(), 3);
    line.remove(1);
    assert_eq!(line.chars, chars("ab"));
}

#[test]
fn visible_substr_full_window() {
    let line = Line::from_str("abc");
    let out = line.get_annotated_visible_substr(0, 10, None, None);
    assert_eq!(out.chars, chars("abc"));
    assert!(out.annotations.is_empty());
}

#[test]
fn visible_substr_never_splits_wide_cluster() {
    let line = Line::from_str("a\u{597D}b");
    // Columns: 'a' spans [0,1), the wide character [1,3), 'b' [3,4).
    let out = line.get_annotated_visible_substr(0, 2, None, None);
    assert_eq!(out.chars, chars("a"));
    let out = line.get_annotated_visible_substr(1, 3, None, None);
    assert_eq!(out.chars, chars("\u{597D}"));
    let out = line.get_annotated_visible_substr(2, 4, None, None);
    assert_eq!(out.chars, chars("b"));
    let out = line.get_annotated_visible_substr(0, 4, None, None);
    assert_eq!(out.chars, chars("a\u{597D}b"));
}

#[test]
fn visible_substr_empty_window() {
    let line = Line::from_str("abc");
    let out = line.get_annotated_visible_substr(2, 2, None, None);
    assert!(out.chars.is_empty());
    assert!(out.annotations.is_empty());
}

#[test]
fn match_annotations_whole_line() {
    let line = Line::from_str("hello world hello");
    let query = Line::from_str("hello");
    let out = line.get_annotated_visible_substr(0, 100, Some(&query), None);
    assert_eq!(out.annotations.len(), 2);
    assert_eq!(out.annotations[0].start_byte_idx, 0);
    assert_eq!(out.annotations[0].end_byte_idx, 5);
    assert_eq!(out.annotations[0].annotation_type, AnnotationType::Match);
    assert_eq!(out.annotations[1].start_byte_idx, 12);
    assert_eq!(out.annotations[1].end_byte_idx, 17);
    assert_eq!(out.annotations[1].annotation_type, AnnotationType::Match);
}

#[test]
fn selected_match_retagged() {
    let line = Line::from_str("hello world hello");
    let query = Line::from_str("hello");
    let out = line.get_annotated_visible_substr(0, 100, Some(&query), Some(0));
    assert_eq!(out.annotations[0].annotation_type, AnnotationType::SelectedMatch);
    assert_eq!(out.annotations[1].annotation_type, AnnotationType::Match);
    // The second occurrence starts at grapheme 12.
    let out = line.get_annotated_visible_substr(0, 100, Some(&query), Some(12));
    assert_eq!(out.annotations[0].annotation_type, AnnotationType::Match);
    assert_eq!(out.annotations[1].annotation_type, AnnotationType::SelectedMatch);
}

#[test]
fn selected_match_must_start_occurrence() {
    let line = Line::from_str("hello");
    let query = Line::from_str("hello");
    let out = line.get_annotated_visible_substr(0, 100, Some(&query), Some(1));
    assert_eq!(out.annotations[0].annotation_type, AnnotationType::Match);
}

#[test]
fn annotations_clipped_to_window() {
    let line = Line::from_str("xhellox");
    let query = Line::from_str("hello");
    // Columns 2..7 keep "ellox"; the match's bytes [1,6) clip to [0,4).
    let out = line.get_annotated_visible_substr(2, 7, Some(&query), None);
    assert_eq!(out.chars, chars("ellox"));
    assert_eq!(out.annotations.len(), 1);
    assert_eq!(out.annotations[0].start_byte_idx, 0);
    assert_eq!(out.annotations[0].end_byte_idx, 4);
}

#[test]
fn annotations_outside_window_dropped() {
    let line = Line::from_str("hello world");
    let query = Line::from_str("hello");
    // Window keeps only "world": the match is wholly left of it.
    let out = line.get_annotated_visible_substr(6, 11, Some(&query), None);
    assert_eq!(out.chars, chars("world"));
    assert!(out.annotations.is_empty());
}

#[test]
fn empty_query_yields_no_annotations() {
    let line = Line::from_str("hello");
    let query = Line::from_str("");
    let out = line.get_annotated_visible_substr(0, 10, Some(&query), None);
    assert!(out.annotations.is_empty());
}

#[test]
fn overlapping_occurrences_do_not_overlap() {
    let line = Line::from_str("aaaa");
    let query = Line::from_str("aa");
    let out = line.get_annotated_visible_substr(0, 10, Some(&query), None);
    assert_eq!(out.annotations.len(), 2);
    assert_eq!(out.annotations[0].start_byte_idx, 0);
    assert_eq!(out.annotations[0].end_byte_idx, 2);
    assert_eq!(out.annotations[1].start_byte_idx, 2);
    assert_eq!(out.annotations[1].end_byte_idx, 4);
}

#[test]
fn multibyte_byte_offsets() {
    // Each of the two wide characters takes three bytes in UTF-8.
    let line = Line::from_str("\u{597D}\u{597D}ab");
    let query = Line::from_str("ab");
    let out = line.get_annotated_visible_substr(0, 100, Some(&query), None);
    assert_eq!(out.annotations.len(), 1);
    assert_eq!(out.annotations[0].start_byte_idx, 6);
    assert_eq!(out.annotations[0].end_byte_idx, 8);
}
