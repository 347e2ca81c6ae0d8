use stack_editor::annotation::AnnotationType;
use stack_editor::buffer::Buffer;
use stack_editor::line::Line;
use stack_editor::prelude::{Location, Position, Size};
use stack_editor::ui_component::{RowContent, UIComponent};
use stack_editor::view::View;

fn chars(s: &str) -> Vec<char> {
    s.chars().collect()
}

fn loaded_view(content: &str) -> View {
    let mut view = View::new();
    view.load("test.txt", content);
    view
}

#[test]
fn load_splits_lines() {
    let b = Buffer::load("f.txt", "hello\nworld");
    assert_eq!(b.height(), 2);
    assert_eq!(b.lines[0].chars, chars("hello"));
    assert_eq!(b.lines[1].chars, chars("world"));
    assert!(!b.dirty);
}

#[test]
fn load_trailing_newline_no_extra_line() {
    let b = Buffer::load("f.txt", "hello\nworld\n");
    assert_eq!(b.height(), 2);
}

#[test]
fn load_empty_content() {
    let b = Buffer::load("f.txt", "");
    assert_eq!(b.height(), 0);
}

#[test]
fn load_save_round_trip() {
    let content = "alpha\nbeta\n\ngamma";
    let b = Buffer::load("f.txt", content);
    let plan = b.save().expect("file name is known");
    assert_eq!(plan.file_name, "f.txt");
    assert_eq!(plan.content, chars(content));
}

#[test]
fn save_without_destination_fails() {
    let b = Buffer::new();
    assert!(b.save().is_none());
}

#[test]
fn save_as_records_identity() {
    let mut b = Buffer::load("f.txt", "data");
    let plan = b.save_as("g.txt");
    assert_eq!(plan.file_name, "g.txt");
    assert_eq!(plan.content, chars("data"));
    let plan2 = b.save().expect("identity updated");
    assert_eq!(plan2.file_name, "g.txt");
}

#[test]
fn dirty_set_on_edit_cleared_on_mark_saved() {
    let mut view = loaded_view("ab");
    assert!(!view.get_status().is_modified);
    view.insert_char('x');
    assert!(view.get_status().is_modified);
    view.mark_saved();
    assert!(!view.get_status().is_modified);
}

#[test]
fn status_no_name_placeholder() {
    let view = View::new();
    let status = view.get_status();
    assert_eq!(status.file_name, "No Name");
    assert_eq!(status.total_lines, 0);
    assert!(!view.is_file_loaded());
}

#[test]
fn delete_merges_following_line() {
    let mut view = loaded_view("abc\ndef");
    view.move_to_end_of_line();
    view.delete();
    let status = view.get_status();
    assert_eq!(status.total_lines, 1);
    assert_eq!(view.buffer.lines[0].chars, chars("abcdef"));
}

#[test]
fn delete_at_end_of_document_is_noop() {
    let mut view = loaded_view("abc");
    view.move_to_end_of_line();
    let was_dirty = view.get_status().is_modified;
    view.delete();
    assert_eq!(view.get_status().total_lines, 1);
    assert_eq!(view.buffer.lines[0].chars, chars("abc"));
    assert_eq!(view.get_status().is_modified, was_dirty);
}

#[test]
fn move_right_and_delete_scenario() {
    let mut view = loaded_view("hello world\nsecond line");
    for _ in 0..4 {
        view.move_right();
    }
    assert_eq!(view.text_location, Location { grapheme_idx: 4, line_idx: 0 });
    view.delete();
    assert_eq!(view.buffer.lines[0].chars, chars("hell world"));
}

#[test]
fn move_right_wraps_to_next_line() {
    let mut view = loaded_view("ab\ncd");
    view.move_to_end_of_line();
    view.move_right();
    assert_eq!(view.text_location, Location { grapheme_idx: 0, line_idx: 1 });
}

#[test]
fn move_left_wraps_to_previous_line_end() {
    let mut view = loaded_view("ab\ncd");
    view.move_down(1);
    view.move_left();
    assert_eq!(view.text_location, Location { grapheme_idx: 2, line_idx: 0 });
}

#[test]
fn move_down_clamps_to_one_past_last_line() {
    let mut view = loaded_view("ab\ncd");
    view.move_down(10);
    assert_eq!(view.text_location.line_idx, 2);
    assert_eq!(view.text_location.grapheme_idx, 0);
}

#[test]
fn move_up_snaps_grapheme() {
    let mut view = loaded_view("a\nlonger");
    view.move_down(1);
    view.move_to_end_of_line();
    view.move_up(1);
    assert_eq!(view.text_location, Location { grapheme_idx: 1, line_idx: 0 });
}

#[test]
fn insert_newline_splits_line() {
    let mut view = loaded_view("hello world");
    for _ in 0..5 {
        view.move_right();
    }
    view.insert_newline();
    assert_eq!(view.get_status().total_lines, 2);
    assert_eq!(view.buffer.lines[0].chars, chars("hello"));
    assert_eq!(view.buffer.lines[1].chars, chars(" world"));
    assert_eq!(view.text_location, Location { grapheme_idx: 0, line_idx: 1 });
}

#[test]
fn insert_char_advances_cursor() {
    let mut view = loaded_view("bc");
    view.insert_char('a');
    assert_eq!(view.buffer.lines[0].chars, chars("abc"));
    assert_eq!(view.text_location, Location { grapheme_idx: 1, line_idx: 0 });
}

#[test]
fn insert_combining_mark_keeps_cursor() {
    let mut view = loaded_view("ab");
    view.move_right();
    // A combining mark joins the previous cluster: the count stays, so
    // the cursor must not advance.
    view.insert_char('\u{0301}');
    assert_eq!(view.buffer.lines[0].chars, chars("a\u{0301}b"));
    assert_eq!(view.text_location, Location { grapheme_idx: 1, line_idx: 0 });
}

#[test]
fn delete_backward_joins_lines() {
    let mut view = loaded_view("ab\ncd");
    view.move_down(1);
    view.delete_backward();
    assert_eq!(view.get_status().total_lines, 1);
    assert_eq!(view.buffer.lines[0].chars, chars("abcd"));
    assert_eq!(view.text_location, Location { grapheme_idx: 2, line_idx: 0 });
}

#[test]
fn delete_backward_at_origin_is_noop() {
    let mut view = loaded_view("ab");
    view.delete_backward();
    assert_eq!(view.buffer.lines[0].chars, chars("ab"));
}

#[test]
fn search_finds_and_search_next_wraps() {
    let mut view = loaded_view("hello world\nsecond line");
    view.enter_search();
    view.search("line");
    assert_eq!(view.text_location, Location { grapheme_idx: 7, line_idx: 1 });
    // Only one occurrence: the next search wraps back to the same match.
    view.search_next();
    assert_eq!(view.text_location, Location { grapheme_idx: 7, line_idx: 1 });
}

#[test]
fn search_forward_backward_round_trip() {
    let b = Buffer::load("f.txt", "one two\nthree two one");
    let q = Line::from_str("two");
    let start = Location { grapheme_idx: 0, line_idx: 0 };
    let fwd = b.search_forward(&q, start).expect("query occurs");
    assert_eq!(fwd, Location { grapheme_idx: 4, line_idx: 0 });
    let bwd = b.search_backward(&q, fwd).expect("reversal keeps a match");
    assert_eq!(bwd, Location { grapheme_idx: 6, line_idx: 1 });
    let bwd2 = b.search_backward(&q, bwd).expect("reversal keeps a match");
    assert_eq!(bwd2, Location { grapheme_idx: 4, line_idx: 0 });
}

#[test]
fn search_empty_query_finds_nothing() {
    let b = Buffer::load("f.txt", "abc");
    let q = Line::from_str("");
    let start = Location { grapheme_idx: 0, line_idx: 0 };
    assert!(b.search_forward(&q, start).is_none());
    assert!(b.search_backward(&q, start).is_none());
}

#[test]
fn search_absent_query_finds_nothing() {
    let b = Buffer::load("f.txt", "abc\ndef");
    let q = Line::from_str("zzz");
    let start = Location { grapheme_idx: 0, line_idx: 0 };
    assert!(b.search_forward(&q, start).is_none());
}

#[test]
fn search_wraps_to_document_start() {
    let b = Buffer::load("f.txt", "target\nplain");
    let q = Line::from_str("target");
    let from = Location { grapheme_idx: 0, line_idx: 1 };
    let hit = b.search_forward(&q, from).expect("wraps around");
    assert_eq!(hit, Location { grapheme_idx: 0, line_idx: 0 });
}

#[test]
fn dismiss_search_restores_position() {
    let mut view = loaded_view("hello\nworld");
    let before = view.text_location;
    view.enter_search();
    view.search("world");
    assert_ne!(view.text_location, before);
    view.dismiss_search();
    assert_eq!(view.text_location, before);
}

#[test]
fn exit_search_keeps_match_position() {
    let mut view = loaded_view("hello\nworld");
    view.enter_search();
    view.search("world");
    let at_match = view.text_location;
    view.exit_search();
    assert_eq!(view.text_location, at_match);
}

#[test]
fn search_match_centers_scroll() {
    let mut view = loaded_view("a\nb\nc\nd\ne\nf\ntarget\nh\ni\nj");
    view.resize(Size { height: 2, width: 10 });
    view.enter_search();
    view.search("target");
    assert_eq!(view.text_location.line_idx, 6);
    // Centered: row offset is the caret row minus half the height.
    assert_eq!(view.scroll_offset.row, 5);
}

#[test]
fn caret_position_subtracts_scroll() {
    let mut view = loaded_view("one\ntwo\nthree\nfour");
    view.resize(Size { height: 2, width: 10 });
    view.move_down(3);
    view.scroll_text_location_into_view();
    let caret = view.caret_position();
    assert_eq!(view.text_location_to_position(), Position { col: 0, row: 3 });
    assert!(caret.row < 2);
}

#[test]
fn scroll_into_view_moves_minimally() {
    let mut view = loaded_view("a\nb\nc\nd\ne");
    view.resize(Size { height: 2, width: 5 });
    view.move_down(3);
    view.scroll_text_location_into_view();
    // Row 3 becomes the last visible row of a two-row window.
    assert_eq!(view.scroll_offset.row, 2);
}

#[test]
fn wide_caret_column() {
    let mut view = loaded_view("\u{597D}x");
    view.move_right();
    let pos = view.text_location_to_position();
    assert_eq!(pos.col, 2);
}

#[test]
fn welcome_message_fits_width() {
    let row = View::build_welcome_message(50);
    assert_eq!(row.len(), 50);
    assert_eq!(row[0], '~');
    let s: String = row.iter().collect();
    assert!(s.contains("stack-editor"));
}

#[test]
fn welcome_message_too_narrow() {
    assert_eq!(View::build_welcome_message(5), chars("~"));
    assert!(View::build_welcome_message(0).is_empty());
}

#[test]
fn draw_rows_empty_document() {
    let mut view = View::new();
    view.resize(Size { height: 3, width: 60 });
    let rows = view.draw_rows(0);
    assert_eq!(rows.len(), 3);
    // Height 3 puts the welcome row at row 1; the rest are tildes.
    match &rows[0].content {
        RowContent::Plain(p) => assert_eq!(p, &chars("~")),
        RowContent::Annotated(_) => panic!("expected a plain row"),
    }
    match &rows[1].content {
        RowContent::Plain(p) => {
            let s: String = p.iter().collect();
            assert!(s.contains("stack-editor"));
        },
        RowContent::Annotated(_) => panic!("expected the welcome row"),
    }
}

#[test]
fn draw_rows_document_lines() {
    let mut view = loaded_view("hello\nworld");
    view.resize(Size { height: 3, width: 20 });
    let rows = view.draw_rows(0);
    assert_eq!(rows.len(), 3);
    match &rows[0].content {
        RowContent::Annotated(a) => assert_eq!(a.chars, chars("hello")),
        RowContent::Plain(_) => panic!("expected an annotated row"),
    }
    match &rows[2].content {
        RowContent::Plain(p) => assert_eq!(p, &chars("~")),
        RowContent::Annotated(_) => panic!("expected a tilde row"),
    }
}

#[test]
fn render_clears_redraw_flag() {
    let mut view = loaded_view("hello");
    view.resize(Size { height: 2, width: 10 });
    assert!(view.needs_redraw());
    let rows = view.render(0);
    assert_eq!(rows.len(), 2);
    assert!(!view.needs_redraw());
    let rows_again = view.render(0);
    assert!(rows_again.is_empty());
}

#[test]
fn typing_at_phantom_line_appends() {
    let mut view = loaded_view("ab");
    view.move_down(1);
    view.insert_char('x');
    assert_eq!(view.get_status().total_lines, 2);
    assert_eq!(view.buffer.lines[1].chars, chars("x"));
}

#[test]
fn dismiss_search_tolerates_resize() {
    let mut view = loaded_view("a\nb\nc\nd\ne\nf\ntarget");
    view.resize(Size { height: 4, width: 10 });
    view.enter_search();
    view.search("target");
    // The terminal shrinks while the search session is open.
    view.resize(Size { height: 2, width: 10 });
    view.dismiss_search();
    assert_eq!(view.text_location, Location { grapheme_idx: 0, line_idx: 0 });
    // The restored cursor is scrolled back into the (new) window.
    assert_eq!(view.scroll_offset.row, 0);
    let caret = view.caret_position();
    assert!(caret.row < 2);
}

#[test]
fn horizontal_scroll_follows_cursor() {
    let mut view = loaded_view("abcdefghijklmnop");
    view.resize(Size { height: 2, width: 5 });
    view.move_to_end_of_line();
    view.scroll_text_location_into_view();
    // Column 16 becomes the last cell of a five-column window.
    assert_eq!(view.scroll_offset.col, 12);
}

#[test]
fn draw_rows_mark_selected_match() {
    let mut view = loaded_view("say hello twice hello");
    view.resize(Size { height: 2, width: 40 });
    view.enter_search();
    view.search("hello");
    assert_eq!(view.text_location, Location { grapheme_idx: 4, line_idx: 0 });
    let rows = view.draw_rows(0);
    match &rows[0].content {
        RowContent::Annotated(a) => {
            assert_eq!(a.annotations.len(), 2);
            assert_eq!(a.annotations[0].annotation_type, AnnotationType::SelectedMatch);
            assert_eq!(a.annotations[1].annotation_type, AnnotationType::Match);
        }
        RowContent::Plain(_) => panic!("expected an annotated row"),
    }
}

#[test]
fn search_next_advances_between_matches() {
    let mut view = loaded_view("hello hello");
    view.enter_search();
    view.search("hello");
    assert_eq!(view.text_location, Location { grapheme_idx: 0, line_idx: 0 });
    view.search_next();
    assert_eq!(view.text_location, Location { grapheme_idx: 6, line_idx: 0 });
    view.search_next();
    assert_eq!(view.text_location, Location { grapheme_idx: 0, line_idx: 0 });
}

#[test]
fn search_prev_moves_backward() {
    let mut view = loaded_view("hello hello");
    view.enter_search();
    view.search("hello");
    view.search_next();
    assert_eq!(view.text_location, Location { grapheme_idx: 6, line_idx: 0 });
    view.search_prev();
    assert_eq!(view.text_location, Location { grapheme_idx: 0, line_idx: 0 });
}

#[test]
fn resize_stores_size_and_forces_redraw() {
    let mut view = loaded_view("hello");
    view.resize(Size { height: 2, width: 10 });
    let _ = view.render(0);
    assert!(!view.needs_redraw());
    view.resize(Size { height: 4, width: 7 });
    assert_eq!(view.get_size(), Size { height: 4, width: 7 });
    assert!(view.needs_redraw());
}
