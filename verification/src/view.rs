//! The viewport/cursor controller: holds the text location, the scroll
//! offset and the visible size, converts the text location to a display
//! position, decides when to scroll, and produces the render plan for the
//! visible window. It also drives the transient search session.

use vstd::prelude::*;
use vstd::view::View as _;
use vstd::math::min;

use crate::buffer::{
    delete_changes, deleted_texts, inserted_char_texts, newline_texts, Buffer, SavePlan,
};
use crate::document_status::DocumentStatus;
use crate::line::{
    chars_of, clip_annotations, first_kept, last_kept_end, match_annotations, visible_text_from,
    Line, MAX_LINE_CHARS,
};
use crate::prelude::{half_up, sat_add, sat_sub, Col, GraphemeIdx, Location, Position, Row, Size};
use crate::ui_component::{RowContent, RowRender, UIComponent};

verus! {

/// The state snapshotted when a search session begins, restored when it
/// is dismissed.
pub struct SearchInfo {
    /// The cursor location before the search began.
    pub prev_location: Location,
    /// The scroll offset before the search began.
    pub prev_scroll_offset: Position,
    /// The current query, once one has been typed.
    pub query: Option<Line>,
}

/// How a scroll offset follows a target coordinate along one axis: pulled
/// back to the target when the target lies before the window, pushed
/// just far enough when it lies at or past the window's end, and left
/// alone when the target is already visible.
pub open spec fn scrolled_axis(offset: int, to: int, extent: int) -> int {
    if to < offset {
        to
    } else if to >= sat_add(offset, extent) {
        sat_add(sat_sub(to, extent), 1)
    } else {
        offset
    }
}

/// Whether the target lies outside the window along one axis, so that a
/// minimal scroll moves the offset.
pub open spec fn scroll_hits(offset: int, to: int, extent: int) -> bool {
    to < offset || to >= sat_add(offset, extent)
}

/// The grapheme count of line `li`, or zero when the index is out of
/// range.
pub open spec fn line_count_at(b: Buffer, li: int) -> int {
    if 0 <= li < b.lines@.len() {
        b.lines@[li].frags().len() as int
    } else {
        0
    }
}

/// The display column of `loc` in `b`: the width of the clusters before
/// the cursor on its line, or zero past the last line.
pub open spec fn caret_col_of(b: Buffer, loc: Location) -> int {
    if (loc.line_idx as int) < b.texts().len() {
        b.lines@[loc.line_idx as int].width_until_spec(loc.grapheme_idx as int) as int
    } else {
        0
    }
}

/// Where the cursor lands after one step right: the next cluster of its
/// line, or the start of the following line (clamped to one past the last
/// line) when it sits at or past the line's end.
pub open spec fn moved_right_from(b: Buffer, loc: Location) -> Location {
    let li = loc.line_idx as int;
    let g = loc.grapheme_idx as int;
    if g < line_count_at(b, li) {
        Location { grapheme_idx: (g + 1) as usize, line_idx: loc.line_idx }
    } else {
        Location {
            grapheme_idx: 0,
            line_idx: min(sat_add(li, 1), b.texts().len() as int) as usize,
        }
    }
}

/// Where the cursor lands after one step left: the previous cluster, or
/// the end of the previous line when it sits at a line start, or in place
/// at the document start.
pub open spec fn moved_left_from(b: Buffer, loc: Location) -> Location {
    let li = loc.line_idx as int;
    let g = loc.grapheme_idx as int;
    if g > 0 {
        Location { grapheme_idx: (g - 1) as usize, line_idx: loc.line_idx }
    } else if li > 0 {
        Location { grapheme_idx: line_count_at(b, li - 1) as usize, line_idx: (li - 1) as usize }
    } else {
        loc
    }
}

/// The viewport/cursor controller.
pub struct View {
    /// The document being viewed and edited.
    pub buffer: Buffer,
    /// Whether the component must be redrawn.
    pub needs_redraw: bool,
    /// The visible size in rows and columns.
    pub size: Size,
    /// The cursor, as a text position.
    pub text_location: Location,
    /// The origin of the visible region, in display space.
    pub scroll_offset: Position,
    /// The active search session, if any.
    pub search_info: Option<SearchInfo>,
}

impl View {
    /// Well-formedness: the buffer's lines and any stored query are
    /// well-formed.
    pub open spec fn wf(self) -> bool {
        &&& self.buffer.wf()
        &&& match self.search_info {
            Some(si) => match si.query {
                Some(q) => q.wf(),
                None => true,
            },
            None => true,
        }
    }

    /// The current query's text, when a search session holds one.
    pub open spec fn query_text(self) -> Option<Seq<char>> {
        match self.search_info {
            Some(si) => match si.query {
                Some(q) => Some(q.text()),
                None => None,
            },
            None => None,
        }
    }

    /// The cursor's display row.
    pub open spec fn caret_row_spec(self) -> int {
        self.text_location.line_idx as int
    }

    /// The cursor's display column.
    pub open spec fn caret_col_spec(self) -> int {
        caret_col_of(self.buffer, self.text_location)
    }

    /// The scroll offset that puts the cursor at the window's midpoint.
    pub open spec fn centered_scroll_spec(self) -> Position {
        Position {
            row: sat_sub(self.caret_row_spec(), half_up(self.size.height as int)) as usize,
            col: sat_sub(self.caret_col_spec(), half_up(self.size.width as int)) as usize,
        }
    }

    /// A freshly constructed view over an empty document.
    pub fn new() -> (r: View)
        ensures
            r.wf(),
            r.buffer.texts().len() == 0,
            r.text_location == (Location { grapheme_idx: 0, line_idx: 0 }),
            r.scroll_offset == (Position { col: 0, row: 0 }),
            r.search_info is None,
            r.needs_redraw,
            r.size == (Size { height: 0, width: 0 }),
    {
        View {
            buffer: Buffer::new(),
            needs_redraw: true,
            size: Size { height: 0, width: 0 },
            text_location: Location { grapheme_idx: 0, line_idx: 0 },
            scroll_offset: Position { col: 0, row: 0 },
            search_info: None,
        }
    }

    /// The status snapshot: line count, cursor line, file display name,
    /// modified flag.
    pub fn get_status(&self) -> (r: DocumentStatus)
        ensures
            r.total_lines == self.buffer.texts().len(),
            r.current_line_idx == self.text_location.line_idx,
            r.is_modified == self.buffer.dirty,
            self.buffer.file_info.name_view() matches Some(n) ==> r.file_name@ == n,
            self.buffer.file_info.name_view() is None ==> r.file_name@ == "No Name"@,
    {
        DocumentStatus {
            total_lines: self.buffer.height(),
            current_line_idx: self.text_location.line_idx,
            file_name: self.buffer.file_info.display_name(),
            is_modified: self.buffer.dirty,
        }
    }

    /// Whether a file is associated with the document.
    pub fn is_file_loaded(&self) -> (r: bool)
        ensures
            r == (self.buffer.file_info.name_view() is Some),
    {
        self.buffer.is_file_loaded()
    }

    /// Replaces the document with one loaded from `content` (the decoded
    /// bytes of the file named `file_name`) and schedules a redraw.
    pub fn load(&mut self, file_name: &str, content: &str)
        requires
            old(self).wf(),
        ensures
            final(self).wf(),
            content@.len() <= MAX_LINE_CHARS ==> final(self).buffer.texts()
                == crate::buffer::split_lines(content@),
            final(self).buffer.file_info.name_view() == Some(file_name@),
            !final(self).buffer.dirty,
            final(self).needs_redraw,
            final(self).text_location == old(self).text_location,
            final(self).scroll_offset == old(self).scroll_offset,
            final(self).search_info == old(self).search_info,
            final(self).size == old(self).size,
    {
        self.buffer = Buffer::load(file_name, content);
        self.needs_redraw = true;
    }

    /// The save handoff for the associated file, owed exactly when one is
    /// known; the caller writes it and confirms with `mark_saved`.
    pub fn save(&mut self) -> (r: Option<SavePlan>)
        requires
            old(self).wf(),
        ensures
            *final(self) == *old(self),
            match r {
                Some(plan) => {
                    &&& old(self).buffer.file_info.name_view() == Some(plan.file_name@)
                    &&& plan.content@ == crate::buffer::join_lines(old(self).buffer.texts())
                },
                None => old(self).buffer.file_info.name_view() is None,
            },
    {
        self.buffer.save()
    }

    /// The save handoff toward a new destination, which becomes the
    /// document's file identity.
    pub fn save_as(&mut self, file_name: &str) -> (r: SavePlan)
        requires
            old(self).wf(),
        ensures
            final(self).wf(),
            final(self).buffer.texts() == old(self).buffer.texts(),
            final(self).buffer.dirty == old(self).buffer.dirty,
            final(self).buffer.file_info.name_view() == Some(file_name@),
            r.file_name@ == file_name@,
            r.content@ == crate::buffer::join_lines(old(self).buffer.texts()),
            final(self).text_location == old(self).text_location,
            final(self).scroll_offset == old(self).scroll_offset,
            final(self).search_info == old(self).search_info,
            final(self).size == old(self).size,
            final(self).needs_redraw == old(self).needs_redraw,
    {
        self.buffer.save_as(file_name)
    }

    /// Records that the handed-out content reached its destination.
    pub fn mark_saved(&mut self)
        requires
            old(self).wf(),
        ensures
            final(self).wf(),
            final(self).buffer.texts() == old(self).buffer.texts(),
            final(self).buffer.file_info == old(self).buffer.file_info,
            !final(self).buffer.dirty,
            final(self).text_location == old(self).text_location,
    {
        self.buffer.mark_saved();
        proof {
            assert(final(self).buffer.texts() =~= old(self).buffer.texts());
        }
    }

    /// Inserts `character` at the cursor; when the line's cluster count
    /// grew, the cursor steps right over the new cluster.
    pub fn insert_char(&mut self, character: char)
        requires
            old(self).wf(),
        ensures
            final(self).wf(),
            final(self).buffer.texts() == inserted_char_texts(
                old(self).buffer,
                character,
                old(self).text_location,
            ),
            final(self).buffer.dirty == (old(self).buffer.dirty || old(self).text_location.line_idx <= old(self).buffer.texts().len()),
            final(self).needs_redraw,
            final(self).search_info == old(self).search_info,
            final(self).scroll_offset == old(self).scroll_offset,
            final(self).size == old(self).size,
            final(self).text_location == (if line_count_at(
                final(self).buffer,
                old(self).text_location.line_idx as int,
            ) > line_count_at(old(self).buffer, old(self).text_location.line_idx as int) {
                moved_right_from(final(self).buffer, old(self).text_location)
            } else {
                old(self).text_location
            }),
    {
        let li = self.text_location.line_idx;
        let old_len = if li < self.buffer.height() {
            self.buffer.lines[li].grapheme_count()
        } else {
            0
        };
        self.buffer.insert_char(character, self.text_location);
        let new_len = if li < self.buffer.height() {
            self.buffer.lines[li].grapheme_count()
        } else {
            0
        };
        if new_len > old_len {
            self.move_right();
        }
        self.needs_redraw = true;
    }

    /// Splits the cursor's line in two at the cursor and steps right onto
    /// the start of the new line.
    pub fn insert_newline(&mut self)
        requires
            old(self).wf(),
        ensures
            final(self).wf(),
            final(self).buffer.texts() == newline_texts(old(self).buffer, old(self).text_location),
            final(self).buffer.dirty == (old(self).buffer.dirty || old(self).text_location.line_idx <= old(self).buffer.texts().len()),
            final(self).needs_redraw,
            final(self).search_info == old(self).search_info,
            final(self).scroll_offset == old(self).scroll_offset,
            final(self).size == old(self).size,
            final(self).text_location == moved_right_from(
                final(self).buffer,
                old(self).text_location,
            ),
    {
        self.buffer.insert_newline(self.text_location);
        self.move_right();
        self.needs_redraw = true;
    }

    /// Deletes at the cursor: removes the cluster there, or joins the
    /// following line onto this one at a line's end; a no-op at the true
    /// end of the document. The cursor stays in place.
    pub fn delete(&mut self)
        requires
            old(self).wf(),
        ensures
            final(self).wf(),
            final(self).buffer.texts() == deleted_texts(old(self).buffer, old(self).text_location),
            final(self).buffer.dirty == (old(self).buffer.dirty || delete_changes(
                old(self).buffer,
                old(self).text_location,
            )),
            final(self).needs_redraw,
            final(self).text_location == old(self).text_location,
            final(self).search_info == old(self).search_info,
            final(self).scroll_offset == old(self).scroll_offset,
            final(self).size == old(self).size,
    {
        self.buffer.delete(self.text_location);
        self.needs_redraw = true;
    }

    /// Deletes the cluster before the cursor: steps left, then deletes
    /// there (joining lines when the step crossed a line start). A no-op
    /// at the document start.
    pub fn delete_backward(&mut self)
        requires
            old(self).wf(),
        ensures
            final(self).wf(),
            ({
                let at = moved_left_from(old(self).buffer, old(self).text_location);
                if old(self).text_location.line_idx != 0 || old(self).text_location.grapheme_idx
                    != 0 {
                    &&& final(self).buffer.texts() == deleted_texts(old(self).buffer, at)
                    &&& final(self).text_location == at
                    &&& final(self).needs_redraw
                } else {
                    &&& final(self).buffer.texts() == old(self).buffer.texts()
                    &&& final(self).text_location == old(self).text_location
                    &&& final(self).needs_redraw == old(self).needs_redraw
                }
            }),
            final(self).search_info == old(self).search_info,
            final(self).scroll_offset == old(self).scroll_offset,
            final(self).size == old(self).size,
    {
        if self.text_location.line_idx != 0 || self.text_location.grapheme_idx != 0 {
            self.move_left();
            self.delete();
        }
    }

    /// The cursor's absolute display position: its line index as the row
    /// and the width of the clusters before it as the column.
    pub fn text_location_to_position(&self) -> (r: Position)
        requires
            self.wf(),
        ensures
            r.row == self.caret_row_spec(),
            r.col == self.caret_col_spec(),
    {
        let row = self.text_location.line_idx;
        let col = if row < self.buffer.height() {
            proof {
                assert(self.buffer.lines@[row as int].wf());
            }
            self.buffer.lines[row].width_until(self.text_location.grapheme_idx)
        } else {
            0
        };
        Position { col, row }
    }

    /// The cursor's position within the visible window: its display
    /// position minus the scroll offset, clamped at zero.
    pub fn caret_position(&self) -> (r: Position)
        requires
            self.wf(),
        ensures
            r.row == sat_sub(self.caret_row_spec(), self.scroll_offset.row as int),
            r.col == sat_sub(self.caret_col_spec(), self.scroll_offset.col as int),
    {
        self.text_location_to_position().saturating_sub(self.scroll_offset)
    }

    /// Moves the cursor `step` lines up, snapping the cluster index to
    /// the target line's range.
    pub fn move_up(&mut self, step: usize)
        requires
            old(self).wf(),
        ensures
            final(self).wf(),
            final(self).text_location.line_idx == sat_sub(
                old(self).text_location.line_idx as int,
                step as int,
            ),
            final(self).text_location.grapheme_idx == (if (final(self).text_location.line_idx as int) < old(self).buffer.texts().len() {
                min(
                    old(self).text_location.grapheme_idx as int,
                    line_count_at(old(self).buffer, final(self).text_location.line_idx as int),
                )
            } else {
                0
            }),
            final(self).buffer == old(self).buffer,
            final(self).scroll_offset == old(self).scroll_offset,
            final(self).search_info == old(self).search_info,
            final(self).size == old(self).size,
            final(self).needs_redraw == old(self).needs_redraw,
    {
        self.text_location.line_idx = self.text_location.line_idx.saturating_sub(step);
        self.snap_to_valid_grapheme();
    }

    /// Moves the cursor `step` lines down, snapping the cluster index to
    /// the target line's range and the line index to at most one past the
    /// last line.
    pub fn move_down(&mut self, step: usize)
        requires
            old(self).wf(),
        ensures
            final(self).wf(),
            final(self).text_location.line_idx == min(
                sat_add(old(self).text_location.line_idx as int, step as int),
                old(self).buffer.texts().len() as int,
            ),
            final(self).text_location.grapheme_idx == (if sat_add(
                old(self).text_location.line_idx as int,
                step as int,
            ) < old(self).buffer.texts().len() {
                min(
                    old(self).text_location.grapheme_idx as int,
                    line_count_at(
                        old(self).buffer,
                        sat_add(old(self).text_location.line_idx as int, step as int),
                    ),
                )
            } else {
                0
            }),
            final(self).buffer == old(self).buffer,
            final(self).scroll_offset == old(self).scroll_offset,
            final(self).search_info == old(self).search_info,
            final(self).size == old(self).size,
            final(self).needs_redraw == old(self).needs_redraw,
    {
        self.text_location.line_idx = self.text_location.line_idx.saturating_add(step);
        self.snap_to_valid_grapheme();
        self.snap_to_valid_line();
    }

    /// Moves the cursor one cluster right, flowing onto the start of the
    /// next line past a line's end.
    pub fn move_right(&mut self)
        requires
            old(self).wf(),
        ensures
            final(self).wf(),
            final(self).text_location == moved_right_from(
                old(self).buffer,
                old(self).text_location,
            ),
            final(self).buffer == old(self).buffer,
            final(self).scroll_offset == old(self).scroll_offset,
            final(self).search_info == old(self).search_info,
            final(self).size == old(self).size,
            final(self).needs_redraw == old(self).needs_redraw,
    {
        let li = self.text_location.line_idx;
        let line_width = if li < self.buffer.height() {
            self.buffer.lines[li].grapheme_count()
        } else {
            0
        };
        if self.text_location.grapheme_idx < line_width {
            self.text_location.grapheme_idx = self.text_location.grapheme_idx + 1;
        } else {
            self.move_to_start_of_line();
            self.move_down(1);
        }
    }

    /// Moves the cursor one cluster left, flowing onto the end of the
    /// previous line at a line start.
    pub fn move_left(&mut self)
        requires
            old(self).wf(),
        ensures
            final(self).wf(),
            final(self).text_location == moved_left_from(old(self).buffer, old(self).text_location),
            final(self).buffer == old(self).buffer,
            final(self).scroll_offset == old(self).scroll_offset,
            final(self).search_info == old(self).search_info,
            final(self).size == old(self).size,
            final(self).needs_redraw == old(self).needs_redraw,
    {
        if self.text_location.grapheme_idx > 0 {
            self.text_location.grapheme_idx = self.text_location.grapheme_idx - 1;
        } else if self.text_location.line_idx > 0 {
            self.move_up(1);
            self.move_to_end_of_line();
        }
    }

    /// Moves the cursor to its line's first cluster.
    pub fn move_to_start_of_line(&mut self)
        requires
            old(self).wf(),
        ensures
            final(self).wf(),
            final(self).text_location.grapheme_idx == 0,
            final(self).text_location.line_idx == old(self).text_location.line_idx,
            final(self).buffer == old(self).buffer,
            final(self).scroll_offset == old(self).scroll_offset,
            final(self).search_info == old(self).search_info,
            final(self).size == old(self).size,
            final(self).needs_redraw == old(self).needs_redraw,
    {
        self.text_location.grapheme_idx = 0;
    }

    /// Moves the cursor to one past its line's last cluster.
    pub fn move_to_end_of_line(&mut self)
        requires
            old(self).wf(),
        ensures
            final(self).wf(),
            final(self).text_location.grapheme_idx == line_count_at(
                old(self).buffer,
                old(self).text_location.line_idx as int,
            ),
            final(self).text_location.line_idx == old(self).text_location.line_idx,
            final(self).buffer == old(self).buffer,
            final(self).scroll_offset == old(self).scroll_offset,
            final(self).search_info == old(self).search_info,
            final(self).size == old(self).size,
            final(self).needs_redraw == old(self).needs_redraw,
    {
        let li = self.text_location.line_idx;
        self.text_location.grapheme_idx = if li < self.buffer.height() {
            self.buffer.lines[li].grapheme_count()
        } else {
            0
        };
    }

    /// Clamps the cursor's cluster index to its line's valid range (zero
    /// when the line index is out of range).
    pub fn snap_to_valid_grapheme(&mut self)
        requires
            old(self).wf(),
        ensures
            final(self).wf(),
            final(self).text_location.grapheme_idx == (if (old(self).text_location.line_idx as int) < old(self).buffer.texts().len() {
                min(
                    old(self).text_location.grapheme_idx as int,
                    line_count_at(old(self).buffer, old(self).text_location.line_idx as int),
                )
            } else {
                0
            }),
            final(self).text_location.line_idx == old(self).text_location.line_idx,
            final(self).buffer == old(self).buffer,
            final(self).scroll_offset == old(self).scroll_offset,
            final(self).search_info == old(self).search_info,
            final(self).size == old(self).size,
            final(self).needs_redraw == old(self).needs_redraw,
    {
        let li = self.text_location.line_idx;
        self.text_location.grapheme_idx = if li < self.buffer.height() {
            let count = self.buffer.lines[li].grapheme_count();
            if count < self.text_location.grapheme_idx {
                count
            } else {
                self.text_location.grapheme_idx
            }
        } else {
            0
        };
    }

    /// Clamps the cursor's line index to at most one past the last line.
    pub fn snap_to_valid_line(&mut self)
        requires
            old(self).wf(),
        ensures
            final(self).wf(),
            final(self).text_location.line_idx == min(
                old(self).text_location.line_idx as int,
                old(self).buffer.texts().len() as int,
            ),
            final(self).text_location.grapheme_idx == old(self).text_location.grapheme_idx,
            final(self).buffer == old(self).buffer,
            final(self).scroll_offset == old(self).scroll_offset,
            final(self).search_info == old(self).search_info,
            final(self).size == old(self).size,
            final(self).needs_redraw == old(self).needs_redraw,
    {
        let h = self.buffer.height();
        if self.text_location.line_idx > h {
            self.text_location.line_idx = h;
        }
    }

    /// The visible size.
    pub fn get_size(&self) -> (r: Size)
        ensures
            r == self.size,
    {
        self.size
    }

    /// Scrolls vertically just far enough that display row `to` is
    /// visible.
    fn scroll_vertically(&mut self, to: Row)
        requires
            old(self).wf(),
        ensures
            final(self).wf(),
            final(self).scroll_offset.row == scrolled_axis(
                old(self).scroll_offset.row as int,
                to as int,
                old(self).size.height as int,
            ),
            final(self).scroll_offset.col == old(self).scroll_offset.col,
            final(self).needs_redraw == (old(self).needs_redraw || scroll_hits(
                old(self).scroll_offset.row as int,
                to as int,
                old(self).size.height as int,
            )),
            final(self).buffer == old(self).buffer,
            final(self).text_location == old(self).text_location,
            final(self).search_info == old(self).search_info,
            final(self).size == old(self).size,
    {
        let height = self.size.height;
        let offset_changed = if to < self.scroll_offset.row {
            self.scroll_offset.row = to;
            true
        } else if to >= self.scroll_offset.row.saturating_add(height) {
            self.scroll_offset.row = to.saturating_sub(height).saturating_add(1);
            true
        } else {
            false
        };
        if offset_changed {
            self.needs_redraw = true;
        }
    }

    /// Scrolls horizontally just far enough that display column `to` is
    /// visible.
    fn scroll_horizontally(&mut self, to: Col)
        requires
            old(self).wf(),
        ensures
            final(self).wf(),
            final(self).scroll_offset.col == scrolled_axis(
                old(self).scroll_offset.col as int,
                to as int,
                old(self).size.width as int,
            ),
            final(self).scroll_offset.row == old(self).scroll_offset.row,
            final(self).needs_redraw == (old(self).needs_redraw || scroll_hits(
                old(self).scroll_offset.col as int,
                to as int,
                old(self).size.width as int,
            )),
            final(self).buffer == old(self).buffer,
            final(self).text_location == old(self).text_location,
            final(self).search_info == old(self).search_info,
            final(self).size == old(self).size,
    {
        let width = self.size.width;
        let offset_changed = if to < self.scroll_offset.col {
            self.scroll_offset.col = to;
            true
        } else if to >= self.scroll_offset.col.saturating_add(width) {
            self.scroll_offset.col = to.saturating_sub(width).saturating_add(1);
            true
        } else {
            false
        };
        if offset_changed {
            self.needs_redraw = true;
        }
    }

    /// Scrolls minimally — along each axis, only far enough that the
    /// cursor's display position re-enters the visible window.
    pub fn scroll_text_location_into_view(&mut self)
        requires
            old(self).wf(),
        ensures
            final(self).wf(),
            final(self).scroll_offset.row == scrolled_axis(
                old(self).scroll_offset.row as int,
                old(self).caret_row_spec(),
                old(self).size.height as int,
            ),
            final(self).scroll_offset.col == scrolled_axis(
                old(self).scroll_offset.col as int,
                old(self).caret_col_spec(),
                old(self).size.width as int,
            ),
            final(self).needs_redraw == (old(self).needs_redraw || scroll_hits(
                old(self).scroll_offset.row as int,
                old(self).caret_row_spec(),
                old(self).size.height as int,
            ) || scroll_hits(
                old(self).scroll_offset.col as int,
                old(self).caret_col_spec(),
                old(self).size.width as int,
            )),
            final(self).buffer == old(self).buffer,
            final(self).text_location == old(self).text_location,
            final(self).search_info == old(self).search_info,
            final(self).size == old(self).size,
    {
        let pos = self.text_location_to_position();
        self.scroll_vertically(pos.row);
        self.scroll_horizontally(pos.col);
    }

    /// Recomputes the scroll offset so the cursor sits at the visible
    /// window's midpoint, keeping a search match visually stable.
    pub fn center_text_location(&mut self)
        requires
            old(self).wf(),
        ensures
            final(self).wf(),
            final(self).scroll_offset == old(self).centered_scroll_spec(),
            final(self).needs_redraw,
            final(self).buffer == old(self).buffer,
            final(self).text_location == old(self).text_location,
            final(self).search_info == old(self).search_info,
            final(self).size == old(self).size,
    {
        let height = self.size.height;
        let width = self.size.width;
        let pos = self.text_location_to_position();
        let vertical_mid = height / 2 + height % 2;
        let horizontal_mid = width / 2 + width % 2;
        self.scroll_offset.row = pos.row.saturating_sub(vertical_mid);
        self.scroll_offset.col = pos.col.saturating_sub(horizontal_mid);
        self.needs_redraw = true;
    }

    /// Begins a search session, snapshotting the cursor and scroll offset
    /// for restoration on dismissal.
    pub fn enter_search(&mut self)
        requires
            old(self).wf(),
        ensures
            final(self).wf(),
            final(self).search_info matches Some(si) && si.prev_location == old(self).text_location && si.prev_scroll_offset == old(self).scroll_offset && si.query
                is None,
            final(self).buffer == old(self).buffer,
            final(self).text_location == old(self).text_location,
            final(self).scroll_offset == old(self).scroll_offset,
            final(self).size == old(self).size,
            final(self).needs_redraw == old(self).needs_redraw,
    {
        self.search_info = Some(
            SearchInfo {
                prev_location: self.text_location,
                prev_scroll_offset: self.scroll_offset,
                query: None,
            },
        );
    }

    /// Ends the search session keeping the current cursor position
    /// (accepting a match location as the new cursor).
    pub fn exit_search(&mut self)
        requires
            old(self).wf(),
        ensures
            final(self).wf(),
            final(self).search_info is None,
            final(self).needs_redraw,
            final(self).buffer == old(self).buffer,
            final(self).text_location == old(self).text_location,
            final(self).scroll_offset == old(self).scroll_offset,
            final(self).size == old(self).size,
    {
        self.search_info = None;
        self.needs_redraw = true;
    }

    /// Cancels the search session: restores the snapshotted cursor and
    /// scroll offset, then re-applies the minimal scroll-into-view
    /// adjustment in case the terminal was resized during the search.
    pub fn dismiss_search(&mut self)
        requires
            old(self).wf(),
        ensures
            final(self).wf(),
            final(self).search_info is None,
            final(self).needs_redraw,
            final(self).buffer == old(self).buffer,
            final(self).size == old(self).size,
            match old(self).search_info {
                Some(si) => {
                    &&& final(self).text_location == si.prev_location
                    &&& final(self).scroll_offset.row == scrolled_axis(
                        si.prev_scroll_offset.row as int,
                        si.prev_location.line_idx as int,
                        old(self).size.height as int,
                    )
                    &&& final(self).scroll_offset.col == scrolled_axis(
                        si.prev_scroll_offset.col as int,
                        caret_col_of(old(self).buffer, si.prev_location),
                        old(self).size.width as int,
                    )
                },
                None => final(self).text_location == old(self).text_location && final(self).scroll_offset == old(self).scroll_offset,
            },
    {
        let prev: Option<(Location, Position)> = match &self.search_info {
            Some(si) => Some((si.prev_location, si.prev_scroll_offset)),
            None => None,
        };
        if let Some((loc, off)) = prev {
            self.text_location = loc;
            self.scroll_offset = off;
            self.scroll_text_location_into_view();
        }
        self.search_info = None;
        self.needs_redraw = true;
    }

    /// Performs a search for the stored query from `from`: a hit moves
    /// the cursor to the match and re-centers the scroll offset; no hit
    /// (or no usable query) leaves both untouched.
    fn search_in_direction(&mut self, from: Location, forward: bool)
        requires
            old(self).wf(),
        ensures
            final(self).wf(),
            final(self).buffer == old(self).buffer,
            final(self).size == old(self).size,
            final(self).search_info == old(self).search_info,
            final(self).needs_redraw,
            match old(self).query_text() {
                Some(qt) => if qt.len() > 0 && (exists|l: int, i: int|
                    old(self).buffer.match_in_doc(qt, l, i)) {
                    &&& final(self).buffer.found_location(qt, final(self).text_location)
                    &&& final(self).scroll_offset == final(self).centered_scroll_spec()
                    &&& (forward ==> final(self).buffer.first_match_forward(
                        qt,
                        old(self).buffer.scan_start_line(from),
                        old(self).buffer.scan_start_char(from),
                        final(self).text_location,
                    ))
                    &&& (!forward ==> final(self).buffer.first_match_backward(
                        qt,
                        old(self).buffer.scan_start_line(from),
                        old(self).buffer.scan_start_char(from),
                        final(self).text_location,
                    ))
                } else {
                    final(self).text_location == old(self).text_location && final(self).scroll_offset == old(self).scroll_offset
                },
                None => final(self).text_location == old(self).text_location && final(self).scroll_offset == old(self).scroll_offset,
            },
    {
        let found: Option<Location> = match &self.search_info {
            Some(si) => match &si.query {
                Some(q) => {
                    if q.chars.len() > 0 {
                        if forward {
                            self.buffer.search_forward(q, from)
                        } else {
                            self.buffer.search_backward(q, from)
                        }
                    } else {
                        None
                    }
                },
                None => None,
            },
            None => None,
        };
        if let Some(loc) = found {
            proof {
                match old(self).query_text() {
                    Some(qt) => {
                        self.buffer.lemma_found_is_match(qt, loc);
                    },
                    None => {},
                }
            }
            self.text_location = loc;
            self.center_text_location();
        }
        self.needs_redraw = true;
    }

    /// Stores `query` as the session's query and searches forward from
    /// the cursor; a hit relocates and re-centers as search always does.
    /// Outside a search session this only schedules a redraw.
    pub fn search(&mut self, query: &str)
        requires
            old(self).wf(),
        ensures
            final(self).wf(),
            final(self).buffer == old(self).buffer,
            final(self).size == old(self).size,
            final(self).needs_redraw,
            old(self).search_info is None ==> final(self).search_info is None && final(self).text_location == old(self).text_location && final(self).scroll_offset == old(self).scroll_offset,
            old(self).search_info matches Some(osi) ==> ({
                let qt = query@.take(min(query@.len() as int, MAX_LINE_CHARS as int));
                &&& final(self).search_info matches Some(si) && ({
                    &&& si.prev_location == osi.prev_location
                    &&& si.prev_scroll_offset == osi.prev_scroll_offset
                    &&& si.query matches Some(q) && q.text() == qt
                })
                &&& (if qt.len() > 0 && (exists|l: int, i: int|
                    old(self).buffer.match_in_doc(qt, l, i)) {
                    &&& final(self).buffer.found_location(qt, final(self).text_location)
                    &&& final(self).scroll_offset == final(self).centered_scroll_spec()
                    &&& final(self).buffer.first_match_forward(
                        qt,
                        old(self).buffer.scan_start_line(old(self).text_location),
                        old(self).buffer.scan_start_char(old(self).text_location),
                        final(self).text_location,
                    )
                } else {
                    final(self).text_location == old(self).text_location && final(self).scroll_offset == old(self).scroll_offset
                })
            }),
    {
        if self.search_info.is_some() {
            let line = Line::from_str(query);
            if let Some(si) = &mut self.search_info {
                si.query = Some(line);
            }
        }
        let from = self.text_location;
        self.search_in_direction(from, true);
    }

    /// Searches for the next occurrence, starting one cluster past the
    /// cursor so repeated calls advance; wraps around the document end.
    pub fn search_next(&mut self)
        requires
            old(self).wf(),
        ensures
            final(self).wf(),
            final(self).buffer == old(self).buffer,
            final(self).size == old(self).size,
            final(self).search_info == old(self).search_info,
            final(self).needs_redraw,
            match old(self).query_text() {
                Some(qt) => if qt.len() > 0 && (exists|l: int, i: int|
                    old(self).buffer.match_in_doc(qt, l, i)) {
                    final(self).buffer.found_location(qt, final(self).text_location) && final(self).scroll_offset == final(self).centered_scroll_spec()
                } else {
                    final(self).text_location == old(self).text_location && final(self).scroll_offset == old(self).scroll_offset
                },
                None => final(self).text_location == old(self).text_location && final(self).scroll_offset == old(self).scroll_offset,
            },
            match old(self).query_text() {
                Some(qt) => qt.len() > 0 && (exists|l: int, i: int|
                    old(self).buffer.match_in_doc(qt, l, i)) ==> ({
                    let stepped = Location {
                        grapheme_idx: sat_add(old(self).text_location.grapheme_idx as int, 1) as usize,
                        line_idx: old(self).text_location.line_idx,
                    };
                    final(self).buffer.first_match_forward(
                        qt,
                        old(self).buffer.scan_start_line(stepped),
                        old(self).buffer.scan_start_char(stepped),
                        final(self).text_location,
                    )
                }),
                None => true,
            },
    {
        let step_right: usize = match &self.search_info {
            Some(si) => match &si.query {
                Some(q) => {
                    if q.grapheme_count() < 1 {
                        q.grapheme_count()
                    } else {
                        1
                    }
                },
                None => 1,
            },
            None => 1,
        };
        let from = Location {
            line_idx: self.text_location.line_idx,
            grapheme_idx: self.text_location.grapheme_idx.saturating_add(step_right),
        };
        self.search_in_direction(from, true);
    }

    /// Searches for the previous occurrence, scanning backward from the
    /// cursor; wraps around the document start.
    pub fn search_prev(&mut self)
        requires
            old(self).wf(),
        ensures
            final(self).wf(),
            final(self).buffer == old(self).buffer,
            final(self).size == old(self).size,
            final(self).search_info == old(self).search_info,
            final(self).needs_redraw,
            match old(self).query_text() {
                Some(qt) => if qt.len() > 0 && (exists|l: int, i: int|
                    old(self).buffer.match_in_doc(qt, l, i)) {
                    final(self).buffer.found_location(qt, final(self).text_location) && final(self).scroll_offset == final(self).centered_scroll_spec()
                } else {
                    final(self).text_location == old(self).text_location && final(self).scroll_offset == old(self).scroll_offset
                },
                None => final(self).text_location == old(self).text_location && final(self).scroll_offset == old(self).scroll_offset,
            },
            match old(self).query_text() {
                Some(qt) => qt.len() > 0 && (exists|l: int, i: int|
                    old(self).buffer.match_in_doc(qt, l, i)) ==> final(self).buffer.first_match_backward(
                    qt,
                    old(self).buffer.scan_start_line(old(self).text_location),
                    old(self).buffer.scan_start_char(old(self).text_location),
                    final(self).text_location,
                ),
                None => true,
            },
    {
        let from = self.text_location;
        self.search_in_direction(from, false);
    }

    /// The welcome row shown on an empty document: a tilde, then the
    /// greeting centered in the remaining width; just the tilde when the
    /// greeting does not fit, nothing at width zero.
    pub fn build_welcome_message(width: usize) -> (r: Vec<char>)
        ensures
            r@ == welcome_row(width as int),
    {
        let mut r: Vec<char> = Vec::new();
        if width == 0 {
            proof {
                assert(r@ =~= welcome_row(0));
            }
            return r;
        }
        let msg = chars_of("stack-editor editor -- version 0.1.0");
        let len = msg.len();
        let rem = width - 1;
        r.push('~');
        if rem < len {
            proof {
                assert(r@ =~= seq!['~']);
            }
            return r;
        }
        let pad_l = (rem - len) / 2;
        let pad_r = rem - len - pad_l;
        let mut j: usize = 0;
        while j < pad_l
            invariant
                j <= pad_l,
                r@ == seq!['~'] + spaces(j as int),
            decreases pad_l - j,
        {
            r.push(' ');
            proof {
                assert(spaces(j + 1) =~= spaces(j as int).push(' '));
                assert(r@ =~= seq!['~'] + spaces(j + 1));
            }
            j = j + 1;
        }
        let mut body = msg;
        r.append(&mut body);
        let ghost mid = r@;
        let mut j2: usize = 0;
        while j2 < pad_r
            invariant
                j2 <= pad_r,
                r@ == mid + spaces(j2 as int),
            decreases pad_r - j2,
        {
            r.push(' ');
            proof {
                assert(spaces(j2 + 1) =~= spaces(j2 as int).push(' '));
                assert(r@ =~= mid + spaces(j2 + 1));
            }
            j2 = j2 + 1;
        }
        proof {
            assert(spaces(0) =~= Seq::<char>::empty());
            assert(r@ =~= seq!['~'] + spaces(pad_l as int) + welcome_message() + spaces(
                pad_r as int,
            ));
        }
        r
    }

    /// The render plan for the visible window: one entry per visible
    /// terminal row, each a document line's annotated slice, the welcome
    /// row, or a tilde row.
    pub fn draw_rows(&self, origin_row: Row) -> (rows: Vec<RowRender>)
        requires
            self.wf(),
        ensures
            origin_row + rows@.len() == sat_add(origin_row as int, self.size.height as int),
            forall|i: int|
                0 <= i < rows@.len() ==> #[trigger] row_render_ok(
                    *self,
                    origin_row as int,
                    origin_row + i,
                    rows@[i],
                ),
    {
        let height = self.size.height;
        let width = self.size.width;
        let end_y = origin_row.saturating_add(height);
        let top_third = height / 3 + if height % 3 == 0 {
            0
        } else {
            1
        };
        let buffer_empty = self.buffer.is_empty();
        let mut rows: Vec<RowRender> = Vec::new();
        let mut current_row = origin_row;
        while current_row < end_y
            invariant
                self.wf(),
                height == self.size.height,
                width == self.size.width,
                end_y == sat_add(origin_row as int, height as int),
                top_third as int == top_third_spec(height as int),
                buffer_empty == self.buffer.is_empty_spec(),
                origin_row <= current_row <= end_y,
                origin_row + rows@.len() == current_row,
                forall|i: int|
                    0 <= i < rows@.len() ==> #[trigger] row_render_ok(
                        *self,
                        origin_row as int,
                        origin_row + i,
                        rows@[i],
                    ),
            decreases end_y - current_row,
        {
            let line_idx = current_row.saturating_sub(origin_row).saturating_add(
                self.scroll_offset.row,
            );
            if line_idx < self.buffer.height() {
                proof {
                    assert(self.buffer.lines@[line_idx as int].wf());
                }
                let left = self.scroll_offset.col;
                let right = self.scroll_offset.col.saturating_add(width);
                let query: Option<&Line> = match &self.search_info {
                    Some(si) => match &si.query {
                        Some(q) => Some(q),
                        None => None,
                    },
                    None => None,
                };
                let selected_match: Option<GraphemeIdx> = if query.is_some()
                    && self.text_location.line_idx == line_idx {
                    Some(self.text_location.grapheme_idx)
                } else {
                    None
                };
                let annotated = self.buffer.lines[line_idx].get_annotated_visible_substr(
                    left,
                    right,
                    query,
                    selected_match,
                );
                rows.push(RowRender { row: current_row, content: RowContent::Annotated(annotated) });
            } else if current_row == top_third && buffer_empty {
                rows.push(
                    RowRender {
                        row: current_row,
                        content: RowContent::Plain(Self::build_welcome_message(width)),
                    },
                );
            } else {
                let mut tilde: Vec<char> = Vec::new();
                tilde.push('~');
                proof {
                    assert(tilde@ =~= seq!['~']);
                }
                rows.push(RowRender { row: current_row, content: RowContent::Plain(tilde) });
            }
            current_row = current_row + 1;
        }
        rows
    }
}

/// A run of `n` blanks.
pub open spec fn spaces(n: int) -> Seq<char> {
    Seq::new(n as nat, |i: int| ' ')
}

/// The greeting shown on an empty document.
pub open spec fn welcome_message() -> Seq<char> {
    "stack-editor editor -- version 0.1.0"@
}

/// The welcome row at a given width: see `build_welcome_message`.
pub open spec fn welcome_row(width: int) -> Seq<char> {
    if width <= 0 {
        Seq::empty()
    } else {
        let len = welcome_message().len() as int;
        let rem = width - 1;
        if rem < len {
            seq!['~']
        } else {
            seq!['~'] + spaces((rem - len) / 2) + welcome_message() + spaces(
                rem - len - (rem - len) / 2,
            )
        }
    }
}

/// A third of the window height, rounded upward: the row of the welcome
/// message.
pub open spec fn top_third_spec(height: int) -> int {
    height / 3 + if height % 3 == 0 {
        0int
    } else {
        1int
    }
}

/// What one row of the render plan must hold: the annotated slice of the
/// document line scrolled into that row, or the welcome row on an empty
/// document, or a tilde row.
pub open spec fn row_render_ok(v: View, origin_row: int, current_row: int, rr: RowRender) -> bool {
    let li = sat_add(sat_sub(current_row, origin_row), v.scroll_offset.row as int);
    let left = v.scroll_offset.col as int;
    let right = sat_add(left, v.size.width as int);
    &&& rr.row == current_row
    &&& (if 0 <= li < v.buffer.texts().len() {
        match rr.content {
            RowContent::Annotated(a) => {
                let line = v.buffer.lines@[li];
                let q = match v.query_text() {
                    Some(t) => t,
                    None => Seq::<char>::empty(),
                };
                let sel = if v.query_text() is Some && v.text_location.line_idx == li {
                    Some(line.char_start_of(v.text_location.grapheme_idx as int))
                } else {
                    None
                };
                &&& a.chars@ == visible_text_from(line, left, right, 0)
                &&& a.annotations@ == clip_annotations(
                    match_annotations(line.text(), q, sel),
                    line.byte_start_of(first_kept(line, left, right, 0)),
                    line.byte_start_of(
                        last_kept_end(line, left, right, line.frags().len() as int),
                    ),
                )
            },
            RowContent::Plain(_) => false,
        }
    } else if current_row == top_third_spec(v.size.height as int) && v.buffer.is_empty_spec() {
        match rr.content {
            RowContent::Plain(p) => p@ == welcome_row(v.size.width as int),
            RowContent::Annotated(_) => false,
        }
    } else {
        match rr.content {
            RowContent::Plain(p) => p@ == seq!['~'],
            RowContent::Annotated(_) => false,
        }
    })
}

impl UIComponent for View {
    /// The redraw flag is the `needs_redraw` field.
    open spec fn redraw_flag(&self) -> bool {
        self.needs_redraw
    }

    /// Rendering requires the view's well-formedness.
    open spec fn render_wf(&self) -> bool {
        self.wf()
    }

    /// Sets only the redraw flag; everything else is untouched.
    fn set_needs_redraw(&mut self, value: bool)
        ensures
            final(self).buffer == old(self).buffer,
            final(self).size == old(self).size,
            final(self).text_location == old(self).text_location,
            final(self).scroll_offset == old(self).scroll_offset,
            final(self).search_info == old(self).search_info,
    {
        self.needs_redraw = value;
    }

    fn needs_redraw(&self) -> bool {
        self.needs_redraw
    }

    /// Stores the new size and scrolls the cursor minimally back into
    /// the (resized) window.
    fn set_size(&mut self, size: Size)
        ensures
            final(self).size == size,
            final(self).scroll_offset.row == scrolled_axis(
                old(self).scroll_offset.row as int,
                old(self).caret_row_spec(),
                size.height as int,
            ),
            final(self).scroll_offset.col == scrolled_axis(
                old(self).scroll_offset.col as int,
                old(self).caret_col_spec(),
                size.width as int,
            ),
            final(self).needs_redraw == (old(self).needs_redraw || scroll_hits(
                old(self).scroll_offset.row as int,
                old(self).caret_row_spec(),
                size.height as int,
            ) || scroll_hits(
                old(self).scroll_offset.col as int,
                old(self).caret_col_spec(),
                size.width as int,
            )),
            final(self).buffer == old(self).buffer,
            final(self).text_location == old(self).text_location,
            final(self).search_info == old(self).search_info,
    {
        self.size = size;
        self.scroll_text_location_into_view();
    }

    /// `set_size`, and a redraw is always forced.
    fn resize(&mut self, size: Size)
        ensures
            final(self).size == size,
            final(self).scroll_offset.row == scrolled_axis(
                old(self).scroll_offset.row as int,
                old(self).caret_row_spec(),
                size.height as int,
            ),
            final(self).scroll_offset.col == scrolled_axis(
                old(self).scroll_offset.col as int,
                old(self).caret_col_spec(),
                size.width as int,
            ),
            final(self).buffer == old(self).buffer,
            final(self).text_location == old(self).text_location,
            final(self).search_info == old(self).search_info,
    {
        self.set_size(size);
        self.needs_redraw = true;
    }

    /// The render plan of `draw_rows`: one entry per visible row, each
    /// pinned by `row_render_ok`.
    fn draw(&self, origin_row: Row) -> (rows: Vec<RowRender>)
        ensures
            origin_row + rows@.len() == sat_add(origin_row as int, self.size.height as int),
            forall|i: int|
                0 <= i < rows@.len() ==> #[trigger] row_render_ok(
                    *self,
                    origin_row as int,
                    origin_row + i,
                    rows@[i],
                ),
    {
        self.draw_rows(origin_row)
    }

    /// The draw plan when a redraw was pending, nothing otherwise; the
    /// flag is cleared and no other state changes.
    fn render(&mut self, origin_row: Row) -> (rows: Vec<RowRender>)
        ensures
            final(self).buffer == old(self).buffer,
            final(self).size == old(self).size,
            final(self).text_location == old(self).text_location,
            final(self).scroll_offset == old(self).scroll_offset,
            final(self).search_info == old(self).search_info,
            !old(self).needs_redraw ==> rows@.len() == 0,
            old(self).needs_redraw ==> ({
                &&& origin_row + rows@.len() == sat_add(
                    origin_row as int,
                    old(self).size.height as int,
                )
                &&& forall|i: int|
                    0 <= i < rows@.len() ==> #[trigger] row_render_ok(
                        *old(self),
                        origin_row as int,
                        origin_row + i,
                        rows@[i],
                    )
            }),
    {
        if self.needs_redraw {
            let rows = self.draw_rows(origin_row);
            self.needs_redraw = false;
            rows
        } else {
            Vec::new()
        }
    }
}

} // verus!
