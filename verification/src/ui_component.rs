//! The capability interface shared by the UI widgets: resizing, a
//! needs-redraw flag, and producing the rows to render.
//!
//! Drawing produces a render plan — which text, with which highlights,
//! goes on which terminal row — and the caller hands it to the terminal
//! driver; nothing here touches the terminal.

use vstd::prelude::*;

use crate::annotated_string::AnnotatedString;
use crate::prelude::Row;
use crate::prelude::Size;

verus! {

/// What one terminal row should display.
pub enum RowContent {
    /// Text with highlight ranges, for the terminal's styled printer.
    Annotated(AnnotatedString),
    /// Plain text, for the terminal's plain printer.
    Plain(Vec<char>),
}

/// One row of a render plan.
pub struct RowRender {
    /// The absolute terminal row to draw at.
    pub row: Row,
    /// What to draw there.
    pub content: RowContent,
}

/// A UI component with a size, a needs-redraw flag, and a way to produce
/// its rows.
pub trait UIComponent {
    /// The needs-redraw flag as the specification sees it.
    spec fn redraw_flag(&self) -> bool;

    /// Whether this component may be drawn at all (its state supports
    /// rendering); rendering operations require it.
    spec fn render_wf(&self) -> bool;

    /// Marks the component as needing (or not needing) a redraw.
    fn set_needs_redraw(&mut self, value: bool)
        ensures
            final(self).redraw_flag() == value;

    /// Whether the component needs a redraw.
    fn needs_redraw(&self) -> (r: bool)
        ensures
            r == self.redraw_flag();

    /// Updates the component's size.
    fn set_size(&mut self, size: Size)
        requires
            old(self).render_wf(),
        ensures
            final(self).render_wf();

    /// Updates the size and schedules a redraw.
    fn resize(&mut self, size: Size)
        requires
            old(self).render_wf(),
        ensures
            final(self).render_wf(),
            final(self).redraw_flag();

    /// The rows this component would draw, starting at `origin_row`.
    fn draw(&self, origin_row: Row) -> (rows: Vec<RowRender>)
        requires
            self.render_wf();

    /// The rows to draw now: the component's rows when a redraw is
    /// pending (clearing the flag), nothing otherwise.
    fn render(&mut self, origin_row: Row) -> (rows: Vec<RowRender>)
        requires
            old(self).render_wf(),
        ensures
            final(self).render_wf(),
            !final(self).redraw_flag();
}

} // verus!
