//! Highlight annotations: tagged byte ranges overlaid on a line's text
//! for rendering, recomputed per render pass and never persisted.

use vstd::prelude::*;

verus! {

/// What a highlighted range means.
#[derive(Copy, Clone, Debug, PartialEq, Eq, Structural)]
pub enum AnnotationType {
    /// An occurrence of the current search query.
    Match,
    /// The occurrence the cursor is on; takes rendering precedence.
    SelectedMatch,
}

/// A tagged byte range `[start_byte_idx, end_byte_idx)` within a line's
/// UTF-8 encoding.
#[derive(Copy, Clone, Debug, PartialEq, Eq, Structural)]
pub struct Annotation {
    pub annotation_type: AnnotationType,
    pub start_byte_idx: usize,
    pub end_byte_idx: usize,
}

} // verus!
