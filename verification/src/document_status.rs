//! The read-only status snapshot an external status display consumes.

use vstd::prelude::*;

verus! {

/// What the status bar shows: recomputed on demand, never pushed.
#[derive(Debug, PartialEq, Eq)]
pub struct DocumentStatus {
    /// Total line count of the document.
    pub total_lines: usize,
    /// The cursor's current line index.
    pub current_line_idx: usize,
    /// The file's display name.
    pub file_name: String,
    /// Whether the document has unsaved changes.
    pub is_modified: bool,
}

} // verus!
