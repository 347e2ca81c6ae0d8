//! Core of a terminal text editor: line storage with grapheme-cluster
//! segmentation, mapping between byte offsets, cluster indices and display
//! columns, substring search with highlight annotation, and viewport/cursor
//! bookkeeping. Terminal and file I/O live outside this crate; everything
//! here is pure state manipulation with verified contracts.

pub mod prelude;
pub mod width;
pub mod annotation;
pub mod annotated_string;
pub mod line;
pub mod buffer;
pub mod document_status;
pub mod ui_component;
pub mod view;

pub use prelude::{Location, Position, Size};
