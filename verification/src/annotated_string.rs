//! Text with overlaid highlight ranges: what a line hands to the terminal
//! driver for one rendered row.

use vstd::prelude::*;

use crate::annotation::Annotation;

verus! {

/// A rendered piece of text plus the highlight ranges that apply to it,
/// with byte offsets relative to this text's own UTF-8 encoding.
pub struct AnnotatedString {
    /// The visible characters.
    pub chars: Vec<char>,
    /// The highlight ranges, in occurrence order.
    pub annotations: Vec<Annotation>,
}

impl AnnotatedString {
    /// Text with no highlights.
    pub fn new_plain(chars: Vec<char>) -> (r: AnnotatedString)
        ensures
            r.chars@ == chars@,
            r.annotations@ == Seq::<Annotation>::empty(),
    {
        let r = AnnotatedString { chars, annotations: Vec::new() };
        r
    }
}

} // verus!
