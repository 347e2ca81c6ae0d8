//! Character width and encoding policy.
//!
//! Display width is a pluggable policy; this is the documented default:
//! - a tab occupies `TAB_WIDTH` columns,
//! - combining diacritical marks (U+0300..=U+036F) and zero-width
//!   joiners/non-joiners (U+200B..=U+200D) occupy no column,
//! - characters from the common East-Asian wide and fullwidth blocks occupy
//!   two columns,
//! - every other character occupies one column.
//!
//! Byte offsets are offsets into the UTF-8 encoding of the text, so the
//! byte length of a character follows the UTF-8 length rules.

use vstd::prelude::*;

verus! {

/// Columns occupied by a tab character.
pub const TAB_WIDTH: usize = 1;

/// Whether a character occupies no display column and extends the preceding
/// grapheme cluster.
pub open spec fn is_zero_width(c: char) -> bool {
    ('\u{0300}' <= c && c <= '\u{036F}') || ('\u{200B}' <= c && c <= '\u{200D}')
}

/// Whether a character occupies two display columns (East-Asian wide and
/// fullwidth blocks).
pub open spec fn is_double_width(c: char) -> bool {
    ('\u{1100}' <= c && c <= '\u{115F}')
    || ('\u{2E80}' <= c && c <= '\u{303E}')
    || ('\u{3041}' <= c && c <= '\u{33FF}')
    || ('\u{3400}' <= c && c <= '\u{4DBF}')
    || ('\u{4E00}' <= c && c <= '\u{9FFF}')
    || ('\u{A000}' <= c && c <= '\u{A4CF}')
    || ('\u{AC00}' <= c && c <= '\u{D7A3}')
    || ('\u{F900}' <= c && c <= '\u{FAFF}')
    || ('\u{FE30}' <= c && c <= '\u{FE4F}')
    || ('\u{FF00}' <= c && c <= '\u{FF60}')
    || ('\u{FFE0}' <= c && c <= '\u{FFE6}')
}

/// Display columns occupied by one character under the default policy.
pub open spec fn char_width_spec(c: char) -> nat {
    if c == '\t' {
        TAB_WIDTH as nat
    } else if is_zero_width(c) {
        0
    } else if is_double_width(c) {
        2
    } else {
        1
    }
}

/// Bytes taken by one character in UTF-8.
pub open spec fn utf8_len_spec(c: char) -> nat {
    if (c as u32) < 0x80 {
        1
    } else if (c as u32) < 0x800 {
        2
    } else if (c as u32) < 0x10000 {
        3
    } else {
        4
    }
}

/// Executable width policy, proved to match `char_width_spec`.
pub fn char_width(c: char) -> (w: usize)
    ensures
        w == char_width_spec(c),
        w <= 2,
{
    if c == '\t' {
        TAB_WIDTH
    } else if ('\u{0300}' <= c && c <= '\u{036F}') || ('\u{200B}' <= c && c <= '\u{200D}') {
        0
    } else if ('\u{1100}' <= c && c <= '\u{115F}')
        || ('\u{2E80}' <= c && c <= '\u{303E}')
        || ('\u{3041}' <= c && c <= '\u{33FF}')
        || ('\u{3400}' <= c && c <= '\u{4DBF}')
        || ('\u{4E00}' <= c && c <= '\u{9FFF}')
        || ('\u{A000}' <= c && c <= '\u{A4CF}')
        || ('\u{AC00}' <= c && c <= '\u{D7A3}')
        || ('\u{F900}' <= c && c <= '\u{FAFF}')
        || ('\u{FE30}' <= c && c <= '\u{FE4F}')
        || ('\u{FF00}' <= c && c <= '\u{FF60}')
        || ('\u{FFE0}' <= c && c <= '\u{FFE6}') {
        2
    } else {
        1
    }
}

/// Executable UTF-8 length, proved to match `utf8_len_spec`.
pub fn utf8_len(c: char) -> (n: usize)
    ensures
        n == utf8_len_spec(c),
        1 <= n <= 4,
{
    let u = c as u32;
    if u < 0x80 {
        1
    } else if u < 0x800 {
        2
    } else if u < 0x10000 {
        3
    } else {
        4
    }
}

/// Executable test for `is_zero_width`, the cluster-extension predicate.
pub fn char_is_zero_width(c: char) -> (r: bool)
    ensures
        r == is_zero_width(c),
{
    ('\u{0300}' <= c && c <= '\u{036F}') || ('\u{200B}' <= c && c <= '\u{200D}')
}

/// Total display width of a character sequence.
pub open spec fn seq_width(s: Seq<char>) -> nat
    decreases s.len(),
{
    if s.len() == 0 {
        0
    } else {
        seq_width(s.drop_last()) + char_width_spec(s.last())
    }
}

/// Total UTF-8 byte length of a character sequence.
pub open spec fn seq_byte_len(s: Seq<char>) -> nat
    decreases s.len(),
{
    if s.len() == 0 {
        0
    } else {
        seq_byte_len(s.drop_last()) + utf8_len_spec(s.last())
    }
}

/// Width and byte length distribute over concatenation.
pub proof fn lemma_seq_width_concat(a: Seq<char>, b: Seq<char>)
    ensures
        seq_width(a + b) == seq_width(a) + seq_width(b),
        seq_byte_len(a + b) == seq_byte_len(a) + seq_byte_len(b),
    decreases b.len(),
{
    if b.len() == 0 {
        assert(a + b =~= a);
    } else {
        lemma_seq_width_concat(a, b.drop_last());
        assert((a + b).drop_last() =~= a + b.drop_last());
        assert((a + b).last() == b.last());
    }
}

/// Width is at most two columns per character; byte length at most four
/// bytes per character.
pub proof fn lemma_seq_width_bounds(s: Seq<char>)
    ensures
        seq_width(s) <= 2 * s.len(),
        seq_byte_len(s) <= 4 * s.len(),
        s.len() <= seq_byte_len(s),
    decreases s.len(),
{
    if s.len() > 0 {
        lemma_seq_width_bounds(s.drop_last());
    }
}

/// Extending a prefix by one character adds that character's width.
pub proof fn lemma_seq_width_take_step(s: Seq<char>, n: int)
    requires
        0 <= n < s.len(),
    ensures
        seq_width(s.take(n + 1)) == seq_width(s.take(n)) + char_width_spec(s[n]),
        seq_byte_len(s.take(n + 1)) == seq_byte_len(s.take(n)) + utf8_len_spec(s[n]),
{
    assert(s.take(n + 1).drop_last() =~= s.take(n));
    assert(s.take(n + 1).last() == s[n]);
}

} // verus!
