//! A single line of text, exposing grapheme-indexed, byte-indexed and
//! column-indexed views of its content.
//!
//! Content is a sequence of characters. It is segmented into grapheme
//! clusters: a cluster starts at the first character and at every
//! character that is not zero-width, and extends over the zero-width
//! characters that follow. Each cluster is described by a `Fragment`
//! carrying its starting character index, character count, starting byte
//! offset (into the UTF-8 encoding), byte length, and display width. The
//! fragment sequence is rebuilt whenever the content changes.

use vstd::prelude::*;
use vstd::math::max;
use vstd::math::min;

use crate::annotated_string::AnnotatedString;
use crate::annotation::{Annotation, AnnotationType};
use crate::prelude::{Col, GraphemeIdx};
use crate::width::{
    char_is_zero_width, char_width, char_width_spec, is_zero_width, lemma_seq_width_bounds,
    lemma_seq_width_concat, lemma_seq_width_take_step, seq_byte_len, seq_width, utf8_len,
    utf8_len_spec,
};

verus! {

/// Upper bound on the characters a line can hold, so that byte offsets
/// (at most four bytes per character) and display widths (at most two
/// columns per character) always fit in `usize`.
pub const MAX_LINE_CHARS: usize = usize::MAX / 4;

/// Descriptor of one grapheme cluster within a line.
#[derive(Copy, Clone, Debug, PartialEq, Eq, Structural)]
pub struct Fragment {
    /// Index of the cluster's first character in the line's content.
    pub start_char_idx: usize,
    /// Number of characters the cluster spans (at least one).
    pub char_count: usize,
    /// Byte offset of the cluster in the line's UTF-8 encoding.
    pub start_byte_idx: usize,
    /// Byte length of the cluster's UTF-8 encoding.
    pub byte_len: usize,
    /// Display columns the cluster occupies.
    pub width: usize,
}

/// The characters a fragment spans.
pub open spec fn frag_chars(fs: Seq<Fragment>, s: Seq<char>, k: int) -> Seq<char> {
    s.subrange(fs[k].start_char_idx as int, fs[k].start_char_idx + fs[k].char_count)
}

/// Internal consistency of fragment `k`: it follows its predecessor
/// contiguously in both character and byte space, its derived byte length
/// and width match its characters, it starts at a cluster boundary, and
/// every further character it spans is zero-width.
pub open spec fn frag_ok(fs: Seq<Fragment>, s: Seq<char>, k: int) -> bool {
    let f = fs[k];
    &&& 1 <= f.char_count
    &&& f.start_char_idx + f.char_count <= s.len()
    &&& (k == 0 ==> f.start_char_idx == 0 && f.start_byte_idx == 0)
    &&& (k > 0 ==> f.start_char_idx == fs[k - 1].start_char_idx + fs[k - 1].char_count
        && f.start_byte_idx == fs[k - 1].start_byte_idx + fs[k - 1].byte_len)
    &&& f.byte_len == seq_byte_len(frag_chars(fs, s, k))
    &&& f.width == seq_width(frag_chars(fs, s, k))
    &&& (k > 0 ==> !is_zero_width(s[f.start_char_idx as int]))
    &&& (forall|j: int|
        f.start_char_idx < j < f.start_char_idx + f.char_count ==> is_zero_width(s[j]))
}

/// The fragments partition exactly the first `n` characters of `s`.
pub open spec fn frags_cover_upto(fs: Seq<Fragment>, s: Seq<char>, n: int) -> bool {
    &&& forall|k: int| 0 <= k < fs.len() ==> frag_ok(fs, s, k)
    &&& (fs.len() == 0 ==> n == 0)
    &&& (fs.len() > 0 ==> fs[fs.len() - 1].start_char_idx + fs[fs.len() - 1].char_count == n)
}

/// The fragments partition the whole of `s`.
pub open spec fn frags_wf(fs: Seq<Fragment>, s: Seq<char>) -> bool {
    frags_cover_upto(fs, s, s.len() as int)
}

/// A line of text with its grapheme-cluster segmentation.
pub struct Line {
    /// The content, one element per character.
    pub chars: Vec<char>,
    /// The cluster descriptors, rebuilt after every content change.
    pub fragments: Vec<Fragment>,
}

/// Segment `chars` into grapheme clusters.
fn build_fragments(chars: &Vec<char>) -> (fs: Vec<Fragment>)
    requires
        chars@.len() <= MAX_LINE_CHARS,
    ensures
        frags_wf(fs@, chars@),
{
    let ghost s = chars@;
    let mut fs: Vec<Fragment> = Vec::new();
    let mut i: usize = 0;
    let mut byte: usize = 0;
    while i < chars.len()
        invariant
            i <= s.len() <= MAX_LINE_CHARS,
            s == chars@,
            frags_cover_upto(fs@, s, i as int),
            fs@.len() == 0 ==> byte == 0,
            fs@.len() > 0 ==> byte == fs@[fs@.len() - 1].start_byte_idx + fs@[fs@.len()
                - 1].byte_len,
            byte <= 4 * i,
        decreases s.len() - i,
    {
        let ghost old_fs = fs@;
        let c = chars[i];
        let ulen = utf8_len(c);
        let cw = char_width(c);
        if fs.len() == 0 || !char_is_zero_width(c) {
            let f = Fragment {
                start_char_idx: i,
                char_count: 1,
                start_byte_idx: byte,
                byte_len: ulen,
                width: cw,
            };
            fs.push(f);
            proof {
                let k = fs@.len() - 1;
                assert(frag_chars(fs@, s, k) =~= seq![s[i as int]]);
                assert(frag_chars(fs@, s, k).drop_last() =~= Seq::<char>::empty());
                assert(frag_chars(fs@, s, k).last() == s[i as int]);
                assert(seq_byte_len(Seq::<char>::empty()) == 0);
                assert(seq_width(Seq::<char>::empty()) == 0);
                assert forall|k2: int| 0 <= k2 < k implies frag_ok(fs@, s, k2) by {
                    assert(frag_ok(old_fs, s, k2));
                    assert(fs@[k2] == old_fs[k2]);
                    if k2 > 0 {
                        assert(fs@[k2 - 1] == old_fs[k2 - 1]);
                    }
                    assert(frag_chars(fs@, s, k2) =~= frag_chars(old_fs, s, k2));
                }
                assert(frag_ok(fs@, s, k));
            }
        } else {
            let last = fs.len() - 1;
            let f = fs[last];
            let f2 = Fragment {
                start_char_idx: f.start_char_idx,
                char_count: f.char_count + 1,
                start_byte_idx: f.start_byte_idx,
                byte_len: f.byte_len + ulen,
                width: f.width + cw,
            };
            let _ = fs.pop();
            fs.push(f2);
            proof {
                let k = fs@.len() - 1;
                assert(frag_ok(old_fs, s, k));
                assert(frag_chars(fs@, s, k).drop_last() =~= frag_chars(old_fs, s, k));
                assert(frag_chars(fs@, s, k).last() == s[i as int]);
                assert(char_width_spec(s[i as int]) == 0);
                assert forall|k2: int| 0 <= k2 < k implies frag_ok(fs@, s, k2) by {
                    assert(frag_ok(old_fs, s, k2));
                    assert(fs@[k2] == old_fs[k2]);
                    if k2 > 0 {
                        assert(fs@[k2 - 1] == old_fs[k2 - 1]);
                    }
                    assert(frag_chars(fs@, s, k2) =~= frag_chars(old_fs, s, k2));
                }
                assert(frag_ok(fs@, s, k));
            }
        }
        byte = byte + ulen;
        i = i + 1;
    }
    fs
}

impl Line {
    /// The content as a mathematical character sequence.
    pub open spec fn text(self) -> Seq<char> {
        self.chars@
    }

    /// The cluster descriptors as a mathematical sequence.
    pub open spec fn frags(self) -> Seq<Fragment> {
        self.fragments@
    }

    /// Well-formedness: the fragments are the segmentation of the content
    /// and the content is small enough that all derived offsets fit.
    pub open spec fn wf(self) -> bool {
        &&& frags_wf(self.fragments@, self.chars@)
        &&& self.chars@.len() <= MAX_LINE_CHARS
    }

    /// An empty line.
    pub fn new() -> (r: Line)
        ensures
            r.wf(),
            r.text() == Seq::<char>::empty(),
            r.frags().len() == 0,
    {
        let r = Line { chars: Vec::new(), fragments: Vec::new() };
        r
    }

    /// A line over the given characters. Content longer than
    /// `MAX_LINE_CHARS` is truncated to that many characters.
    pub fn from_chars(chars: Vec<char>) -> (r: Line)
        ensures
            r.wf(),
            chars@.len() <= MAX_LINE_CHARS ==> r.text() == chars@,
            r.text() == chars@.take(min(chars@.len() as int, MAX_LINE_CHARS as int)),
    {
        let mut chars = chars;
        if chars.len() > MAX_LINE_CHARS {
            chars.truncate(MAX_LINE_CHARS);
        }
        proof {
            assert(chars@ =~= chars@.take(chars@.len() as int));
        }
        let fragments = build_fragments(&chars);
        Line { chars, fragments }
    }

    /// A line over the characters of `s`, truncated as `from_chars`
    /// truncates.
    pub fn from_str(s: &str) -> (r: Line)
        ensures
            r.wf(),
            s@.len() <= MAX_LINE_CHARS ==> r.text() == s@,
            r.text() == s@.take(min(s@.len() as int, MAX_LINE_CHARS as int)),
    {
        Line::from_chars(chars_of(s))
    }

    /// Number of grapheme clusters in the line.
    pub fn grapheme_count(&self) -> (r: usize)
        ensures
            r == self.frags().len(),
    {
        self.fragments.len()
    }

    /// Whether the line holds no content.
    pub fn is_empty(&self) -> (r: bool)
        requires
            self.wf(),
        ensures
            r == (self.text().len() == 0),
    {
        self.chars.len() == 0
    }

    /// Display column at which cluster `g` starts; the line's total width
    /// when `g` is at or beyond the cluster count.
    pub open spec fn width_until_spec(self, g: int) -> nat {
        frag_width_sum(self.fragments@, min(g, self.fragments@.len() as int))
    }

    /// Character index at which cluster `g` starts; the content length
    /// when `g` is at or beyond the cluster count.
    pub open spec fn char_start_of(self, g: int) -> int {
        frag_char_start(self.fragments@, self.chars@, g)
    }

    /// Byte offset at which cluster `g` starts; the content's byte length
    /// when `g` is at or beyond the cluster count.
    pub open spec fn byte_start_of(self, g: int) -> int {
        frag_byte_start(self.fragments@, self.chars@, g)
    }

    /// Sum of the display widths of clusters `[0, grapheme_idx)`, the
    /// display column at which cluster `grapheme_idx` begins. An index
    /// beyond the end is clamped to the cluster count.
    pub fn width_until(&self, grapheme_idx: usize) -> (r: usize)
        requires
            self.wf(),
        ensures
            r == self.width_until_spec(grapheme_idx as int),
    {
        let end = if grapheme_idx < self.fragments.len() {
            grapheme_idx
        } else {
            self.fragments.len()
        };
        let mut sum: usize = 0;
        let mut i: usize = 0;
        while i < end
            invariant
                self.wf(),
                end <= self.fragments@.len(),
                i <= end,
                sum == frag_width_sum(self.fragments@, i as int),
            decreases end - i,
        {
            proof {
                lemma_frag_prefix(self.fragments@, self.chars@, i + 1);
                lemma_seq_width_bounds(self.chars@.take(frag_char_start(self.fragments@, self.chars@, i + 1)));
            }
            sum = sum + self.fragments[i].width;
            i = i + 1;
        }
        sum
    }

    /// Executable form of `char_start_of`.
    pub fn char_start(&self, grapheme_idx: usize) -> (r: usize)
        requires
            self.wf(),
        ensures
            r == self.char_start_of(grapheme_idx as int),
            r <= self.text().len(),
    {
        if grapheme_idx < self.fragments.len() {
            proof {
                assert(frag_ok(self.fragments@, self.chars@, grapheme_idx as int));
            }
            self.fragments[grapheme_idx].start_char_idx
        } else {
            self.chars.len()
        }
    }

    /// Executable form of `byte_start_of`.
    pub fn byte_start(&self, grapheme_idx: usize) -> (r: usize)
        requires
            self.wf(),
        ensures
            r == self.byte_start_of(grapheme_idx as int),
    {
        if grapheme_idx < self.fragments.len() {
            self.fragments[grapheme_idx].start_byte_idx
        } else if self.fragments.len() == 0 {
            0
        } else {
            proof {
                lemma_total_byte_len(self.fragments@, self.chars@);
            }
            let f = self.fragments[self.fragments.len() - 1];
            f.start_byte_idx + f.byte_len
        }
    }

    /// The index of the cluster spanning character index `char_idx`.
    pub fn grapheme_at_char(&self, char_idx: usize) -> (g: usize)
        requires
            self.wf(),
            char_idx < self.text().len(),
        ensures
            cluster_contains(self.frags(), g as int, char_idx as int),
    {
        proof {
            if self.fragments@.len() > 0 {
                assert(frag_ok(self.fragments@, self.chars@, 0));
            }
        }
        let nfrags = self.fragments.len();
        let mut k: usize = 0;
        loop
            invariant
                self.wf(),
                char_idx < self.text().len(),
                nfrags == self.frags().len(),
                k < nfrags,
                self.frags()[k as int].start_char_idx <= char_idx,
            decreases self.frags().len() - k,
        {
            proof {
                assert(frag_ok(self.fragments@, self.chars@, k as int));
                if k + 1 < self.fragments@.len() {
                    assert(frag_ok(self.fragments@, self.chars@, k as int + 1));
                }
            }
            let f = self.fragments[k];
            if char_idx < f.start_char_idx + f.char_count {
                return k;
            }
            k = k + 1;
        }
    }

    /// The rendered text for the horizontal window `[left, right)` in
    /// display columns, with search-match highlighting. Occurrences of
    /// `query` in the whole line become `Match` annotations; the one
    /// starting at cluster `selected_match` becomes `SelectedMatch`. The
    /// text is sliced at cluster boundaries only — a cluster straddling a
    /// window edge is wholly excluded — and the kept annotations are
    /// clipped and re-based to the slice's own byte space.
    pub fn get_annotated_visible_substr(
        &self,
        left: Col,
        right: Col,
        query: Option<&Line>,
        selected_match: Option<GraphemeIdx>,
    ) -> (r: AnnotatedString)
        requires
            self.wf(),
            query matches Some(q) ==> q.wf(),
        ensures
            r.chars@ == visible_text_from(*self, left as int, right as int, 0),
            ({
                let q = match query {
                    Some(l) => l.text(),
                    None => Seq::<char>::empty(),
                };
                let sel = match selected_match {
                    Some(g) => Some(self.char_start_of(g as int)),
                    None => None,
                };
                let a = first_kept(*self, left as int, right as int, 0);
                let b = last_kept_end(*self, left as int, right as int, self.frags().len() as int);
                r.annotations@ == clip_annotations(
                    match_annotations(self.text(), q, sel),
                    self.byte_start_of(a),
                    self.byte_start_of(b),
                )
            }),
    {
        let ghost li = left as int;
        let ghost ri = right as int;
        // First pass: gather the kept clusters' characters and the byte
        // window they span.
        let nf = self.fragments.len();
        let mut kept_chars: Vec<char> = Vec::new();
        let mut col: usize = 0;
        let mut k: usize = 0;
        let mut bs: usize = 0;
        let mut be: usize = 0;
        let mut found = false;
        proof {
            assert(kept_chars@ + visible_text_from(*self, li, ri, 0) =~= visible_text_from(
                *self,
                li,
                ri,
                0,
            ));
            assert(last_kept_end(*self, li, ri, 0) == 0);
            if self.fragments@.len() > 0 {
                assert(frag_ok(self.fragments@, self.chars@, 0));
            }
        }
        while k < nf
            invariant
                self.wf(),
                li == left as int,
                ri == right as int,
                nf == self.frags().len(),
                k <= nf,
                col == frag_width_sum(self.frags(), k as int),
                kept_chars@ + visible_text_from(*self, li, ri, k as int) == visible_text_from(
                    *self,
                    li,
                    ri,
                    0,
                ),
                !found ==> first_kept(*self, li, ri, 0) == first_kept(*self, li, ri, k as int),
                found ==> bs == self.byte_start_of(first_kept(*self, li, ri, 0)),
                found ==> first_kept(*self, li, ri, 0) < k,
                be == self.byte_start_of(last_kept_end(*self, li, ri, k as int)),
                found ==> bs <= be,
                !found ==> be == 0,
            decreases nf - k,
        {
            proof {
                assert(frag_ok(self.fragments@, self.chars@, k as int));
                lemma_frag_prefix(self.fragments@, self.chars@, k as int + 1);
                lemma_seq_width_bounds(self.chars@);
                lemma_total_byte_len_weak(self.fragments@, self.chars@, k as int);
            }
            let f = self.fragments[k];
            let col_end = col + f.width;
            proof {
                assert(col_end == frag_width_sum(self.frags(), k as int + 1));
            }
            if left <= col && col_end <= right {
                proof {
                    assert(kept_cluster(*self, k as int, li, ri));
                    assert(first_kept(*self, li, ri, k as int) == k as int);
                    lemma_first_kept_bounds(*self, li, ri, 0);
                    if found {
                        lemma_byte_start_monotone(
                            self.fragments@,
                            self.chars@,
                            first_kept(*self, li, ri, 0),
                            k as int + 1,
                        );
                    }
                }
                let mut piece = copy_range(
                    &self.chars,
                    f.start_char_idx,
                    f.start_char_idx + f.char_count,
                );
                kept_chars.append(&mut piece);
                if !found {
                    found = true;
                    bs = f.start_byte_idx;
                    proof {
                        assert(first_kept(*self, li, ri, k as int) == k as int);
                    }
                }
                be = f.start_byte_idx + f.byte_len;
                proof {
                    assert(kept_cluster(*self, k as int, li, ri));
                    assert(visible_text_from(*self, li, ri, k as int) == frag_chars(
                        self.frags(),
                        self.text(),
                        k as int,
                    ) + visible_text_from(*self, li, ri, k as int + 1));
                    assert(kept_chars@ + visible_text_from(*self, li, ri, k as int + 1)
                        =~= visible_text_from(*self, li, ri, 0));
                    assert(last_kept_end(*self, li, ri, k as int + 1) == k as int + 1);
                    assert(be == self.byte_start_of(k as int + 1));
                }
            } else {
                proof {
                    assert(!kept_cluster(*self, k as int, li, ri));
                    assert(visible_text_from(*self, li, ri, k as int) == visible_text_from(
                        *self,
                        li,
                        ri,
                        k as int + 1,
                    ));
                    assert(last_kept_end(*self, li, ri, k as int + 1) == last_kept_end(
                        *self,
                        li,
                        ri,
                        k as int,
                    ));
                }
            }
            col = col_end;
            k = k + 1;
        }
        if !found {
            bs = self.byte_start(nf);
        }
        proof {
            assert(visible_text_from(*self, li, ri, nf as int) =~= Seq::<char>::empty());
            assert(kept_chars@ =~= visible_text_from(*self, li, ri, 0));
            if !found {
                assert(first_kept(*self, li, ri, nf as int) == nf as int);
            }
        }
        // Second pass: the whole line's match annotations.
        let ghost qtext: Seq<char> = match query {
            Some(l) => l.text(),
            None => Seq::<char>::empty(),
        };
        let ghost sel: Option<int> = match selected_match {
            Some(g) => Some(self.char_start_of(g as int)),
            None => None,
        };
        let mut anns: Vec<Annotation> = Vec::new();
        let ghost mut occ_acc: Seq<int> = Seq::empty();
        if let Some(qline) = query {
            if qline.chars.len() > 0 {
                let sel_char: Option<usize> = match selected_match {
                    Some(g) => Some(self.char_start(g)),
                    None => None,
                };
                let n = self.chars.len();
                let qlen = qline.chars.len();
                let mut i: usize = 0;
                let mut byte_i: usize = 0;
                while i + qlen <= n
                    invariant
                        self.wf(),
                        query == Some(qline),
                        qline.wf(),
                        qtext == qline.text(),
                        n == self.text().len(),
                        qlen == qtext.len(),
                        qlen > 0,
                        i <= n,
                        byte_i == seq_byte_len(self.text().take(i as int)),
                        occurrences_from(self.text(), qtext, 0) == occ_acc + occurrences_from(
                            self.text(),
                            qtext,
                            i as int,
                        ),
                        anns@.len() == occ_acc.len(),
                        forall|j: int|
                            0 <= j < occ_acc.len() ==> #[trigger] anns@[j] == (Annotation {
                                annotation_type: if sel == Some(occ_acc[j]) {
                                    AnnotationType::SelectedMatch
                                } else {
                                    AnnotationType::Match
                                },
                                start_byte_idx: seq_byte_len(
                                    self.text().take(occ_acc[j]),
                                ) as usize,
                                end_byte_idx: seq_byte_len(
                                    self.text().take(occ_acc[j] + qtext.len()),
                                ) as usize,
                            }),
                        sel_char matches Some(sc) ==> sel == Some(sc as int),
                        sel_char is None <==> sel is None,
                    decreases n - i,
                {
                    proof {
                        lemma_seq_width_bounds(self.text());
                        lemma_seq_width_bounds(self.text().take(i as int));
                    }
                    if match_at(&self.chars, &qline.chars, i) {
                        // Walk the matched span to find its byte length.
                        let mut qb: usize = 0;
                        let mut t: usize = 0;
                        while t < qlen
                            invariant
                                self.wf(),
                                n == self.text().len(),
                                i + qlen <= n,
                                t <= qlen,
                                byte_i == seq_byte_len(self.text().take(i as int)),
                                byte_i + qb == seq_byte_len(self.text().take(i + t)),
                                byte_i + qb <= 4 * n,
                            decreases qlen - t,
                        {
                            proof {
                                lemma_seq_width_take_step(self.text(), i + t);
                                lemma_seq_width_bounds(self.text().take(i + t + 1));
                            }
                            qb = qb + utf8_len(self.chars[i + t]);
                            t = t + 1;
                        }
                        let selected = match sel_char {
                            Some(sc) => sc == i,
                            None => false,
                        };
                        let ann = Annotation {
                            annotation_type: if selected {
                                AnnotationType::SelectedMatch
                            } else {
                                AnnotationType::Match
                            },
                            start_byte_idx: byte_i,
                            end_byte_idx: byte_i + qb,
                        };
                        anns.push(ann);
                        proof {
                            occ_acc = occ_acc.push(i as int);
                            assert(occurrences_from(self.text(), qtext, i as int) == seq![i as int]
                                + occurrences_from(self.text(), qtext, i + qtext.len()));
                            assert(occ_acc.drop_last() + (seq![i as int] + occurrences_from(
                                self.text(),
                                qtext,
                                i + qtext.len(),
                            )) =~= occ_acc + occurrences_from(self.text(), qtext, i + qtext.len()));
                        }
                        byte_i = byte_i + qb;
                        i = i + qlen;
                    } else {
                        proof {
                            lemma_seq_width_take_step(self.text(), i as int);
                            lemma_seq_width_bounds(self.text().take(i + 1));
                        }
                        byte_i = byte_i + utf8_len(self.chars[i]);
                        i = i + 1;
                    }
                }
                proof {
                    assert(occurrences_from(self.text(), qtext, i as int) =~= Seq::<int>::empty());
                    assert(occ_acc + occurrences_from(self.text(), qtext, i as int) =~= occ_acc);
                }
            }
        }
        proof {
            if qtext.len() == 0 {
                assert(occurrences_from(self.text(), qtext, 0) =~= Seq::<int>::empty());
            }
            assert(occurrences_from(self.text(), qtext, 0) == occ_acc);
            assert(anns@ =~= match_annotations(self.text(), qtext, sel));
        }
        // Third pass: keep, clip and re-base the annotations that touch
        // the visible byte window.
        let mut out: Vec<Annotation> = Vec::new();
        let na = anns.len();
        let mut j: usize = 0;
        proof {
            assert(anns@.skip(0) =~= anns@);
            assert(out@ + clip_annotations(anns@, bs as int, be as int) =~= clip_annotations(
                anns@,
                bs as int,
                be as int,
            ));
        }
        while j < na
            invariant
                na == anns@.len(),
                j <= na,
                be == 0 || bs <= be,
                out@ + clip_annotations(anns@.skip(j as int), bs as int, be as int)
                    == clip_annotations(anns@, bs as int, be as int),
            decreases na - j,
        {
            let a = anns[j];
            proof {
                assert(anns@.skip(j as int)[0] == anns@[j as int]);
                assert(anns@.skip(j as int).drop_first() =~= anns@.skip(j + 1));
            }
            if a.start_byte_idx < be && a.end_byte_idx > bs {
                let ns = if a.start_byte_idx > bs {
                    a.start_byte_idx - bs
                } else {
                    0
                };
                let ne = if a.end_byte_idx < be {
                    a.end_byte_idx - bs
                } else {
                    be - bs
                };
                out.push(
                    Annotation { annotation_type: a.annotation_type, start_byte_idx: ns, end_byte_idx: ne },
                );
                proof {
                    assert(out@ + clip_annotations(anns@.skip(j + 1), bs as int, be as int)
                        =~= clip_annotations(anns@, bs as int, be as int));
                }
            }
            j = j + 1;
        }
        proof {
            assert(clip_annotations(anns@.skip(na as int), bs as int, be as int) =~= Seq::<
                Annotation,
            >::empty());
            assert(out@ =~= clip_annotations(anns@, bs as int, be as int));
        }
        AnnotatedString { chars: kept_chars, annotations: out }
    }

    /// Inserts `character` at the start of cluster `grapheme_idx`, or at
    /// the end of the content when the index is at or beyond the cluster
    /// count, and resegments. A line already at the maximum representable
    /// length is left unchanged.
    pub fn insert(&mut self, grapheme_idx: usize, character: char)
        requires
            old(self).wf(),
        ensures
            final(self).wf(),
            final(self).text() == inserted_text(*old(self), grapheme_idx as int, character),
    {
        let pos = self.char_start(grapheme_idx);
        if self.chars.len() >= MAX_LINE_CHARS {
            return ;
        }
        self.chars.insert(pos, character);
        self.fragments = build_fragments(&self.chars);
    }

    /// Removes the whole cluster at `grapheme_idx` (its full character
    /// span) and resegments; leaves the line unchanged when the index is
    /// out of range.
    pub fn remove(&mut self, grapheme_idx: usize)
        requires
            old(self).wf(),
        ensures
            final(self).wf(),
            final(self).text() == removed_text(*old(self), grapheme_idx as int),
            grapheme_idx >= old(self).frags().len() ==> final(self).frags() == old(self).frags(),
    {
        if grapheme_idx >= self.fragments.len() {
            return ;
        }
        proof {
            assert(frag_ok(self.fragments@, self.chars@, grapheme_idx as int));
        }
        let f = self.fragments[grapheme_idx];
        let ghost orig = self.chars@;
        let mut j: usize = 0;
        while j < f.char_count
            invariant
                j <= f.char_count,
                f.start_char_idx + f.char_count <= orig.len(),
                self.chars@ == orig.subrange(0, f.start_char_idx as int) + orig.skip(
                    f.start_char_idx + j,
                ),
            decreases f.char_count - j,
        {
            let ghost before = self.chars@;
            let _ = self.chars.remove(f.start_char_idx);
            proof {
                assert(self.chars@ =~= orig.subrange(0, f.start_char_idx as int) + orig.skip(
                    f.start_char_idx + j + 1,
                ));
            }
            j = j + 1;
        }
        proof {
            lemma_seq_width_bounds(orig);
        }
        self.fragments = build_fragments(&self.chars);
        proof {
            assert(self.chars@.len() <= orig.len());
        }
    }
}

/// The content of `l` after inserting `c` at the start of cluster `g`
/// (an index at or beyond the cluster count means the end of the line).
/// A line already at `MAX_LINE_CHARS` stays unchanged.
pub open spec fn inserted_text(l: Line, g: int, c: char) -> Seq<char> {
    if l.text().len() < MAX_LINE_CHARS {
        l.text().insert(l.char_start_of(g), c)
    } else {
        l.text()
    }
}

/// The content of `l` after removing the whole cluster `g`; unchanged
/// when the index is out of range.
pub open spec fn removed_text(l: Line, g: int) -> Seq<char> {
    if 0 <= g < l.frags().len() {
        l.text().subrange(0, l.frags()[g].start_char_idx as int) + l.text().skip(
            l.frags()[g].start_char_idx + l.frags()[g].char_count,
        )
    } else {
        l.text()
    }
}

/// Whether the characters of `q` occur in `s` starting at index `i`.
/// An empty needle never counts as an occurrence.
pub open spec fn is_occurrence_at(s: Seq<char>, q: Seq<char>, i: int) -> bool {
    &&& q.len() > 0
    &&& 0 <= i
    &&& i + q.len() <= s.len()
    &&& s.subrange(i, i + q.len()) == q
}

/// Whether cluster `g` of fragment sequence `fs` spans character index `i`.
pub open spec fn cluster_contains(fs: Seq<Fragment>, g: int, i: int) -> bool {
    &&& 0 <= g < fs.len()
    &&& fs[g].start_char_idx <= i < fs[g].start_char_idx + fs[g].char_count
}

/// Whether `q` occurs at `i` in `s`, decided by character comparison.
fn match_at(s: &Vec<char>, q: &Vec<char>, i: usize) -> (r: bool)
    requires
        q@.len() > 0,
        i + q@.len() <= s@.len(),
    ensures
        r == is_occurrence_at(s@, q@, i as int),
{
    let n = s.len();
    let mut j: usize = 0;
    while j < q.len()
        invariant
            q@.len() > 0,
            i + q@.len() <= s@.len(),
            n == s@.len(),
            j <= q@.len(),
            forall|t: int| 0 <= t < j ==> s@[i + t] == q@[t],
        decreases q@.len() - j,
    {
        if s[i + j] != q[j] {
            proof {
                assert(s@.subrange(i as int, i + q@.len())[j as int] == s@[i + j]);
            }
            return false;
        }
        j = j + 1;
    }
    proof {
        assert(s@.subrange(i as int, i + q@.len()) =~= q@);
    }
    true
}

/// First occurrence of `q` in `s` starting at or after character index
/// `from`, if any.
pub fn find_from(s: &Vec<char>, q: &Vec<char>, from: usize) -> (r: Option<usize>)
    requires
        q@.len() > 0,
    ensures
        match r {
            Some(i) => {
                &&& is_occurrence_at(s@, q@, i as int)
                &&& from <= i
                &&& forall|j: int| from <= j < i ==> !is_occurrence_at(s@, q@, j)
            },
            None => forall|j: int| from <= j ==> !is_occurrence_at(s@, q@, j),
        },
{
    if q.len() > s.len() {
        return None;
    }
    let last = s.len() - q.len();
    let mut i = from;
    while i <= last
        invariant
            q@.len() > 0,
            last == s@.len() - q@.len(),
            last < usize::MAX,
            from <= i,
            forall|j: int| from <= j < i ==> !is_occurrence_at(s@, q@, j),
        decreases last + 1 - i,
    {
        if match_at(s, q, i) {
            return Some(i);
        }
        i = i + 1;
    }
    None
}

/// Last occurrence of `q` lying wholly before character index `before`
/// (the occurrence ends at or before `before`), if any.
pub fn find_last_before(s: &Vec<char>, q: &Vec<char>, before: usize) -> (r: Option<usize>)
    requires
        q@.len() > 0,
    ensures
        match r {
            Some(i) => {
                &&& is_occurrence_at(s@, q@, i as int)
                &&& i + q@.len() <= before
                &&& forall|j: int|
                    i < j && j + q@.len() <= before ==> !is_occurrence_at(s@, q@, j)
            },
            None => forall|j: int| j + q@.len() <= before ==> !is_occurrence_at(s@, q@, j),
        },
{
    let limit = if before < s.len() {
        before
    } else {
        s.len()
    };
    if q.len() > limit {
        return None;
    }
    let mut i = limit - q.len();
    loop
        invariant
            q@.len() > 0,
            limit <= s@.len(),
            limit <= before,
            before > s@.len() ==> limit == s@.len(),
            i + q@.len() <= limit,
            forall|j: int| i < j && j + q@.len() <= before ==> !is_occurrence_at(s@, q@, j),
        decreases i + 1,
    {
        if match_at(s, q, i) {
            return Some(i);
        }
        if i == 0 {
            return None;
        }
        i = i - 1;
    }
}

/// Non-overlapping occurrence starts of `q` in `s`, scanning greedily
/// from `i`: after a match the scan resumes just past it.
pub open spec fn occurrences_from(s: Seq<char>, q: Seq<char>, i: int) -> Seq<int>
    decreases s.len() - i,
{
    if q.len() == 0 || i < 0 || i + q.len() > s.len() {
        Seq::empty()
    } else if is_occurrence_at(s, q, i) {
        seq![i] + occurrences_from(s, q, i + q.len())
    } else {
        occurrences_from(s, q, i + 1)
    }
}

/// The highlight annotations of a whole line: one per occurrence of `q`,
/// tagged `SelectedMatch` for the occurrence starting at character index
/// `sel_char` (if any), with byte ranges into the line's own encoding.
pub open spec fn match_annotations(s: Seq<char>, q: Seq<char>, sel_char: Option<int>) -> Seq<
    Annotation,
> {
    occurrences_from(s, q, 0).map_values(
        |p: int|
            Annotation {
                annotation_type: if sel_char == Some(p) {
                    AnnotationType::SelectedMatch
                } else {
                    AnnotationType::Match
                },
                start_byte_idx: seq_byte_len(s.take(p)) as usize,
                end_byte_idx: seq_byte_len(s.take(p + q.len())) as usize,
            },
    )
}

/// Whether cluster `k`'s full column span lies within the window
/// `[left, right)`; a cluster that straddles an edge is not kept.
pub open spec fn kept_cluster(l: Line, k: int, left: int, right: int) -> bool {
    &&& left <= frag_width_sum(l.frags(), k)
    &&& frag_width_sum(l.frags(), k + 1) <= right
}

/// The characters of the clusters from `k` on that the window keeps:
/// each cluster is included wholly or not at all.
pub open spec fn visible_text_from(l: Line, left: int, right: int, k: int) -> Seq<char>
    decreases l.frags().len() - k,
{
    if k < 0 || k >= l.frags().len() {
        Seq::empty()
    } else if kept_cluster(l, k, left, right) {
        frag_chars(l.frags(), l.text(), k) + visible_text_from(l, left, right, k + 1)
    } else {
        visible_text_from(l, left, right, k + 1)
    }
}

/// Index of the first kept cluster at or after `k`, or the cluster count
/// when none is kept.
pub open spec fn first_kept(l: Line, left: int, right: int, k: int) -> int
    decreases l.frags().len() - k,
{
    if k < 0 || k >= l.frags().len() {
        l.frags().len() as int
    } else if kept_cluster(l, k, left, right) {
        k
    } else {
        first_kept(l, left, right, k + 1)
    }
}

/// `first_kept` stays within `[k, cluster count]`.
pub proof fn lemma_first_kept_bounds(l: Line, left: int, right: int, k: int)
    requires
        0 <= k <= l.frags().len(),
    ensures
        k <= first_kept(l, left, right, k) <= l.frags().len(),
    decreases l.frags().len() - k,
{
    if k < l.frags().len() && !kept_cluster(l, k, left, right) {
        lemma_first_kept_bounds(l, left, right, k + 1);
    }
}

/// One past the last kept cluster below `k`, or `0` when none is kept.
pub open spec fn last_kept_end(l: Line, left: int, right: int, k: int) -> int
    decreases k,
{
    if k <= 0 {
        0
    } else if kept_cluster(l, k - 1, left, right) {
        k
    } else {
        last_kept_end(l, left, right, k - 1)
    }
}

/// The annotations that overlap the byte window `[bs, be)`, clipped to it
/// and re-based so that offset zero is `bs`.
pub open spec fn clip_annotations(anns: Seq<Annotation>, bs: int, be: int) -> Seq<Annotation>
    decreases anns.len(),
{
    if anns.len() == 0 {
        Seq::empty()
    } else {
        let a = anns[0];
        let rest = clip_annotations(anns.drop_first(), bs, be);
        if a.start_byte_idx < be && a.end_byte_idx > bs {
            seq![
                Annotation {
                    annotation_type: a.annotation_type,
                    start_byte_idx: (max(a.start_byte_idx as int, bs) - bs) as usize,
                    end_byte_idx: (min(a.end_byte_idx as int, be) - bs) as usize,
                },
            ] + rest
        } else {
            rest
        }
    }
}

/// A kept cluster's columns all lie inside the window: the window never
/// shows part of a cluster's span.
pub proof fn lemma_kept_cluster_whole(l: Line, k: int, left: int, right: int)
    requires
        0 <= k < l.frags().len(),
        kept_cluster(l, k, left, right),
    ensures
        left <= frag_width_sum(l.frags(), k),
        frag_width_sum(l.frags(), k) + l.frags()[k].width <= right,
{
}

/// Collects the characters of a string slice.
pub fn chars_of(s: &str) -> (r: Vec<char>)
    ensures
        r@ == s@,
{
    let mut v: Vec<char> = Vec::new();
    for c in it: s.chars()
        invariant
            it.seq() == s@,
            v@ == it.seq().take(it.index() as int),
    {
        v.push(c);
    }
    proof {
        assert(v@ =~= s@);
    }
    v
}

/// Character index at which cluster `k` starts, clamped to the content
/// length at or beyond the cluster count.
pub open spec fn frag_char_start(fs: Seq<Fragment>, s: Seq<char>, k: int) -> int {
    if 0 <= k < fs.len() {
        fs[k].start_char_idx as int
    } else if k >= fs.len() {
        s.len() as int
    } else {
        0
    }
}

/// Byte offset at which cluster `k` starts, clamped to the content's byte
/// length at or beyond the cluster count.
pub open spec fn frag_byte_start(fs: Seq<Fragment>, s: Seq<char>, k: int) -> int {
    if 0 <= k < fs.len() {
        fs[k].start_byte_idx as int
    } else if k >= fs.len() {
        seq_byte_len(s) as int
    } else {
        0
    }
}

/// Sum of the display widths of the first `k` fragments.
pub open spec fn frag_width_sum(fs: Seq<Fragment>, k: int) -> nat
    decreases k,
{
    if k <= 0 {
        0
    } else {
        (frag_width_sum(fs, k - 1) + fs[k - 1].width) as nat
    }
}

/// The fragment prefix sums agree with the widths and byte lengths of the
/// corresponding character prefixes.
pub proof fn lemma_frag_prefix(fs: Seq<Fragment>, s: Seq<char>, k: int)
    requires
        frags_wf(fs, s),
        0 <= k <= fs.len(),
    ensures
        frag_width_sum(fs, k) == seq_width(s.take(frag_char_start(fs, s, k))),
        frag_byte_start(fs, s, k) == seq_byte_len(s.take(frag_char_start(fs, s, k))),
        0 <= frag_char_start(fs, s, k) <= s.len(),
        frag_width_sum(fs, k) <= 2 * s.len(),
        frag_byte_start(fs, s, k) <= 4 * s.len(),
    decreases k,
{
    if fs.len() > 0 {
        assert(frag_ok(fs, s, 0));
    }
    if k == 0 {
        assert(s.take(0) =~= Seq::<char>::empty());
        if fs.len() == 0 {
            assert(s.len() == 0);
            assert(s.take(frag_char_start(fs, s, 0)) =~= Seq::<char>::empty());
        }
    } else {
        assert(frag_ok(fs, s, k - 1));
        if k < fs.len() {
            assert(frag_ok(fs, s, k));
        }
        lemma_frag_prefix(fs, s, k - 1);
        let a = frag_char_start(fs, s, k - 1);
        let b = frag_char_start(fs, s, k);
        assert(b == a + fs[k - 1].char_count);
        if k == fs.len() {
            assert(s.take(b) =~= s);
        }
        assert(s.take(b) =~= s.take(a) + frag_chars(fs, s, k - 1));
        lemma_seq_width_concat(s.take(a), frag_chars(fs, s, k - 1));
    }
    lemma_seq_width_bounds(s.take(frag_char_start(fs, s, k)));
}

/// The last fragment's end byte offset is the content's total byte length.
pub proof fn lemma_total_byte_len(fs: Seq<Fragment>, s: Seq<char>)
    requires
        frags_wf(fs, s),
        fs.len() > 0,
    ensures
        fs[fs.len() - 1].start_byte_idx + fs[fs.len() - 1].byte_len == seq_byte_len(s),
        seq_byte_len(s) <= 4 * s.len(),
{
    let k = fs.len() - 1;
    assert(frag_ok(fs, s, k));
    lemma_frag_prefix(fs, s, k);
    let a = frag_char_start(fs, s, k);
    assert(s =~= s.take(a) + frag_chars(fs, s, k));
    lemma_seq_width_concat(s.take(a), frag_chars(fs, s, k));
    lemma_seq_width_bounds(s);
}

/// A fragment's end byte offset is the next fragment's start (or the
/// total byte length), and stays within four bytes per character.
pub proof fn lemma_total_byte_len_weak(fs: Seq<Fragment>, s: Seq<char>, k: int)
    requires
        frags_wf(fs, s),
        0 <= k < fs.len(),
    ensures
        fs[k].start_byte_idx + fs[k].byte_len == frag_byte_start(fs, s, k + 1),
        frag_byte_start(fs, s, k + 1) <= 4 * s.len(),
{
    if k + 1 < fs.len() {
        assert(frag_ok(fs, s, k + 1));
    } else {
        lemma_total_byte_len(fs, s);
    }
    lemma_frag_prefix(fs, s, k + 1);
}

/// Cluster start character indices are monotone in the cluster index,
/// and a cluster ends at or before any later cluster's start.
pub proof fn lemma_char_start_monotone(fs: Seq<Fragment>, s: Seq<char>, k1: int, k2: int)
    requires
        frags_wf(fs, s),
        0 <= k1 <= k2 <= fs.len(),
    ensures
        frag_char_start(fs, s, k1) <= frag_char_start(fs, s, k2),
        k1 < k2 && k1 < fs.len() ==> fs[k1].start_char_idx + fs[k1].char_count
            <= frag_char_start(fs, s, k2),
    decreases k2 - k1,
{
    if k1 < k2 {
        lemma_char_start_monotone(fs, s, k1 + 1, k2);
        assert(frag_ok(fs, s, k1));
        if k1 + 1 < fs.len() {
            assert(frag_ok(fs, s, k1 + 1));
        }
    }
}

/// Cluster start byte offsets are monotone in the cluster index.
pub proof fn lemma_byte_start_monotone(fs: Seq<Fragment>, s: Seq<char>, k1: int, k2: int)
    requires
        frags_wf(fs, s),
        0 <= k1 <= k2 <= fs.len(),
    ensures
        frag_byte_start(fs, s, k1) <= frag_byte_start(fs, s, k2),
    decreases k2 - k1,
{
    if k1 < k2 {
        lemma_byte_start_monotone(fs, s, k1, k2 - 1);
        lemma_total_byte_len_weak(fs, s, k2 - 1);
    }
}

/// Copies the characters `[a, b)` out of `s`.
pub fn copy_range(s: &Vec<char>, a: usize, b: usize) -> (r: Vec<char>)
    requires
        a <= b <= s@.len(),
    ensures
        r@ == s@.subrange(a as int, b as int),
{
    let mut r: Vec<char> = Vec::new();
    let mut j = a;
    while j < b
        invariant
            a <= j <= b <= s@.len(),
            r@ == s@.subrange(a as int, j as int),
        decreases b - j,
    {
        r.push(s[j]);
        proof {
            assert(s@.subrange(a as int, j + 1) =~= s@.subrange(a as int, j as int).push(
                s@[j as int],
            ));
        }
        j = j + 1;
    }
    r
}

/// The total width of a line is the sum of every cluster's display
/// width: `width_until` at the cluster count equals the whole content's
/// width.
pub proof fn lemma_width_until_total(l: Line)
    requires
        l.wf(),
    ensures
        l.width_until_spec(l.frags().len() as int) == seq_width(l.text()),
{
    lemma_frag_prefix(l.fragments@, l.chars@, l.fragments@.len() as int);
    assert(l.text().take(l.text().len() as int) =~= l.text());
}

/// `width_until` is monotonically non-decreasing in its argument.
pub proof fn lemma_width_until_monotone(l: Line, g1: int, g2: int)
    requires
        l.wf(),
        g1 <= g2,
    ensures
        l.width_until_spec(g1) <= l.width_until_spec(g2),
{
    lemma_frag_width_sum_monotone(
        l.fragments@,
        min(g1, l.fragments@.len() as int),
        min(g2, l.fragments@.len() as int),
    );
}

/// Two well-formed segmentations of the same content agree on a prefix.
proof fn lemma_frags_agree(fs1: Seq<Fragment>, fs2: Seq<Fragment>, s: Seq<char>, k: int)
    requires
        frags_wf(fs1, s),
        frags_wf(fs2, s),
        0 <= k <= fs1.len(),
        k <= fs2.len(),
    ensures
        forall|j: int| 0 <= j < k ==> fs1[j] == fs2[j],
    decreases k,
{
    if k > 0 {
        lemma_frags_agree(fs1, fs2, s, k - 1);
        let j = k - 1;
        assert(frag_ok(fs1, s, j));
        assert(frag_ok(fs2, s, j));
        assert(fs1[j].start_char_idx == fs2[j].start_char_idx);
        assert(fs1[j].start_byte_idx == fs2[j].start_byte_idx);
        let a = fs1[j].start_char_idx as int;
        let c1 = fs1[j].char_count as int;
        let c2 = fs2[j].char_count as int;
        if c1 < c2 {
            assert(is_zero_width(s[a + c1]));
            if j == fs1.len() - 1 {
                assert(a + c1 == s.len());
                assert(a + c2 <= s.len());
                assert(false);
            } else {
                assert(frag_ok(fs1, s, j + 1));
                assert(fs1[j + 1].start_char_idx == a + c1);
                assert(!is_zero_width(s[a + c1]));
                assert(false);
            }
        }
        if c2 < c1 {
            assert(is_zero_width(s[a + c2]));
            if j == fs2.len() - 1 {
                assert(a + c2 == s.len());
                assert(false);
            } else {
                assert(frag_ok(fs2, s, j + 1));
                assert(!is_zero_width(s[a + c2]));
                assert(false);
            }
        }
        assert(fs1[j].char_count == fs2[j].char_count);
        assert(frag_chars(fs1, s, j) == frag_chars(fs2, s, j));
        assert(fs1[j] == fs2[j]);
    }
}

/// The content determines its segmentation: two well-formed fragment
/// sequences over the same characters are equal.
pub proof fn lemma_frags_unique(fs1: Seq<Fragment>, fs2: Seq<Fragment>, s: Seq<char>)
    requires
        frags_wf(fs1, s),
        frags_wf(fs2, s),
    ensures
        fs1 == fs2,
{
    if fs1.len() == 0 {
        assert(s.len() == 0);
        if fs2.len() > 0 {
            assert(frag_ok(fs2, s, 0));
            assert(false);
        }
    } else if fs2.len() == 0 {
        assert(s.len() == 0);
        assert(frag_ok(fs1, s, 0));
        assert(false);
    } else if fs1.len() < fs2.len() {
        lemma_frags_agree(fs1, fs2, s, fs1.len() as int);
        let j = fs1.len() - 1;
        assert(frag_ok(fs1, s, j));
        assert(fs1[j].start_char_idx + fs1[j].char_count == s.len());
        assert(fs2[j] == fs1[j]);
        assert(frag_ok(fs2, s, j + 1));
        assert(fs2[j + 1].start_char_idx == s.len());
        assert(false);
    } else if fs2.len() < fs1.len() {
        lemma_frags_agree(fs1, fs2, s, fs2.len() as int);
        let j = fs2.len() - 1;
        assert(frag_ok(fs2, s, j));
        assert(fs2[j].start_char_idx + fs2[j].char_count == s.len());
        assert(fs1[j] == fs2[j]);
        assert(frag_ok(fs1, s, j + 1));
        assert(fs1[j + 1].start_char_idx == s.len());
        assert(false);
    } else {
        lemma_frags_agree(fs1, fs2, s, fs1.len() as int);
        assert(fs1 =~= fs2);
    }
}

/// A fragment moved one character and one inserted character's bytes to
/// the right.
spec fn shifted_frag(f: Fragment, c: char) -> Fragment {
    Fragment {
        start_char_idx: (f.start_char_idx + 1) as usize,
        char_count: f.char_count,
        start_byte_idx: (f.start_byte_idx + utf8_len_spec(c)) as usize,
        byte_len: f.byte_len,
        width: f.width,
    }
}

/// The one-character cluster an inserted base character forms.
spec fn inserted_frag(fs: Seq<Fragment>, s: Seq<char>, i: int, c: char) -> Fragment {
    Fragment {
        start_char_idx: frag_char_start(fs, s, i) as usize,
        char_count: 1usize,
        start_byte_idx: frag_byte_start(fs, s, i) as usize,
        byte_len: utf8_len_spec(c) as usize,
        width: char_width_spec(c) as usize,
    }
}

/// The expected segmentation after inserting `c` at the start of cluster
/// `i`: the clusters before it unchanged, one new cluster for `c`, the
/// rest shifted.
spec fn inserted_frags(fs: Seq<Fragment>, s: Seq<char>, i: int, c: char) -> Seq<Fragment> {
    fs.take(i) + seq![inserted_frag(fs, s, i, c)] + fs.skip(i).map_values(
        |f: Fragment| shifted_frag(f, c),
    )
}

/// The common precondition of the insertion lemmas.
spec fn ins_pre(fs: Seq<Fragment>, s: Seq<char>, i: int, c: char) -> bool {
    &&& frags_wf(fs, s)
    &&& s.len() < MAX_LINE_CHARS
    &&& !is_zero_width(c)
    &&& 0 <= i <= fs.len()
    &&& (i < fs.len() ==> !is_zero_width(s[fs[i].start_char_idx as int]))
}

/// Indexing facts about `inserted_frags` and the inserted content: which
/// fragment sits where, that no offset is truncated, and how the new
/// content's characters map to the old ones.
proof fn lemma_ins_index(fs: Seq<Fragment>, s: Seq<char>, i: int, c: char)
    requires
        ins_pre(fs, s, i, c),
    ensures
        inserted_frags(fs, s, i, c).len() == fs.len() + 1,
        forall|k: int| 0 <= k < i ==> #[trigger] inserted_frags(fs, s, i, c)[k] == fs[k],
        inserted_frags(fs, s, i, c)[i] == inserted_frag(fs, s, i, c),
        forall|k: int|
            i < k <= fs.len() ==> #[trigger] inserted_frags(fs, s, i, c)[k] == shifted_frag(
                fs[k - 1],
                c,
            ),
        forall|k: int|
            0 <= k < fs.len() ==> (#[trigger] fs[k]).start_char_idx + 1 <= usize::MAX
                && fs[k].start_byte_idx + utf8_len_spec(c) <= usize::MAX,
        0 <= frag_char_start(fs, s, i) <= s.len(),
        0 <= frag_byte_start(fs, s, i) <= usize::MAX - 4,
        1 <= utf8_len_spec(c) <= 4,
        char_width_spec(c) <= 2,
        s.insert(frag_char_start(fs, s, i), c).len() == s.len() + 1,
        forall|j: int|
            0 <= j < frag_char_start(fs, s, i) ==> #[trigger] s.insert(
                frag_char_start(fs, s, i),
                c,
            )[j] == s[j],
        s.insert(frag_char_start(fs, s, i), c)[frag_char_start(fs, s, i)] == c,
        forall|j: int|
            frag_char_start(fs, s, i) < j <= s.len() ==> #[trigger] s.insert(
                frag_char_start(fs, s, i),
                c,
            )[j] == s[j - 1],
{
    let p = frag_char_start(fs, s, i);
    lemma_frag_prefix(fs, s, i);
    assert(s.insert(p, c) =~= s.take(p) + seq![c] + s.skip(p));
    assert forall|k: int| 0 <= k < fs.len() implies (#[trigger] fs[k]).start_char_idx + 1
        <= usize::MAX && fs[k].start_byte_idx + utf8_len_spec(c) <= usize::MAX by {
        assert(frag_ok(fs, s, k));
        lemma_frag_prefix(fs, s, k);
    }
    assert forall|k: int| i < k <= fs.len() implies #[trigger] inserted_frags(fs, s, i, c)[k]
        == shifted_frag(fs[k - 1], c) by {
        assert(fs.skip(i).map_values(|f: Fragment| shifted_frag(f, c))[k - i - 1]
            == shifted_frag(fs.skip(i)[k - i - 1], c));
        assert(fs.skip(i)[k - i - 1] == fs[k - 1]);
    }
}

/// After the insertion, a cluster before the insertion point is
/// unchanged and still consistent.
proof fn lemma_ins_low(fs: Seq<Fragment>, s: Seq<char>, i: int, c: char, k: int)
    requires
        ins_pre(fs, s, i, c),
        0 <= k < i,
    ensures
        frag_ok(inserted_frags(fs, s, i, c), s.insert(frag_char_start(fs, s, i), c), k),
{
    lemma_ins_index(fs, s, i, c);
    let fs2 = inserted_frags(fs, s, i, c);
    let s2 = s.insert(frag_char_start(fs, s, i), c);
    assert(frag_ok(fs, s, k));
    lemma_char_start_monotone(fs, s, k, i);
    if k > 0 {
        assert(fs2[k - 1] == fs[k - 1]);
    }
    assert(frag_chars(fs2, s2, k) =~= frag_chars(fs, s, k));
}

/// The inserted character forms a consistent one-character cluster at
/// the insertion index.
proof fn lemma_ins_mid(fs: Seq<Fragment>, s: Seq<char>, i: int, c: char)
    requires
        ins_pre(fs, s, i, c),
    ensures
        frag_ok(inserted_frags(fs, s, i, c), s.insert(frag_char_start(fs, s, i), c), i),
{
    lemma_ins_index(fs, s, i, c);
    let fs2 = inserted_frags(fs, s, i, c);
    let p = frag_char_start(fs, s, i);
    let pb = frag_byte_start(fs, s, i);
    let s2 = s.insert(p, c);
    if fs.len() > 0 {
        assert(frag_ok(fs, s, 0));
    } else {
        assert(s.len() == 0);
        assert(s =~= Seq::<char>::empty());
    }
    if i > 0 {
        assert(fs2[i - 1] == fs[i - 1]);
        assert(frag_ok(fs, s, i - 1));
        if i < fs.len() {
            assert(frag_ok(fs, s, i));
            assert(fs[i - 1].start_char_idx + fs[i - 1].char_count == p);
            assert(fs[i - 1].start_byte_idx + fs[i - 1].byte_len == pb);
        } else {
            assert(fs[i - 1].start_char_idx + fs[i - 1].char_count == s.len());
            assert(p == s.len());
            lemma_total_byte_len(fs, s);
        }
    }
    assert(frag_chars(fs2, s2, i) =~= seq![c]);
    assert(frag_chars(fs2, s2, i).drop_last() =~= Seq::<char>::empty());
    assert(seq_byte_len(Seq::<char>::empty()) == 0);
    assert(seq_width(Seq::<char>::empty()) == 0);
}

/// After the insertion, a cluster past the insertion point is the old
/// cluster shifted, and still consistent.
proof fn lemma_ins_high(fs: Seq<Fragment>, s: Seq<char>, i: int, c: char, k: int)
    requires
        ins_pre(fs, s, i, c),
        i < k <= fs.len(),
    ensures
        frag_ok(inserted_frags(fs, s, i, c), s.insert(frag_char_start(fs, s, i), c), k),
{
    lemma_ins_index(fs, s, i, c);
    let fs2 = inserted_frags(fs, s, i, c);
    let p = frag_char_start(fs, s, i);
    let pb = frag_byte_start(fs, s, i);
    let s2 = s.insert(p, c);
    let ko = k - 1;
    assert(frag_ok(fs, s, ko));
    lemma_char_start_monotone(fs, s, i, ko);
    let a = fs[ko].start_char_idx as int;
    assert(a >= p);
    assert(fs2[k] == shifted_frag(fs[ko], c));
    assert(frag_chars(fs2, s2, k) =~= frag_chars(fs, s, ko));
    if ko == i {
        assert(fs2[k - 1] == inserted_frag(fs, s, i, c));
        assert(fs[i].start_char_idx == p);
        assert(fs[i].start_byte_idx == pb);
    } else {
        assert(fs2[k - 1] == shifted_frag(fs[ko - 1], c));
        assert(frag_ok(fs, s, ko - 1));
    }
    assert(!is_zero_width(s2[fs2[k].start_char_idx as int]));
    assert forall|j: int|
        fs2[k].start_char_idx < j < fs2[k].start_char_idx + fs2[k].char_count implies
            is_zero_width(s2[j]) by {
        assert(s2[j] == s[j - 1]);
    }
}

/// The constructed fragment sequence is the well-formed segmentation of
/// the content with `c` inserted.
proof fn lemma_insert_frags_wf(fs: Seq<Fragment>, s: Seq<char>, i: int, c: char)
    requires
        ins_pre(fs, s, i, c),
    ensures
        frags_wf(inserted_frags(fs, s, i, c), s.insert(frag_char_start(fs, s, i), c)),
{
    lemma_ins_index(fs, s, i, c);
    let fs2 = inserted_frags(fs, s, i, c);
    let s2 = s.insert(frag_char_start(fs, s, i), c);
    assert forall|k: int| 0 <= k < fs2.len() implies frag_ok(fs2, s2, k) by {
        if k < i {
            lemma_ins_low(fs, s, i, c, k);
        } else if k == i {
            lemma_ins_mid(fs, s, i, c);
        } else {
            lemma_ins_high(fs, s, i, c, k);
        }
    }
    let last = fs2.len() - 1;
    if i < fs.len() {
        assert(fs2[last] == shifted_frag(fs[fs.len() - 1], c));
        assert(frag_ok(fs, s, fs.len() - 1));
    } else {
        assert(fs2[last] == inserted_frag(fs, s, i, c));
    }
}

/// Inserting a character and then removing the cluster at the same index
/// restores the original content: when `c` is a base (non-zero-width)
/// character and the cluster at `i` (if any) starts with a base
/// character, the inserted character forms exactly one new cluster at
/// index `i`, and removing that cluster undoes the insertion. By
/// `lemma_frags_unique`, equal content also means an equal segmentation,
/// so the grapheme count is restored as well. (Inserting a zero-width
/// character, or inserting before a cluster that begins with one, merges
/// clusters instead, which is why those inputs are excluded.)
pub proof fn lemma_insert_remove_identity(l: Line, l1: Line, i: int, c: char)
    requires
        l.wf(),
        l1.wf(),
        !is_zero_width(c),
        0 <= i <= l.frags().len(),
        i < l.frags().len() ==> !is_zero_width(
            l.text()[l.frags()[i as int].start_char_idx as int],
        ),
        l.text().len() < MAX_LINE_CHARS,
        l1.text() == inserted_text(l, i, c),
    ensures
        l1.frags().len() == l.frags().len() + 1,
        l1.frags()[i as int].start_char_idx == l.char_start_of(i),
        l1.frags()[i as int].char_count == 1,
        removed_text(l1, i) == l.text(),
{
    let fs = l.fragments@;
    let s = l.text();
    let p = l.char_start_of(i);
    if i < fs.len() {
        assert(frag_ok(fs, s, i));
    }
    let s2 = s.insert(p, c);
    assert(l1.text() == s2);
    lemma_ins_index(fs, s, i, c);
    lemma_insert_frags_wf(fs, s, i, c);
    let fs2 = inserted_frags(fs, s, i, c);
    lemma_frags_unique(l1.fragments@, fs2, s2);
    assert(l1.frags()[i as int] == inserted_frag(fs, s, i, c));
    assert(removed_text(l1, i) =~= s);
}

/// Prefix width sums are monotone in the number of fragments summed.
pub proof fn lemma_frag_width_sum_monotone(fs: Seq<Fragment>, k1: int, k2: int)
    requires
        k1 <= k2,
    ensures
        frag_width_sum(fs, k1) <= frag_width_sum(fs, k2),
    decreases k2 - k1,
{
    if k1 < k2 {
        lemma_frag_width_sum_monotone(fs, k1, k2 - 1);
    }
}

} // verus!
