//! The document: an ordered sequence of lines with dirty tracking,
//! load/save content handling, and a bidirectional search engine.
//!
//! File I/O itself lives outside this crate: loading takes the file's
//! decoded content and saving hands back the serialized content to write,
//! with the dirty flag cleared only once the caller reports success.
//!
//! The line terminator is a single `'\n'`. Loading splits on it, and a
//! terminator ends its record: content with a final `'\n'` produces no
//! extra empty line. Saving joins the lines with `'\n'`, so content that
//! does not end in a terminator round-trips byte-identically.

use vstd::prelude::*;
use vstd::math::min;

use crate::line::{
    chars_of, cluster_contains, copy_range, find_from, find_last_before, inserted_text,
    is_occurrence_at, removed_text, Line, MAX_LINE_CHARS,
};
use crate::prelude::Location;

verus! {

/// Index of the first `'\n'` in `s`, or `s.len()` when there is none.
pub open spec fn first_newline(s: Seq<char>) -> int
    decreases s.len(),
{
    if s.len() == 0 {
        0
    } else if s[0] == '\n' {
        0
    } else {
        1 + first_newline(s.drop_first())
    }
}

/// `first_newline` is the least index holding `'\n'`, or the length.
pub proof fn lemma_first_newline_bounds(s: Seq<char>)
    ensures
        0 <= first_newline(s) <= s.len(),
        first_newline(s) < s.len() ==> s[first_newline(s)] == '\n',
        forall|j: int| 0 <= j < first_newline(s) ==> s[j] != '\n',
    decreases s.len(),
{
    if s.len() > 0 && s[0] != '\n' {
        lemma_first_newline_bounds(s.drop_first());
        assert forall|j: int| 0 <= j < first_newline(s) implies s[j] != '\n' by {
            if j > 0 {
                assert(s.drop_first()[j - 1] == s[j]);
            }
        }
    }
}

/// Any index with the least-`'\n'` characterization is `first_newline`.
pub proof fn lemma_first_newline_is(s: Seq<char>, i: int)
    requires
        0 <= i <= s.len(),
        i < s.len() ==> s[i] == '\n',
        forall|j: int| 0 <= j < i ==> s[j] != '\n',
    ensures
        first_newline(s) == i,
    decreases s.len(),
{
    if s.len() > 0 && s[0] != '\n' {
        assert(s[0] != '\n');
        assert(i > 0 || i == 0);
        if i == 0 {
            assert(i < s.len() ==> s[i] == '\n');
            assert(s.len() > 0);
            assert(false);
        }
        lemma_first_newline_is(s.drop_first(), i - 1);
    }
}

/// The records of `s` delimited by `'\n'`: a terminator ends its record,
/// so a trailing `'\n'` yields no extra empty record.
pub open spec fn split_lines(s: Seq<char>) -> Seq<Seq<char>>
    decreases s.len(),
{
    if s.len() == 0 {
        Seq::empty()
    } else {
        let i = first_newline(s);
        if 0 <= i < s.len() {
            seq![s.take(i)] + split_lines(s.skip(i + 1))
        } else {
            seq![s]
        }
    }
}

/// The records joined back with `'\n'` between them.
pub open spec fn join_lines(ls: Seq<Seq<char>>) -> Seq<char>
    decreases ls.len(),
{
    if ls.len() == 0 {
        Seq::empty()
    } else if ls.len() == 1 {
        ls[0]
    } else {
        join_lines(ls.drop_last()) + seq!['\n'] + ls.last()
    }
}

/// Joining distributes over prepending one record.
pub proof fn lemma_join_cons(a: Seq<char>, ls: Seq<Seq<char>>)
    ensures
        ls.len() == 0 ==> join_lines(seq![a] + ls) == a,
        ls.len() > 0 ==> join_lines(seq![a] + ls) == a + seq!['\n'] + join_lines(ls),
    decreases ls.len(),
{
    if ls.len() == 0 {
        assert(seq![a] + ls =~= seq![a]);
        assert(join_lines(seq![a]) == a);
    } else if ls.len() == 1 {
        assert((seq![a] + ls).drop_last() =~= seq![a]);
        assert((seq![a] + ls).last() == ls[0]);
        assert(join_lines(seq![a]) == a);
        assert(join_lines(seq![a] + ls) == a + seq!['\n'] + ls[0]);
        assert(a + seq!['\n'] + join_lines(ls) =~= a + seq!['\n'] + ls[0]);
    } else {
        lemma_join_cons(a, ls.drop_last());
        assert((seq![a] + ls).drop_last() =~= seq![a] + ls.drop_last());
        assert((seq![a] + ls).last() == ls.last());
        assert(join_lines(ls) == join_lines(ls.drop_last()) + seq!['\n'] + ls.last());
        assert(a + seq!['\n'] + join_lines(ls) =~= (a + seq!['\n'] + join_lines(ls.drop_last()))
            + seq!['\n'] + ls.last());
    }
}

/// Splitting then joining restores content that does not end in a
/// terminator (the one shape load/save cannot distinguish).
pub proof fn lemma_join_split_roundtrip(s: Seq<char>)
    requires
        s.len() == 0 || s.last() != '\n',
    ensures
        join_lines(split_lines(s)) == s,
    decreases s.len(),
{
    lemma_first_newline_bounds(s);
    if s.len() > 0 {
        let i = first_newline(s);
        if 0 <= i < s.len() {
            let t = s.skip(i + 1);
            assert(s[i] == '\n');
            assert(i < s.len() - 1) by {
                if i == s.len() - 1 {
                    assert(s.last() == '\n');
                }
            }
            assert(t.len() > 0);
            assert(t.last() == s.last());
            lemma_join_split_roundtrip(t);
            assert(split_lines(t).len() > 0) by {
                lemma_first_newline_bounds(t);
            }
            lemma_join_cons(s.take(i), split_lines(t));
            assert(s.take(i) + seq!['\n'] + t =~= s);
        }
    }
}

/// File identity: the path of the loaded or saved-as file, if any.
#[derive(Debug)]
pub struct FileInfo {
    pub file_name: Option<String>,
}

impl FileInfo {
    /// The file name as a character sequence, if a file is associated.
    pub open spec fn name_view(self) -> Option<Seq<char>> {
        match self.file_name {
            Some(n) => Some(n@),
            None => None,
        }
    }

    /// No file associated.
    pub fn new() -> (r: FileInfo)
        ensures
            r.name_view() is None,
    {
        FileInfo { file_name: None }
    }

    /// Whether a file is associated.
    pub fn has_path(&self) -> (r: bool)
        ensures
            r == (self.name_view() is Some),
    {
        self.file_name.is_some()
    }

    /// The display name: the file name, or a placeholder when none is
    /// associated.
    pub fn display_name(&self) -> (r: String)
        ensures
            self.name_view() is Some ==> r@ == self.name_view()->0,
            self.name_view() is None ==> r@ == "No Name"@,
    {
        match &self.file_name {
            Some(n) => n.clone(),
            None => String::from_str("No Name"),
        }
    }
}

/// What a save hands to the caller: the destination and the full content
/// to write.
pub struct SavePlan {
    pub file_name: String,
    pub content: Vec<char>,
}

/// The line texts after `insert_char(c, at)`.
pub open spec fn inserted_char_texts(b: Buffer, c: char, at: Location) -> Seq<Seq<char>> {
    let li = at.line_idx as int;
    let h = b.texts().len() as int;
    if li < h {
        b.texts().update(li, inserted_text(b.lines@[li], at.grapheme_idx as int, c))
    } else if li == h {
        b.texts().push(seq![c])
    } else {
        b.texts()
    }
}

/// The line texts after `insert_newline(at)`.
pub open spec fn newline_texts(b: Buffer, at: Location) -> Seq<Seq<char>> {
    let li = at.line_idx as int;
    let h = b.texts().len() as int;
    if li < h {
        let l = b.lines@[li];
        let p = l.char_start_of(at.grapheme_idx as int);
        b.texts().take(li) + seq![l.text().take(p), l.text().skip(p)] + b.texts().skip(li + 1)
    } else if li == h {
        b.texts().push(Seq::<char>::empty())
    } else {
        b.texts()
    }
}

/// The line texts after `delete(at)`.
pub open spec fn deleted_texts(b: Buffer, at: Location) -> Seq<Seq<char>> {
    let li = at.line_idx as int;
    let g = at.grapheme_idx as int;
    let h = b.texts().len() as int;
    if li < h && g < b.lines@[li].frags().len() {
        b.texts().update(li, removed_text(b.lines@[li], g))
    } else if li < h - 1 {
        let merged = b.texts()[li] + b.texts()[li + 1];
        b.texts().take(li) + seq![merged.take(min(merged.len() as int, MAX_LINE_CHARS as int))]
            + b.texts().skip(li + 2)
    } else {
        b.texts()
    }
}

/// Whether `delete(at)` changes the document: `at` names a cluster, or
/// sits at or past the end of a line that is not the last.
pub open spec fn delete_changes(b: Buffer, at: Location) -> bool {
    let li = at.line_idx as int;
    let g = at.grapheme_idx as int;
    let h = b.texts().len() as int;
    (li < h && g < b.lines@[li].frags().len()) || li < h - 1
}

/// Loading then saving round-trips: a document holding the split of
/// some content serializes back to that content exactly, for any
/// representable content (at most `MAX_LINE_CHARS` characters) with no
/// trailing terminator. This is `Buffer::load` composed with
/// `Buffer::save` through their contracts.
pub proof fn lemma_load_save_roundtrip(b: Buffer, content: Seq<char>)
    requires
        b.texts() == split_lines(content),
        content.len() <= MAX_LINE_CHARS,
        content.len() == 0 || content.last() != '\n',
    ensures
        join_lines(b.texts()) == content,
{
    lemma_join_split_roundtrip(content);
}

/// Deleting at or past the end of a line that is not the last merges
/// exactly the following line's content onto it: the line count drops by
/// one, the merged line is the concatenation of the two, and every other
/// line keeps its content and order. The merge is exact whenever the
/// combined length stays within `MAX_LINE_CHARS` (beyond that machine
/// limit `deleted_texts` truncates).
pub proof fn lemma_delete_merges_lines(b: Buffer, at: Location)
    requires
        b.wf(),
        at.line_idx + 1 < b.texts().len(),
        at.grapheme_idx >= b.lines@[at.line_idx as int].frags().len(),
        b.texts()[at.line_idx as int].len() + b.texts()[at.line_idx + 1].len()
            <= MAX_LINE_CHARS,
    ensures
        delete_changes(b, at),
        deleted_texts(b, at).len() == b.texts().len() - 1,
        deleted_texts(b, at)[at.line_idx as int] == b.texts()[at.line_idx as int] + b.texts()[
            at.line_idx + 1
        ],
        forall|k: int| 0 <= k < at.line_idx ==> #[trigger] deleted_texts(b, at)[k] == b.texts()[k],
        forall|k: int|
            at.line_idx < k < deleted_texts(b, at).len() ==> #[trigger] deleted_texts(b, at)[k]
                == b.texts()[k + 1],
{
    let li = at.line_idx as int;
    let merged = b.texts()[li] + b.texts()[li + 1];
    assert(merged.take(min(merged.len() as int, MAX_LINE_CHARS as int)) =~= merged);
    assert(deleted_texts(b, at) == b.texts().take(li) + seq![merged] + b.texts().skip(li + 2));
}

/// The leg of the forward wrap-around scan from `(sl, sc)` on which a
/// match at line `l`, character `i` is met: the start line from the
/// cursor on, then the lines after it, then — wrapping — the lines
/// before it, and last the start line before the cursor.
pub open spec fn fwd_phase(sl: int, sc: int, l: int, i: int) -> int {
    if l == sl && i >= sc {
        0int
    } else if l > sl {
        1int
    } else if l < sl {
        2int
    } else {
        3int
    }
}

/// `(l1, i1)` comes no later than `(l2, i2)` in the forward wrap-around
/// scan from `(sl, sc)`.
pub open spec fn fwd_no_later(sl: int, sc: int, l1: int, i1: int, l2: int, i2: int) -> bool {
    let p1 = fwd_phase(sl, sc, l1, i1);
    let p2 = fwd_phase(sl, sc, l2, i2);
    p1 < p2 || (p1 == p2 && (l1 < l2 || (l1 == l2 && i1 <= i2)))
}

/// The leg of the backward wrap-around scan from `(sl, sc)` on which a
/// match of a query of length `qlen` at line `l`, character `i` is met:
/// the start line's matches lying wholly before the cursor, then the
/// lines before it, then — wrapping — the lines after it, and last the
/// start line's matches at or past the cursor.
pub open spec fn bwd_phase(sl: int, sc: int, qlen: int, l: int, i: int) -> int {
    if l == sl && i + qlen <= sc {
        0int
    } else if l < sl {
        1int
    } else if l > sl {
        2int
    } else {
        3int
    }
}

/// `(l1, i1)` comes no later than `(l2, i2)` in the backward wrap-around
/// scan from `(sl, sc)`: later lines and later offsets are met first.
pub open spec fn bwd_no_later(sl: int, sc: int, qlen: int, l1: int, i1: int, l2: int, i2: int) -> bool {
    let p1 = bwd_phase(sl, sc, qlen, l1, i1);
    let p2 = bwd_phase(sl, sc, qlen, l2, i2);
    p1 < p2 || (p1 == p2 && (l1 > l2 || (l1 == l2 && i1 >= i2)))
}

/// The document held in memory.
pub struct Buffer {
    /// The lines, in document order.
    pub lines: Vec<Line>,
    /// The associated file, if any.
    pub file_info: FileInfo,
    /// Whether content differs from the last successful save.
    pub dirty: bool,
}

impl Buffer {
    /// The content model: one character sequence per line.
    pub open spec fn texts(self) -> Seq<Seq<char>> {
        self.lines@.map_values(|l: Line| l.text())
    }

    /// Every line is well-formed.
    pub open spec fn wf(self) -> bool {
        forall|k: int| 0 <= k < self.lines@.len() ==> (#[trigger] self.lines@[k]).wf()
    }

    /// An empty document with no file association.
    pub fn new() -> (r: Buffer)
        ensures
            r.wf(),
            r.texts() == Seq::<Seq<char>>::empty(),
            r.file_info.name_view() is None,
            !r.dirty,
    {
        let r = Buffer { lines: Vec::new(), file_info: FileInfo::new(), dirty: false };
        proof {
            assert(r.texts() =~= Seq::<Seq<char>>::empty());
        }
        r
    }

    /// Number of lines.
    pub fn height(&self) -> (r: usize)
        ensures
            r == self.texts().len(),
    {
        self.lines.len()
    }

    /// Whether the document shows as empty: no lines at all, or a single
    /// empty line with no file loaded.
    pub open spec fn is_empty_spec(self) -> bool {
        self.texts().len() == 0 || (self.texts().len() == 1 && self.texts()[0].len() == 0
            && self.file_info.name_view() is None)
    }

    /// Executable form of `is_empty_spec`.
    pub fn is_empty(&self) -> (r: bool)
        requires
            self.wf(),
        ensures
            r == self.is_empty_spec(),
    {
        if self.lines.len() == 0 {
            true
        } else if self.lines.len() == 1 {
            let empty_line = self.lines[0].grapheme_count() == 0;
            proof {
                assert(self.lines@[0].wf());
                if self.lines@[0].frags().len() == 0 {
                    assert(self.lines@[0].text().len() == 0);
                } else {
                    assert(crate::line::frag_ok(self.lines@[0].frags(), self.lines@[0].text(), 0));
                }
            }
            empty_line && !self.file_info.has_path()
        } else {
            false
        }
    }

    /// Whether a file is associated with the document.
    pub fn is_file_loaded(&self) -> (r: bool)
        ensures
            r == (self.file_info.name_view() is Some),
    {
        self.file_info.has_path()
    }

    /// Builds a document from a file's decoded content, splitting it into
    /// lines at `'\n'` terminators, recording the file identity, and
    /// starting clean.
    pub fn load(file_name: &str, content: &str) -> (b: Buffer)
        ensures
            b.wf(),
            content@.len() <= MAX_LINE_CHARS ==> b.texts() == split_lines(content@),
            b.file_info.name_view() == Some(file_name@),
            !b.dirty,
    {
        let cs = chars_of(content);
        let n = cs.len();
        let mut lines: Vec<Line> = Vec::new();
        let mut pos: usize = 0;
        proof {
            assert(cs@.skip(0) =~= cs@);
            assert(lines@.map_values(|l: Line| l.text()) + split_lines(cs@) =~= split_lines(cs@));
        }
        while pos < n
            invariant
                cs@ == content@,
                n == cs@.len(),
                pos <= n,
                forall|k: int| 0 <= k < lines@.len() ==> (#[trigger] lines@[k]).wf(),
                n <= MAX_LINE_CHARS ==> lines@.map_values(|l: Line| l.text()) + split_lines(
                    cs@.skip(pos as int),
                ) == split_lines(cs@),
                pos > 0 ==> (pos == n || cs@[pos - 1] == '\n'),
                pos == 0 ==> lines@.len() == 0,
            decreases n - pos,
        {
            let mut i = pos;
            while i < n && cs[i] != '\n'
                invariant
                    n == cs@.len(),
                    pos <= i <= n,
                    forall|j: int| pos <= j < i ==> cs@[j] != '\n',
                decreases n - i,
            {
                i = i + 1;
            }
            let record = copy_range(&cs, pos, i);
            let line = Line::from_chars(record);
            let ghost old_lines = lines@;
            lines.push(line);
            let ghost tail = cs@.skip(pos as int);
            proof {
                lemma_first_newline_is(tail, i - pos);
                assert(lines@.map_values(|l: Line| l.text()) =~= old_lines.map_values(
                    |l: Line| l.text(),
                ).push(line.text()));
                if n <= MAX_LINE_CHARS {
                    assert(tail.take(i - pos) =~= cs@.subrange(pos as int, i as int));
                    if i < n {
                        assert(tail.skip(i - pos + 1) =~= cs@.skip(i + 1));
                        assert(split_lines(tail) == seq![cs@.subrange(pos as int, i as int)]
                            + split_lines(cs@.skip(i + 1)));
                        assert(old_lines.map_values(|l: Line| l.text()).push(line.text())
                            + split_lines(cs@.skip(i + 1)) =~= old_lines.map_values(
                            |l: Line| l.text(),
                        ) + split_lines(tail));
                    } else {
                        assert(tail =~= cs@.subrange(pos as int, i as int));
                        assert(split_lines(tail) == seq![cs@.subrange(pos as int, i as int)]);
                        assert(cs@.skip(n as int) =~= Seq::<char>::empty());
                        assert(old_lines.map_values(|l: Line| l.text()).push(line.text())
                            + split_lines(cs@.skip(n as int)) =~= old_lines.map_values(
                            |l: Line| l.text(),
                        ) + split_lines(tail));
                    }
                }
            }
            if i < n {
                pos = i + 1;
            } else {
                pos = i;
            }
        }
        proof {
            assert(cs@.skip(n as int) =~= Seq::<char>::empty());
            if n == 0 {
                assert(split_lines(cs@) =~= Seq::<Seq<char>>::empty());
            }
        }
        let b = Buffer {
            lines,
            file_info: FileInfo { file_name: Some(String::from_str(file_name)) },
            dirty: false,
        };
        proof {
            if content@.len() <= MAX_LINE_CHARS {
                assert(b.texts() =~= split_lines(content@));
            }
        }
        b
    }

    /// The whole document serialized: the lines joined with `'\n'`.
    pub fn joined_content(&self) -> (r: Vec<char>)
        requires
            self.wf(),
        ensures
            r@ == join_lines(self.texts()),
    {
        let mut r: Vec<char> = Vec::new();
        let mut i: usize = 0;
        let n = self.lines.len();
        while i < n
            invariant
                self.wf(),
                n == self.lines@.len(),
                i <= n,
                r@ == join_lines(self.texts().take(i as int)),
            decreases n - i,
        {
            if i > 0 {
                r.push('\n');
            }
            let mut piece = copy_range(&self.lines[i].chars, 0, self.lines[i].chars.len());
            r.append(&mut piece);
            proof {
                assert(self.lines@[i as int].chars@.subrange(
                    0,
                    self.lines@[i as int].chars@.len() as int,
                ) =~= self.lines@[i as int].text());
                assert(self.texts()[i as int] == self.lines@[i as int].text());
                assert(self.texts().take(i + 1).drop_last() =~= self.texts().take(i as int));
                assert(self.texts().take(i + 1).last() == self.texts()[i as int]);
            }
            i = i + 1;
        }
        proof {
            assert(self.texts().take(n as int) =~= self.texts());
        }
        r
    }

    /// The save handoff: the destination and serialized content, owed
    /// exactly when a file is associated; `None` means no destination is
    /// known. The dirty flag is untouched until the caller confirms the
    /// write with `mark_saved`.
    pub fn save(&self) -> (r: Option<SavePlan>)
        requires
            self.wf(),
        ensures
            match r {
                Some(plan) => {
                    &&& self.file_info.name_view() == Some(plan.file_name@)
                    &&& plan.content@ == join_lines(self.texts())
                },
                None => self.file_info.name_view() is None,
            },
    {
        match &self.file_info.file_name {
            Some(n) => {
                let name = n.clone();
                Some(SavePlan { file_name: name, content: self.joined_content() })
            },
            None => None,
        }
    }

    /// The save handoff toward a new destination, which becomes the
    /// document's file identity.
    pub fn save_as(&mut self, file_name: &str) -> (r: SavePlan)
        requires
            old(self).wf(),
        ensures
            final(self).wf(),
            final(self).texts() == old(self).texts(),
            final(self).dirty == old(self).dirty,
            final(self).file_info.name_view() == Some(file_name@),
            r.file_name@ == file_name@,
            r.content@ == join_lines(final(self).texts()),
    {
        self.file_info = FileInfo { file_name: Some(String::from_str(file_name)) };
        SavePlan { file_name: String::from_str(file_name), content: self.joined_content() }
    }

    /// Records that the handed-out content reached its destination: the
    /// document is clean again.
    pub fn mark_saved(&mut self)
        ensures
            final(self).lines == old(self).lines,
            final(self).file_info == old(self).file_info,
            !final(self).dirty,
    {
        self.dirty = false;
    }

    /// Inserts `character` into the line at `at.line_idx` at the start of
    /// cluster `at.grapheme_idx` (clamped to the line's end). A location
    /// one past the last line appends a new line holding the character; a
    /// location further out is a no-op. Any change marks the document
    /// dirty.
    pub fn insert_char(&mut self, character: char, at: Location)
        requires
            old(self).wf(),
        ensures
            final(self).wf(),
            final(self).file_info == old(self).file_info,
            final(self).texts() == inserted_char_texts(*old(self), character, at),
            final(self).dirty == (old(self).dirty || at.line_idx <= old(self).texts().len()),
    {
        let h = self.lines.len();
        if at.line_idx < h {
            let ghost old_lines = self.lines@;
            let mut line = self.lines.remove(at.line_idx);
            line.insert(at.grapheme_idx, character);
            self.lines.insert(at.line_idx, line);
            self.dirty = true;
            proof {
                assert(self.lines@ =~= old_lines.update(at.line_idx as int, line));
                assert(self.texts() =~= old(self).texts().update(
                    at.line_idx as int,
                    line.text(),
                ));
            }
        } else if at.line_idx == h {
            let mut cs: Vec<char> = Vec::new();
            cs.push(character);
            let line = Line::from_chars(cs);
            self.lines.push(line);
            self.dirty = true;
            proof {
                assert(line.text() =~= seq![character]);
                assert(self.texts() =~= old(self).texts().push(seq![character]));
            }
        }
    }

    /// Splits the line at `at.line_idx` into two at the start of cluster
    /// `at.grapheme_idx`, keeping every other line in order. A location
    /// one past the last line appends an empty line; a location further
    /// out is a no-op. Any change marks the document dirty.
    pub fn insert_newline(&mut self, at: Location)
        requires
            old(self).wf(),
        ensures
            final(self).wf(),
            final(self).file_info == old(self).file_info,
            final(self).texts() == newline_texts(*old(self), at),
            final(self).dirty == (old(self).dirty || at.line_idx <= old(self).texts().len()),
    {
        let h = self.lines.len();
        if at.line_idx < h {
            let ghost old_lines = self.lines@;
            let line = self.lines.remove(at.line_idx);
            let p = line.char_start(at.grapheme_idx);
            let mut cs = line.chars;
            let right_cs = cs.split_off(p);
            let left_line = Line::from_chars(cs);
            let right_line = Line::from_chars(right_cs);
            self.lines.insert(at.line_idx, right_line);
            self.lines.insert(at.line_idx, left_line);
            self.dirty = true;
            proof {
                let l = old_lines[at.line_idx as int];
                let pp = l.char_start_of(at.grapheme_idx as int);
                assert(left_line.text() =~= l.text().take(pp));
                assert(right_line.text() =~= l.text().skip(pp));
                assert(self.lines@ =~= old_lines.take(at.line_idx as int) + seq![
                    left_line,
                    right_line,
                ] + old_lines.skip(at.line_idx + 1));
                assert(self.texts() =~= old(self).texts().take(at.line_idx as int) + seq![
                    l.text().take(pp),
                    l.text().skip(pp),
                ] + old(self).texts().skip(at.line_idx + 1));
            }
        } else if at.line_idx == h {
            self.lines.push(Line::new());
            proof {
                assert(self.texts() =~= old(self).texts().push(Seq::<char>::empty()));
            }
            self.dirty = true;
        }
    }

    /// Removes the cluster at `at` when it names one; at or past the end
    /// of a line that is not the last, merges the following line onto it
    /// instead (truncated only in the unreachable case that the merge
    /// exceeds `MAX_LINE_CHARS`). At the true end of the document, and at
    /// any location past it, this is a no-op. Any change marks the
    /// document dirty.
    pub fn delete(&mut self, at: Location)
        requires
            old(self).wf(),
        ensures
            final(self).wf(),
            final(self).file_info == old(self).file_info,
            final(self).texts() == deleted_texts(*old(self), at),
            final(self).dirty == (old(self).dirty || delete_changes(*old(self), at)),
    {
        let h = self.lines.len();
        if at.line_idx >= h {
            return ;
        }
        let count = self.lines[at.line_idx].grapheme_count();
        if at.grapheme_idx < count {
            let ghost old_lines = self.lines@;
            let mut line = self.lines.remove(at.line_idx);
            line.remove(at.grapheme_idx);
            self.lines.insert(at.line_idx, line);
            self.dirty = true;
            proof {
                assert(self.lines@ =~= old_lines.update(at.line_idx as int, line));
                assert(self.texts() =~= old(self).texts().update(
                    at.line_idx as int,
                    line.text(),
                ));
            }
        } else if at.line_idx + 1 < h {
            let ghost old_lines = self.lines@;
            let next = self.lines.remove(at.line_idx + 1);
            let line = self.lines.remove(at.line_idx);
            let mut cs = line.chars;
            let mut nc = next.chars;
            cs.append(&mut nc);
            let merged_line = Line::from_chars(cs);
            self.lines.insert(at.line_idx, merged_line);
            self.dirty = true;
            proof {
                let li = at.line_idx as int;
                assert(old_lines.remove(li + 1).remove(li) =~= old_lines.take(li)
                    + old_lines.skip(li + 2));
                assert(self.lines@ =~= old_lines.take(li) + seq![merged_line] + old_lines.skip(
                    li + 2,
                ));
                assert(self.texts() =~= old(self).texts().take(li) + seq![merged_line.text()]
                    + old(self).texts().skip(li + 2));
            }
        }
    }

    /// Whether `q` occurs at character index `i` of line `l`.
    pub open spec fn match_in_doc(self, q: Seq<char>, l: int, i: int) -> bool {
        &&& 0 <= l < self.texts().len()
        &&& is_occurrence_at(self.texts()[l], q, i)
    }

    /// No occurrence of `q` anywhere in line `l`.
    pub open spec fn line_clean(self, q: Seq<char>, l: int) -> bool {
        forall|i: int| !is_occurrence_at(self.texts()[l], q, i)
    }

    /// The line at which a search from `from` starts scanning: the
    /// cursor's line, clamped onto the last line when the cursor sits
    /// past it. Meaningful only for a non-empty document.
    pub open spec fn scan_start_line(self, from: Location) -> int {
        if (from.line_idx as int) < self.texts().len() {
            from.line_idx as int
        } else {
            self.texts().len() - 1
        }
    }

    /// The character index at which a search from `from` starts scanning
    /// within the start line: the cursor cluster's first character, or
    /// the line's end when the cursor sits past the document.
    pub open spec fn scan_start_char(self, from: Location) -> int {
        if (from.line_idx as int) < self.texts().len() {
            self.lines@[from.line_idx as int].char_start_of(from.grapheme_idx as int)
        } else {
            self.texts()[self.texts().len() - 1].len() as int
        }
    }

    /// `loc` names the first cluster of an occurrence of `q`: some match
    /// of `q` starts at a character spanned by cluster `loc.grapheme_idx`
    /// of line `loc.line_idx`.
    pub open spec fn found_location(self, q: Seq<char>, loc: Location) -> bool {
        exists|i: int|
            #[trigger] self.match_in_doc(q, loc.line_idx as int, i) && cluster_contains(
                self.lines@[loc.line_idx as int].frags(),
                loc.grapheme_idx as int,
                i,
            )
    }

    /// A found location certifies that a match exists somewhere.
    pub proof fn lemma_found_is_match(self, q: Seq<char>, loc: Location)
        requires
            self.found_location(q, loc),
        ensures
            exists|l: int, i: int| self.match_in_doc(q, l, i),
    {
        let i0 = choose|i: int|
            #[trigger] self.match_in_doc(q, loc.line_idx as int, i) && cluster_contains(
                self.lines@[loc.line_idx as int].frags(),
                loc.grapheme_idx as int,
                i,
            );
        assert(self.match_in_doc(q, loc.line_idx as int, i0));
    }

    /// `loc` names the first cluster of the first occurrence of `q` in
    /// the forward wrap-around scan order from `(sl, sc)`: the match it
    /// names comes no later in that order than any other match.
    pub open spec fn first_match_forward(self, q: Seq<char>, sl: int, sc: int, loc: Location) -> bool {
        exists|i: int|
            #[trigger] self.match_in_doc(q, loc.line_idx as int, i) && cluster_contains(
                self.lines@[loc.line_idx as int].frags(),
                loc.grapheme_idx as int,
                i,
            ) && (forall|l2: int, i2: int|
                self.match_in_doc(q, l2, i2) ==> fwd_no_later(
                    sl,
                    sc,
                    loc.line_idx as int,
                    i,
                    l2,
                    i2,
                ))
    }

    /// `loc` names the first cluster of the first occurrence of `q` in
    /// the backward wrap-around scan order from `(sl, sc)`.
    pub open spec fn first_match_backward(self, q: Seq<char>, sl: int, sc: int, loc: Location) -> bool {
        exists|i: int|
            #[trigger] self.match_in_doc(q, loc.line_idx as int, i) && cluster_contains(
                self.lines@[loc.line_idx as int].frags(),
                loc.grapheme_idx as int,
                i,
            ) && (forall|l2: int, i2: int|
                self.match_in_doc(q, l2, i2) ==> bwd_no_later(
                    sl,
                    sc,
                    q.len() as int,
                    loc.line_idx as int,
                    i,
                    l2,
                    i2,
                ))
    }

    /// Reversing a search never loses the occurrence: a backward search
    /// fed the location a forward search just found cannot come back
    /// empty, and what it returns is itself a genuine occurrence. The
    /// first requires-clause is what `search_forward` ensures of a found
    /// location; the second is what `search_backward` ensures of any
    /// result.
    pub proof fn lemma_search_reversal(self, q: Seq<char>, fwd: Location, bwd: Option<Location>)
        requires
            self.found_location(q, fwd),
            match bwd {
                Some(loc) => self.found_location(q, loc),
                None => forall|l: int, i: int| !self.match_in_doc(q, l, i),
            },
        ensures
            bwd is Some,
            self.found_location(q, bwd->0),
    {
        self.lemma_found_is_match(q, fwd);
    }

    /// A location naming the cluster of line `l` that spans character
    /// index `i`.
    fn location_at(&self, l: usize, i: usize) -> (loc: Location)
        requires
            self.wf(),
            l < self.texts().len(),
            i < self.texts()[l as int].len(),
        ensures
            loc.line_idx == l,
            cluster_contains(self.lines@[l as int].frags(), loc.grapheme_idx as int, i as int),
            self.texts()[l as int] == self.lines@[l as int].text(),
    {
        proof {
            assert(self.lines@[l as int].wf());
        }
        let g = self.lines[l].grapheme_at_char(i);
        Location { grapheme_idx: g, line_idx: l }
    }

    /// Scans for `query` from `from` through increasing (line, offset)
    /// order, wrapping past the end back to the document start; returns
    /// the location of the first match met in that order (the match's
    /// first cluster), and `None` exactly when the query is empty or
    /// occurs nowhere.
    pub fn search_forward(&self, query: &Line, from: Location) -> (r: Option<Location>)
        requires
            self.wf(),
            query.wf(),
        ensures
            match r {
                Some(loc) => self.found_location(query.text(), loc)
                    && self.first_match_forward(
                    query.text(),
                    self.scan_start_line(from),
                    self.scan_start_char(from),
                    loc,
                ),
                None => forall|l: int, i: int| !self.match_in_doc(query.text(), l, i),
            },
    {
        let ghost qt = query.text();
        let h = self.lines.len();
        if query.chars.len() == 0 || h == 0 {
            return None;
        }
        let sl = if from.line_idx < h {
            from.line_idx
        } else {
            h - 1
        };
        // The starting line, from the cursor's cluster on.
        let start_char = if from.line_idx < h {
            self.lines[sl].char_start(from.grapheme_idx)
        } else {
            self.lines[sl].chars.len()
        };
        let ghost ssl = sl as int;
        let ghost ssc = start_char as int;
        proof {
            assert(self.lines@[sl as int].wf());
            assert(self.texts()[sl as int] == self.lines@[sl as int].text());
            assert(self.scan_start_line(from) == ssl);
            assert(self.scan_start_char(from) == ssc);
        }
        if let Some(i) = find_from(&self.lines[sl].chars, &query.chars, start_char) {
            let loc = self.location_at(sl, i);
            proof {
                assert(self.match_in_doc(qt, loc.line_idx as int, i as int));
                assert(cluster_contains(
                    self.lines@[loc.line_idx as int].frags(),
                    loc.grapheme_idx as int,
                    i as int,
                ));
                assert(self.found_location(qt, loc));
                assert forall|l2: int, i2: int| self.match_in_doc(qt, l2, i2) implies fwd_no_later(
                    ssl,
                    ssc,
                    loc.line_idx as int,
                    i as int,
                    l2,
                    i2,
                ) by {
                    if l2 == ssl && i2 >= ssc && i2 < i {
                        assert(!is_occurrence_at(self.lines@[sl as int].text(), qt, i2));
                    }
                }
                assert(self.first_match_forward(qt, ssl, ssc, loc));
            }
            return Some(loc);
        }
        proof {
            assert forall|j: int| j >= ssc implies !is_occurrence_at(self.texts()[ssl], qt, j) by {
                if j >= ssc {
                    assert(!is_occurrence_at(self.lines@[sl as int].text(), qt, j));
                }
            }
        }
        // The lines after the starting line.
        let mut l = sl + 1;
        while l < h
            invariant
                self.wf(),
                query.wf(),
                qt == query.text(),
                qt.len() > 0,
                h == self.texts().len(),
                ssl == sl as int,
                ssc == start_char as int,
                self.scan_start_line(from) == ssl,
                self.scan_start_char(from) == ssc,
                sl < l <= h,
                forall|j: int| j >= ssc ==> !is_occurrence_at(self.texts()[ssl], qt, j),
                forall|l2: int| sl < l2 < l ==> self.line_clean(qt, l2),
            decreases h - l,
        {
            proof {
                assert(self.lines@[l as int].wf());
            }
            if let Some(i) = find_from(&self.lines[l].chars, &query.chars, 0) {
                let loc = self.location_at(l, i);
                proof {
                    assert(self.match_in_doc(qt, loc.line_idx as int, i as int));
                    assert(cluster_contains(
                        self.lines@[loc.line_idx as int].frags(),
                        loc.grapheme_idx as int,
                        i as int,
                    ));
                    assert(self.found_location(qt, loc));
                    assert forall|l2: int, i2: int|
                        self.match_in_doc(qt, l2, i2) implies fwd_no_later(
                        ssl,
                        ssc,
                        loc.line_idx as int,
                        i as int,
                        l2,
                        i2,
                    ) by {
                        if l2 == l as int && i2 < i {
                            assert(!is_occurrence_at(self.lines@[l as int].text(), qt, i2));
                        }
                        if sl < l2 < l as int {
                            assert(self.line_clean(qt, l2));
                            assert(!is_occurrence_at(self.texts()[l2], qt, i2));
                        }
                    }
                    assert(self.first_match_forward(qt, ssl, ssc, loc));
                }
                return Some(loc);
            }
            l = l + 1;
        }
        // Wrap around: the lines before the starting line.
        let mut l2: usize = 0;
        while l2 < sl
            invariant
                self.wf(),
                query.wf(),
                qt == query.text(),
                qt.len() > 0,
                h == self.texts().len(),
                ssl == sl as int,
                ssc == start_char as int,
                self.scan_start_line(from) == ssl,
                self.scan_start_char(from) == ssc,
                sl < h,
                l2 <= sl,
                forall|j: int| j >= ssc ==> !is_occurrence_at(self.texts()[ssl], qt, j),
                forall|l3: int| sl < l3 < h ==> self.line_clean(qt, l3),
                forall|l3: int| 0 <= l3 < l2 ==> self.line_clean(qt, l3),
            decreases sl - l2,
        {
            proof {
                assert(self.lines@[l2 as int].wf());
            }
            if let Some(i) = find_from(&self.lines[l2].chars, &query.chars, 0) {
                let loc = self.location_at(l2, i);
                proof {
                    assert(self.match_in_doc(qt, loc.line_idx as int, i as int));
                    assert(cluster_contains(
                        self.lines@[loc.line_idx as int].frags(),
                        loc.grapheme_idx as int,
                        i as int,
                    ));
                    assert(self.found_location(qt, loc));
                    assert forall|l3: int, i2: int|
                        self.match_in_doc(qt, l3, i2) implies fwd_no_later(
                        ssl,
                        ssc,
                        loc.line_idx as int,
                        i as int,
                        l3,
                        i2,
                    ) by {
                        if l3 == l2 as int && i2 < i {
                            assert(!is_occurrence_at(self.lines@[l2 as int].text(), qt, i2));
                        }
                        if 0 <= l3 < l2 as int || sl < l3 < h {
                            assert(self.line_clean(qt, l3));
                            assert(!is_occurrence_at(self.texts()[l3], qt, i2));
                        }
                    }
                    assert(self.first_match_forward(qt, ssl, ssc, loc));
                }
                return Some(loc);
            }
            l2 = l2 + 1;
        }
        // Finally the whole starting line, to catch matches before the
        // cursor.
        if let Some(i) = find_from(&self.lines[sl].chars, &query.chars, 0) {
            let loc = self.location_at(sl, i);
            proof {
                assert(self.match_in_doc(qt, loc.line_idx as int, i as int));
                assert(cluster_contains(
                    self.lines@[loc.line_idx as int].frags(),
                    loc.grapheme_idx as int,
                    i as int,
                ));
                assert(self.found_location(qt, loc));
                assert(i < ssc) by {
                    if i >= ssc {
                        assert(!is_occurrence_at(self.texts()[ssl], qt, i as int));
                    }
                }
                assert forall|l3: int, i2: int| self.match_in_doc(qt, l3, i2) implies fwd_no_later(
                    ssl,
                    ssc,
                    loc.line_idx as int,
                    i as int,
                    l3,
                    i2,
                ) by {
                    if l3 == ssl && i2 < i {
                        assert(!is_occurrence_at(self.lines@[sl as int].text(), qt, i2));
                    }
                    if 0 <= l3 < h && l3 != ssl {
                        assert(self.line_clean(qt, l3));
                        assert(!is_occurrence_at(self.texts()[l3], qt, i2));
                    }
                }
                assert(self.first_match_forward(qt, ssl, ssc, loc));
            }
            return Some(loc);
        }
        proof {
            assert(self.texts()[sl as int] == self.lines@[sl as int].text());
            assert(self.line_clean(qt, sl as int));
            assert forall|l: int, i: int| !self.match_in_doc(qt, l, i) by {
                if 0 <= l < self.texts().len() {
                    assert(self.line_clean(qt, l));
                    assert(!is_occurrence_at(self.texts()[l], qt, i));
                }
            }
        }
        None
    }

    /// Scans for `query` from `from` through decreasing (line, offset)
    /// order — a match must lie wholly before the cursor's cluster —
    /// wrapping past the start back to the document end; returns the
    /// location of the first match met in that order (the match's first
    /// cluster), and `None` exactly when the query is empty or occurs
    /// nowhere.
    pub fn search_backward(&self, query: &Line, from: Location) -> (r: Option<Location>)
        requires
            self.wf(),
            query.wf(),
        ensures
            match r {
                Some(loc) => self.found_location(query.text(), loc)
                    && self.first_match_backward(
                    query.text(),
                    self.scan_start_line(from),
                    self.scan_start_char(from),
                    loc,
                ),
                None => forall|l: int, i: int| !self.match_in_doc(query.text(), l, i),
            },
    {
        let ghost qt = query.text();
        let h = self.lines.len();
        if query.chars.len() == 0 || h == 0 {
            return None;
        }
        let qlen = query.chars.len();
        let sl = if from.line_idx < h {
            from.line_idx
        } else {
            h - 1
        };
        let before = if from.line_idx < h {
            self.lines[sl].char_start(from.grapheme_idx)
        } else {
            self.lines[sl].chars.len()
        };
        let ghost ssl = sl as int;
        let ghost ssc = before as int;
        proof {
            assert(self.lines@[sl as int].wf());
            assert(self.texts()[sl as int] == self.lines@[sl as int].text());
            assert(self.scan_start_line(from) == ssl);
            assert(self.scan_start_char(from) == ssc);
        }
        if let Some(i) = find_last_before(&self.lines[sl].chars, &query.chars, before) {
            let loc = self.location_at(sl, i);
            proof {
                assert(self.match_in_doc(qt, loc.line_idx as int, i as int));
                assert(cluster_contains(
                    self.lines@[loc.line_idx as int].frags(),
                    loc.grapheme_idx as int,
                    i as int,
                ));
                assert(self.found_location(qt, loc));
                assert forall|l2: int, i2: int| self.match_in_doc(qt, l2, i2) implies bwd_no_later(
                    ssl,
                    ssc,
                    qt.len() as int,
                    loc.line_idx as int,
                    i as int,
                    l2,
                    i2,
                ) by {
                    if l2 == ssl && i2 + qt.len() <= ssc && i2 > i {
                        assert(!is_occurrence_at(self.lines@[sl as int].text(), qt, i2));
                    }
                }
                assert(self.first_match_backward(qt, ssl, ssc, loc));
            }
            return Some(loc);
        }
        proof {
            assert forall|j: int|
                j + qt.len() <= ssc implies !is_occurrence_at(self.texts()[ssl], qt, j) by {
                if j + qt.len() <= ssc {
                    assert(!is_occurrence_at(self.lines@[sl as int].text(), qt, j));
                }
            }
        }
        // The lines before the starting line, nearest first.
        let mut l = sl;
        while l > 0
            invariant
                self.wf(),
                query.wf(),
                qt == query.text(),
                qt.len() > 0,
                h == self.texts().len(),
                ssl == sl as int,
                ssc == before as int,
                self.scan_start_line(from) == ssl,
                self.scan_start_char(from) == ssc,
                l <= sl < h,
                forall|j: int| j + qt.len() <= ssc ==> !is_occurrence_at(self.texts()[ssl], qt, j),
                forall|l2: int| l <= l2 < sl ==> self.line_clean(qt, l2),
            decreases l,
        {
            l = l - 1;
            proof {
                assert(self.lines@[l as int].wf());
            }
            let n = self.lines[l].chars.len();
            if let Some(i) = find_last_before(&self.lines[l].chars, &query.chars, n) {
                let loc = self.location_at(l, i);
                proof {
                    assert(self.match_in_doc(qt, loc.line_idx as int, i as int));
                    assert(cluster_contains(
                        self.lines@[loc.line_idx as int].frags(),
                        loc.grapheme_idx as int,
                        i as int,
                    ));
                    assert(self.found_location(qt, loc));
                    assert forall|l2: int, i2: int|
                        self.match_in_doc(qt, l2, i2) implies bwd_no_later(
                        ssl,
                        ssc,
                        qt.len() as int,
                        loc.line_idx as int,
                        i as int,
                        l2,
                        i2,
                    ) by {
                        if l2 == l as int && i2 > i {
                            assert(!is_occurrence_at(self.lines@[l as int].text(), qt, i2));
                        }
                        if (l as int) < l2 && l2 < sl as int {
                            assert(self.line_clean(qt, l2));
                            assert(!is_occurrence_at(self.texts()[l2], qt, i2));
                        }
                    }
                    assert(self.first_match_backward(qt, ssl, ssc, loc));
                }
                return Some(loc);
            }
        }
        // Wrap around: the lines after the starting line, last first.
        let mut l2 = h;
        while l2 > sl + 1
            invariant
                self.wf(),
                query.wf(),
                qt == query.text(),
                qt.len() > 0,
                h == self.texts().len(),
                ssl == sl as int,
                ssc == before as int,
                self.scan_start_line(from) == ssl,
                self.scan_start_char(from) == ssc,
                sl < l2 <= h,
                forall|j: int| j + qt.len() <= ssc ==> !is_occurrence_at(self.texts()[ssl], qt, j),
                forall|l3: int| 0 <= l3 < sl ==> self.line_clean(qt, l3),
                forall|l3: int| l2 <= l3 < h ==> self.line_clean(qt, l3),
            decreases l2,
        {
            l2 = l2 - 1;
            proof {
                assert(self.lines@[l2 as int].wf());
            }
            let n = self.lines[l2].chars.len();
            if let Some(i) = find_last_before(&self.lines[l2].chars, &query.chars, n) {
                let loc = self.location_at(l2, i);
                proof {
                    assert(self.match_in_doc(qt, loc.line_idx as int, i as int));
                    assert(cluster_contains(
                        self.lines@[loc.line_idx as int].frags(),
                        loc.grapheme_idx as int,
                        i as int,
                    ));
                    assert(self.found_location(qt, loc));
                    assert forall|l3: int, i2: int|
                        self.match_in_doc(qt, l3, i2) implies bwd_no_later(
                        ssl,
                        ssc,
                        qt.len() as int,
                        loc.line_idx as int,
                        i as int,
                        l3,
                        i2,
                    ) by {
                        if l3 == l2 as int && i2 > i {
                            assert(!is_occurrence_at(self.lines@[l2 as int].text(), qt, i2));
                        }
                        if 0 <= l3 < sl as int || ((l2 as int) < l3 && l3 < h) {
                            assert(self.line_clean(qt, l3));
                            assert(!is_occurrence_at(self.texts()[l3], qt, i2));
                        }
                    }
                    assert(self.first_match_backward(qt, ssl, ssc, loc));
                }
                return Some(loc);
            }
        }
        // Finally the whole starting line, to catch matches at or after
        // the cursor.
        let n = self.lines[sl].chars.len();
        if let Some(i) = find_last_before(&self.lines[sl].chars, &query.chars, n) {
            let loc = self.location_at(sl, i);
            proof {
                assert(self.match_in_doc(qt, loc.line_idx as int, i as int));
                assert(cluster_contains(
                    self.lines@[loc.line_idx as int].frags(),
                    loc.grapheme_idx as int,
                    i as int,
                ));
                assert(self.found_location(qt, loc));
                assert(i + qt.len() > ssc) by {
                    if i + qt.len() <= ssc {
                        assert(!is_occurrence_at(self.texts()[ssl], qt, i as int));
                    }
                }
                assert forall|l3: int, i2: int| self.match_in_doc(qt, l3, i2) implies bwd_no_later(
                    ssl,
                    ssc,
                    qt.len() as int,
                    loc.line_idx as int,
                    i as int,
                    l3,
                    i2,
                ) by {
                    if l3 == ssl && i2 > i {
                        assert(!is_occurrence_at(self.lines@[sl as int].text(), qt, i2));
                    }
                    if 0 <= l3 < h && l3 != ssl {
                        assert(self.line_clean(qt, l3));
                        assert(!is_occurrence_at(self.texts()[l3], qt, i2));
                    }
                }
                assert(self.first_match_backward(qt, ssl, ssc, loc));
            }
            return Some(loc);
        }
        proof {
            assert(self.texts()[sl as int] == self.lines@[sl as int].text());
            assert(self.line_clean(qt, sl as int));
            assert forall|l: int, i: int| !self.match_in_doc(qt, l, i) by {
                if 0 <= l < self.texts().len() {
                    assert(self.line_clean(qt, l));
                    assert(!is_occurrence_at(self.texts()[l], qt, i));
                }
            }
        }
        None
    }

}

} // verus!

