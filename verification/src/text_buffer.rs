//! The text buffer, and the reversible edit that changes it.

use vstd::prelude::*;
use crate::coord::{add_coord, add_index, le_coord, saturate, Coord};
use crate::strings::{chars_of, extend_string};
use crate::text::{
    blank_lines, lemma_before_before, lemma_pad_holds, lemma_remove_wf, lemma_splice_end, pos,
    pos_add, spaces, text_after, text_before, text_clamp, text_copy, text_end, text_get, text_holds,
    text_join, text_of, text_pad, text_padding, text_remove, text_replace, text_splice, text_string,
    text_wf, text_write, Text,
};

verus! {

/// The lines held in a vector of vectors.
pub open spec fn lines_of(v: Seq<Vec<char>>) -> Text {
    Seq::new(v.len(), |i: int| v[i]@)
}



/// The characters of `line` in `[from, to)`.
fn slice_line(line: &Vec<char>, from: usize, to: usize) -> (r: Vec<char>)
    requires
        from <= to <= line.len(),
    ensures
        r@ == line@.subrange(from as int, to as int),
{
    let mut r: Vec<char> = Vec::new();
    let mut i: usize = from;
    while i < to
        invariant
            from <= i <= to <= line.len(),
            r@ == line@.subrange(from as int, i as int),
        decreases to - i,
    {
        r.push(line[i]);
        i += 1;
    }
    r
}

/// Appends the characters of `line` in `[from, to)` to `dst`.
fn extend_line(dst: &mut Vec<char>, line: &Vec<char>, from: usize, to: usize)
    requires
        from <= to <= line.len(),
    ensures
        final(dst)@ == old(dst)@ + line@.subrange(from as int, to as int),
{
    let mut i: usize = from;
    while i < to
        invariant
            from <= i <= to <= line.len(),
            dst@ == old(dst)@ + line@.subrange(from as int, i as int),
        decreases to - i,
    {
        dst.push(line[i]);
        i += 1;
    }
}

/// Appends copies of the lines of `src` in `[from, to)` to `dst`.
fn extend_lines(dst: &mut Vec<Vec<char>>, src: &Vec<Vec<char>>, from: usize, to: usize)
    requires
        from <= to <= src.len(),
    ensures
        lines_of(final(dst)@) == lines_of(old(dst)@) + lines_of(src@).subrange(
            from as int,
            to as int,
        ),
{
    let mut i: usize = from;
    while i < to
        invariant
            from <= i <= to <= src.len(),
            lines_of(dst@) == lines_of(old(dst)@) + lines_of(src@).subrange(from as int, i as int),
        decreases to - i,
    {
        let ghost before = dst@;
        let line = slice_line(&src[i], 0, src[i].len());
        assert(line@ =~= src@[i as int]@);
        dst.push(line);
        assert(lines_of(dst@) =~= lines_of(before).push(src@[i as int]@));
        assert(lines_of(src@).subrange(from as int, i + 1) =~= lines_of(src@).subrange(
            from as int,
            i as int,
        ).push(src@[i as int]@));
        i += 1;
    }
}

/// One empty line.
fn blank() -> (r: Vec<Vec<char>>)
    ensures
        r.len() == 1,
        lines_of(r@) == seq![Seq::<char>::empty()],
{
    let mut r: Vec<Vec<char>> = Vec::new();
    r.push(Vec::new());
    assert(lines_of(r@) =~= seq![Seq::<char>::empty()]);
    r
}

/// The lines in front of an in-range position.
fn lines_before(lines: &Vec<Vec<char>>, p: Coord) -> (r: Vec<Vec<char>>)
    requires
        text_holds(lines_of(lines@), pos(p)),
    ensures
        lines_of(r@) == text_before(lines_of(lines@), pos(p)),
        r.len() >= 1,
{
    let mut r: Vec<Vec<char>> = Vec::new();
    extend_lines(&mut r, lines, 0, p.0);
    let ghost whole = r@;
    let last = slice_line(&lines[p.0], 0, p.1);
    r.push(last);
    assert(r@.len() == whole.len() + 1);
    assert(lines_of(r@) =~= lines_of(whole).push(lines@[p.0 as int]@.subrange(0, p.1 as int)));
    assert(lines_of(whole) =~= lines_of(lines@).subrange(0, p.0 as int));
    r
}

/// The lines from an in-range position on.
fn lines_after(lines: &Vec<Vec<char>>, p: Coord) -> (r: Vec<Vec<char>>)
    requires
        text_holds(lines_of(lines@), pos(p)),
    ensures
        lines_of(r@) == text_after(lines_of(lines@), pos(p)),
        r.len() >= 1,
{
    let mut r: Vec<Vec<char>> = Vec::new();
    let first = slice_line(&lines[p.0], p.1, lines[p.0].len());
    r.push(first);
    assert(lines_of(r@) =~= seq![
        lines@[p.0 as int]@.subrange(p.1 as int, lines@[p.0 as int]@.len() as int),
    ]);
    assert(lines_of(lines@).len() == lines.len());
    extend_lines(&mut r, lines, p.0 + 1, lines.len());
    assert(lines_of(r@).len() == r.len());
    r
}

/// The lines of `a` followed by those of `b`, the last of `a` and the first of
/// `b` made one.
fn lines_join(a: &Vec<Vec<char>>, b: &Vec<Vec<char>>) -> (r: Vec<Vec<char>>)
    requires
        a.len() >= 1,
        b.len() >= 1,
    ensures
        lines_of(r@) == text_join(lines_of(a@), lines_of(b@)),
        r.len() == a.len() + b.len() - 1,
{
    let mut r: Vec<Vec<char>> = Vec::new();
    extend_lines(&mut r, a, 0, a.len() - 1);
    let ghost head = r@;
    assert(lines_of(head) =~= lines_of(a@).drop_last());
    let mut seam = slice_line(&a[a.len() - 1], 0, a[a.len() - 1].len());
    extend_line(&mut seam, &b[0], 0, b[0].len());
    assert(seam@ =~= lines_of(a@).last() + lines_of(b@).first());
    r.push(seam);
    assert(lines_of(r@) =~= lines_of(head).push(seam@));
    let ghost mid = r@;
    extend_lines(&mut r, b, 1, b.len());
    assert(lines_of(b@).subrange(1, b.len() as int) =~= lines_of(b@).drop_first());
    assert(lines_of(r@).len() == r.len());
    r
}

/// The lines widened until `p` is in range.
fn lines_pad(lines: Vec<Vec<char>>, p: Coord) -> (r: Vec<Vec<char>>)
    ensures
        lines_of(r@) == text_pad(lines_of(lines@), pos(p)),
        r.len() > p.0,
        r.len() >= lines.len(),
{
    let mut r = lines;
    while r.len() <= p.0
        invariant
            lines.len() <= p.0 ==> r.len() <= p.0 + 1,
            r.len() >= lines.len(),
            lines.len() <= p.0 ==> lines_of(r@) =~= lines_of(lines@) + blank_lines(
                r.len() - lines.len(),
            ),
            lines.len() > p.0 ==> r == lines,
        decreases p.0 + 1 - r.len(),
    {
        let ghost before = r@;
        r.push(Vec::new());
        assert(lines_of(r@) =~= lines_of(before).push(Seq::<char>::empty()));
    }
    if r[p.0].len() < p.1 {
        let ghost tall = r@;
        let mut line = slice_line(&r[p.0], 0, r[p.0].len());
        while line.len() < p.1
            invariant
                p.0 < tall.len(),
                tall[p.0 as int]@.len() <= line.len() <= p.1,
                line@ =~= tall[p.0 as int]@ + spaces(line.len() - tall[p.0 as int]@.len()),
            decreases p.1 - line.len(),
        {
            line.push(' ');
        }
        r.set(p.0, line);
        assert(lines_of(r@) =~= lines_of(tall).update(
            p.0 as int,
            tall[p.0 as int]@ + spaces(p.1 - tall[p.0 as int]@.len()),
        ));
    }
    r
}

/// A text buffer: lines of single characters, addressed by row and column.
/// There is always at least one line.
#[derive(Debug)]
pub struct TextBuffer {
    contents: Vec<Vec<char>>,
}

impl Clone for TextBuffer {
    /// A buffer with the same text.
    fn clone(&self) -> (r: TextBuffer)
        ensures
            r@ == self@,
    {
        proof {
            use_type_invariant(self);
        }
        let mut contents: Vec<Vec<char>> = Vec::new();
        extend_lines(&mut contents, &self.contents, 0, self.contents.len());
        assert(lines_of(contents@) =~= lines_of(self.contents@));
        assert(lines_of(contents@).len() == contents.len());
        TextBuffer { contents }
    }
}

impl View for TextBuffer {
    type V = Text;

    /// The lines of the buffer.
    closed spec fn view(&self) -> Text {
        if self.contents.len() >= 1 {
            lines_of(self.contents@)
        } else {
            seq![Seq::<char>::empty()]
        }
    }
}

impl TextBuffer {
    #[verifier::type_invariant]
    spec fn at_least_one_line(self) -> bool {
        self.contents.len() >= 1
    }

    /// The view of a buffer has at least one line.
    pub proof fn lemma_view_wf(self)
        ensures
            text_wf(self@),
    {
    }

    /// A buffer fits the machine: neither the number of its lines nor the
    /// length of any line exceeds `usize::MAX`.
    pub proof fn lemma_fits(self)
        ensures
            self@.len() <= usize::MAX,
            forall|i: int| 0 <= i < self@.len() ==> (#[trigger] self@[i]).len() <= usize::MAX,
    {
        assert forall|i: int| 0 <= i < self@.len() implies (#[trigger] self@[i]).len()
            <= usize::MAX by {
            if self.contents.len() >= 1 {
                assert(self@[i] == self.contents@[i]@);
                assert(self.contents@[i].len() <= usize::MAX);
            }
        }
    }

    /// The buffer that holds one empty line.
    pub fn empty() -> (r: TextBuffer)
        ensures
            r@ == seq![Seq::<char>::empty()],
    {
        TextBuffer { contents: blank() }
    }

    /// The number of lines.
    pub fn line_count(&self) -> (n: usize)
        ensures
            n == self@.len(),
            n >= 1,
    {
        proof {
            use_type_invariant(self);
        }
        self.contents.len()
    }

    /// The length of the line at `row`, if there is such a line.
    pub fn line_len(&self, row: usize) -> (n: Option<usize>)
        ensures
            row < self@.len() ==> (n matches Some(k) && k == self@[row as int].len()),
            row >= self@.len() ==> n.is_none(),
    {
        proof {
            use_type_invariant(self);
        }
        if row < self.contents.len() {
            Some(self.contents[row].len())
        } else {
            None
        }
    }

    /// The character stored at `coord`; `None` at the end of a line and
    /// anywhere outside the text.
    pub fn get(&self, coord: Coord) -> (c: Option<char>)
        ensures
            c == text_get(self@, pos(coord)),
    {
        proof {
            use_type_invariant(self);
        }
        if coord.0 < self.contents.len() {
            let line = &self.contents[coord.0];
            if coord.1 < line.len() {
                Some(line[coord.1])
            } else {
                None
            }
        } else {
            None
        }
    }

    /// The coordinate just behind the last character: the shape of the buffer.
    pub fn end(&self) -> (r: Coord)
        ensures
            pos(r) == text_end(self@),
    {
        proof {
            use_type_invariant(self);
        }
        let last: usize = self.contents.len() - 1;
        (last, self.contents[last].len())
    }

    /// The nearest coordinate that is in range.
    pub fn clamp(&self, coord: Coord) -> (r: Coord)
        ensures
            pos(r) == text_clamp(self@, pos(coord)),
            text_holds(self@, pos(r)),
    {
        proof {
            use_type_invariant(self);
        }
        if coord.0 >= self.contents.len() {
            self.end()
        } else if coord.1 > self.contents[coord.0].len() {
            (coord.0, self.contents[coord.0].len())
        } else {
            coord
        }
    }

    /// The buffer that holds the lines of `s`.
    pub fn from_string(s: &str) -> (r: TextBuffer)
        ensures
            r@ == text_of(s@),
    {
        let chars = chars_of(s);
        let mut contents: Vec<Vec<char>> = Vec::new();
        let mut line: Vec<char> = Vec::new();
        let mut i: usize = 0;
        assert(chars@.subrange(0, 0) =~= Seq::<char>::empty());
        assert(lines_of(contents@).push(line@) =~= seq![Seq::<char>::empty()]);
        while i < chars.len()
            invariant
                i <= chars.len(),
                lines_of(contents@).push(line@) == text_of(chars@.subrange(0, i as int)),
            decreases chars.len() - i,
        {
            let ghost prefix = chars@.subrange(0, i as int);
            assert(chars@.subrange(0, i + 1).drop_last() =~= prefix);
            let c = chars[i];
            if c == '\n' {
                contents.push(line);
                line = Vec::new();
                assert(lines_of(contents@).push(line@) =~= text_of(prefix).push(
                    Seq::<char>::empty(),
                ));
            } else {
                let ghost partial = line@;
                line.push(c);
                assert(lines_of(contents@).push(line@) =~= text_of(prefix).update(
                    text_of(prefix).len() - 1,
                    partial.push(c),
                ));
            }
            i += 1;
        }
        assert(chars@.subrange(0, chars.len() as int) =~= chars@);
        let ghost head = contents@;
        contents.push(line);
        assert(lines_of(contents@) =~= lines_of(head).push(line@));
        TextBuffer { contents }
    }

    /// The text written out, with a line feed between two lines.
    pub fn content_string(&self) -> (s: String)
        ensures
            s@ == text_string(self@),
    {
        proof {
            use_type_invariant(self);
        }
        let mut s = String::new();
        let mut feed: Vec<char> = Vec::new();
        feed.push('\n');
        let mut row: usize = 0;
        while row < self.contents.len()
            invariant
                row <= self.contents.len(),
                feed@ == seq!['\n'],
                self@ == lines_of(self.contents@),
                s@ == text_string(self@.subrange(0, row as int)),
            decreases self.contents.len() - row,
        {
            let ghost done = s@;
            if row > 0 {
                extend_string(&mut s, &feed, 0, 1);
                assert(feed@.subrange(0, 1) =~= seq!['\n']);
            }
            let line = &self.contents[row];
            extend_string(&mut s, line, 0, line.len());
            assert(line@.subrange(0, line.len() as int) =~= line@);
            proof {
                let upto = self@.subrange(0, row + 1);
                assert(upto.drop_last() =~= self@.subrange(0, row as int));
                assert(upto.last() == line@);
                if row == 0 {
                    assert(done =~= Seq::<char>::empty());
                    assert(s@ =~= line@);
                    assert(upto[0] == line@);
                } else {
                    assert(s@ =~= done + seq!['\n'] + line@);
                }
            }
            row += 1;
        }
        assert(self@.subrange(0, self@.len() as int) =~= self@);
        s
    }

    /// The blank buffer of a given shape: `shape.0` empty lines and then a
    /// line of `shape.1` spaces.
    pub fn padding(shape: Coord) -> (r: TextBuffer)
        ensures
            r@ == text_padding(pos(shape)),
    {
        let contents = lines_pad(blank(), shape);
        proof {
            let one: Text = seq![Seq::<char>::empty()];
            assert(text_pad(one, pos(shape)) =~~= text_padding(pos(shape)));
        }
        TextBuffer { contents }
    }

    /// A copy of the text in `[from, until)`. Both coordinates are held to the
    /// range of the buffer; where nothing lies between them the copy is empty.
    pub fn copy(&self, from: Coord, until: Coord) -> (r: TextBuffer)
        ensures
            r@ == text_copy(self@, pos(from), pos(until)),
    {
        proof {
            use_type_invariant(self);
        }
        let f = self.clamp(from);
        let u = self.clamp(until);
        if le_coord(f, u) {
            let head = lines_before(&self.contents, u);
            proof {
                lemma_before_before(self@, pos(f), pos(u));
            }
            let contents = lines_after(&head, f);
            TextBuffer { contents }
        } else {
            TextBuffer::empty()
        }
    }

    /// Widens the buffer with blank lines and spaces until `(row, col)` is in
    /// range.
    pub fn pad(&mut self, row: usize, col: usize)
        ensures
            final(self)@ == text_pad(old(self)@, (row as int, col as int)),
    {
        proof {
            use_type_invariant(&*self);
        }
        let mut contents = blank();
        std::mem::swap(&mut contents, &mut self.contents);
        self.contents = lines_pad(contents, (row, col));
    }

    /// Sets the cell at `coord` to `c`, widening the buffer first where the
    /// cell lies outside.
    pub fn write(&mut self, coord: Coord, c: char)
        ensures
            final(self)@ == text_write(old(self)@, pos(coord), c),
    {
        proof {
            use_type_invariant(&*self);
        }
        let mut contents = blank();
        std::mem::swap(&mut contents, &mut self.contents);
        let ghost before = lines_of(contents@);
        let mut contents = lines_pad(contents, coord);
        let ghost wide = lines_of(contents@);
        let mut line = slice_line(&contents[coord.0], 0, contents[coord.0].len());
        let ghost padded = line@;
        assert(padded =~= wide[coord.0 as int]);
        if coord.1 < line.len() {
            line.set(coord.1, c);
        } else {
            line.push(c);
        }
        contents.set(coord.0, line);
        proof {
            let target = text_pad(before, (coord.0 as int, coord.1 + 1));
            let row = coord.0 as int;
            let tall = if row < before.len() {
                before
            } else {
                before + blank_lines(row + 1 - before.len())
            };
            assert(wide.len() == target.len() == tall.len());
            assert forall|i: int| 0 <= i < wide.len() && i != row implies wide[i]
                == target[i] by {}
            assert(lines_of(contents@)[row] == line@);
            assert(padded == wide[row]);
            if coord.1 < padded.len() {
                assert(padded =~= target[row]);
            } else {
                assert(padded.len() == coord.1);
                assert(target[row].len() == coord.1 + 1);
                assert(forall|k: int| 0 <= k < coord.1 ==> padded[k] == target[row][k]);
                assert(line@ == padded.push(c));
            }
            assert(line@ =~= target[row].update(coord.1 as int, c));
            assert(lines_of(contents@) =~~= target.update(
                coord.0 as int,
                target[coord.0 as int].update(coord.1 as int, c),
            ));
        }
        self.contents = contents;
    }

    /// Puts `other` behind the text: its first line runs on from the last
    /// line of the buffer.
    pub fn append(&mut self, other: TextBuffer)
        ensures
            final(self)@ == text_join(old(self)@, other@),
    {
        proof {
            use_type_invariant(&*self);
            use_type_invariant(&other);
        }
        let joined = lines_join(&self.contents, &other.contents);
        self.contents = joined;
    }

    /// Cuts the buffer at `at`, held to the range of the buffer: the buffer
    /// keeps what stands in front, and what stands behind is returned.
    pub fn split_off(&mut self, at: Coord) -> (tail: TextBuffer)
        ensures
            final(self)@ == text_before(old(self)@, text_clamp(old(self)@, pos(at))),
            tail@ == text_after(old(self)@, text_clamp(old(self)@, pos(at))),
    {
        proof {
            use_type_invariant(&*self);
        }
        let p = self.clamp(at);
        let tail = lines_after(&self.contents, p);
        let head = lines_before(&self.contents, p);
        self.contents = head;
        TextBuffer { contents: tail }
    }

    /// Takes the text in `[from, until)` out. Both coordinates are held to the
    /// range of the buffer; where nothing lies between them nothing changes.
    pub fn remove(&mut self, from: Coord, until: Coord)
        ensures
            final(self)@ == text_remove(old(self)@, pos(from), pos(until)),
    {
        proof {
            use_type_invariant(&*self);
        }
        let f = self.clamp(from);
        let u = self.clamp(until);
        if le_coord(f, u) {
            let head = lines_before(&self.contents, f);
            let tail = lines_after(&self.contents, u);
            self.contents = lines_join(&head, &tail);
        }
    }

    /// Inserts `other` at `at`, widening the buffer first where `at` lies
    /// outside.
    pub fn splice(&mut self, at: Coord, other: TextBuffer)
        ensures
            final(self)@ == text_splice(old(self)@, pos(at), other@),
    {
        proof {
            use_type_invariant(&*self);
            use_type_invariant(&other);
        }
        let mut contents = blank();
        std::mem::swap(&mut contents, &mut self.contents);
        let ghost before = lines_of(contents@);
        let wide = lines_pad(contents, at);
        proof {
            lemma_pad_holds(before, pos(at));
        }
        let head = lines_before(&wide, at);
        let tail = lines_after(&wide, at);
        let front = lines_join(&head, &other.contents);
        self.contents = lines_join(&front, &tail);
    }
}


/// The one reversible edit: take the text in `[from, until)` out and put
/// `content` in its place.
#[derive(Debug)]
pub struct Replace {
    pub from: Coord,
    pub until: Coord,
    pub content: TextBuffer,
}

impl Clone for Replace {
    /// The same edit.
    fn clone(&self) -> (r: Replace)
        ensures
            r.from == self.from,
            r.until == self.until,
            r.content@ == self.content@,
    {
        Replace {
            from: (self.from.0, self.from.1),
            until: (self.until.0, self.until.1),
            content: self.content.clone(),
        }
    }
}

impl Replace {
    /// The edit that inserts `content` at `at`.
    pub fn splice(at: Coord, content: TextBuffer) -> (r: Replace)
        ensures
            r.from == at,
            r.until == at,
            r.content == content,
    {
        Replace { from: at, until: at, content }
    }

    /// The edit that takes `[from, until)` out.
    pub fn remove(from: Coord, until: Coord) -> (r: Replace)
        ensures
            r.from == from,
            r.until == until,
            r.content@ == seq![Seq::<char>::empty()],
    {
        Replace { from, until, content: TextBuffer::empty() }
    }

    /// The edit that puts the single character `c` in the cell at `at`.
    pub fn write(at: Coord, c: char) -> (r: Replace)
        ensures
            r.from == at,
            r.until == (at.0, saturate(at.1 + 1)),
            r.content@ == seq![seq![c]],
    {
        let mut line: Vec<char> = Vec::new();
        line.push(c);
        let mut contents: Vec<Vec<char>> = Vec::new();
        contents.push(line);
        assert(lines_of(contents@) =~~= seq![seq![c]]);
        Replace { from: at, until: (at.0, add_index(at.1, 1)), content: TextBuffer { contents } }
    }
}

impl TextBuffer {
    /// Applies an edit and returns its inverse: the edit that, applied to the
    /// buffer as it is afterwards, puts back what was taken out in place of
    /// what was put in.
    pub fn replace(&mut self, replace: Replace) -> (undo: Replace)
        ensures
            final(self)@ == text_replace(
                old(self)@,
                pos(replace.from),
                pos(replace.until),
                replace.content@,
            ),
            undo.from == replace.from,
            pos(undo.until) == pos_add(pos(replace.from), text_end(replace.content@)),
            undo.content@ == text_copy(old(self)@, pos(replace.from), pos(replace.until)),
    {
        let Replace { from, until, content } = replace;
        let removed = self.copy(from, until);
        let shape = content.end();
        self.remove(from, until);
        proof {
            old(self).lemma_view_wf();
            content.lemma_view_wf();
            lemma_remove_wf(old(self)@, pos(from), pos(until));
            lemma_splice_end(self@, pos(from), content@);
        }
        self.splice(from, content);
        proof {
            self.lemma_fits();
        }
        let new_until = add_coord(from, shape);
        Replace { from, until: new_until, content: removed }
    }
}

} // verus!
