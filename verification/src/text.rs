//! Text as mathematics: a sequence of lines, each a sequence of characters,
//! cut, joined and replaced by position.
//!
//! A text has at least one line. A position `(row, col)` is in range when
//! the row exists and the column is at most the length of that row: the
//! column equal to the length stands for the end of the line.

use vstd::prelude::*;
use crate::coord::Coord;

verus! {

/// The mathematical model of a buffer: its lines, top to bottom.
pub type Text = Seq<Seq<char>>;

/// A position in a text, as unbounded integers.
pub type Pos = (int, int);

/// The position that a coordinate names.
pub open spec fn pos(c: Coord) -> Pos {
    (c.0 as int, c.1 as int)
}

/// Row-major order on positions.
pub open spec fn pos_le(a: Pos, b: Pos) -> bool {
    a.0 < b.0 || (a.0 == b.0 && a.1 <= b.1)
}

/// Every text has at least one line.
pub open spec fn text_wf(t: Text) -> bool {
    t.len() >= 1
}

/// Whether `p` is in range: on an existing row, at a character or at the end
/// of the line.
pub open spec fn text_holds(t: Text, p: Pos) -> bool {
    0 <= p.0 < t.len() && 0 <= p.1 <= t[p.0].len()
}

/// The position just behind the last character: the shape of the text.
pub open spec fn text_end(t: Text) -> Pos {
    (t.len() - 1, t.last().len() as int)
}

/// The nearest position in range: a row that does not exist is taken to the
/// end of the text, a column behind the end of its line to that end.
pub open spec fn text_clamp(t: Text, p: Pos) -> Pos {
    if p.0 >= t.len() {
        text_end(t)
    } else if p.1 > t[p.0].len() {
        (p.0, t[p.0].len() as int)
    } else {
        p
    }
}

/// The character stored at `p`, if there is one.
pub open spec fn text_get(t: Text, p: Pos) -> Option<char> {
    if 0 <= p.0 < t.len() && 0 <= p.1 < t[p.0].len() {
        Some(t[p.0][p.1])
    } else {
        None
    }
}

/// The text in front of an in-range position.
pub open spec fn text_before(t: Text, p: Pos) -> Text {
    t.subrange(0, p.0).push(t[p.0].subrange(0, p.1))
}

/// The text from an in-range position on.
pub open spec fn text_after(t: Text, p: Pos) -> Text {
    seq![t[p.0].subrange(p.1, t[p.0].len() as int)] + t.subrange(p.0 + 1, t.len() as int)
}

/// Two texts one after the other: the last line of the first runs on into the
/// first line of the second.
pub open spec fn text_join(a: Text, b: Text) -> Text {
    a.drop_last().push(a.last() + b.first()) + b.drop_first()
}

/// `n` blank lines.
pub open spec fn blank_lines(n: int) -> Text {
    Seq::new(n as nat, |i: int| Seq::<char>::empty())
}

/// `n` spaces.
pub open spec fn spaces(n: int) -> Seq<char> {
    Seq::new(n as nat, |i: int| ' ')
}

/// The text of a given shape that holds nothing but blanks: `shape.0` empty
/// lines and then a line of `shape.1` spaces.
pub open spec fn text_padding(shape: Pos) -> Text {
    blank_lines(shape.0).push(spaces(shape.1))
}

/// The text widened, with blank lines and spaces, until `p` is in range.
pub open spec fn text_pad(t: Text, p: Pos) -> Text {
    let tall = if p.0 < t.len() {
        t
    } else {
        t + blank_lines(p.0 + 1 - t.len())
    };
    if p.1 <= tall[p.0].len() {
        tall
    } else {
        tall.update(p.0, tall[p.0] + spaces(p.1 - tall[p.0].len()))
    }
}

/// The text with the cell at `p` set to `c`, widened first where `p` lies
/// outside.
pub open spec fn text_write(t: Text, p: Pos, c: char) -> Text {
    let wide = text_pad(t, (p.0, p.1 + 1));
    wide.update(p.0, wide[p.0].update(p.1, c))
}

/// The text in `[from, until)`, both held to the range of the text; empty when
/// nothing lies between them.
pub open spec fn text_copy(t: Text, from: Pos, until: Pos) -> Text {
    let f = text_clamp(t, from);
    let u = text_clamp(t, until);
    if pos_le(f, u) {
        text_after(text_before(t, u), f)
    } else {
        seq![Seq::<char>::empty()]
    }
}

/// The text without `[from, until)`, both held to the range of the text.
pub open spec fn text_remove(t: Text, from: Pos, until: Pos) -> Text {
    let f = text_clamp(t, from);
    let u = text_clamp(t, until);
    if pos_le(f, u) {
        text_join(text_before(t, f), text_after(t, u))
    } else {
        t
    }
}

/// The text with `content` inserted at `at`, widened first where `at` lies
/// outside.
pub open spec fn text_splice(t: Text, at: Pos, content: Text) -> Text {
    let wide = text_pad(t, at);
    text_join(text_join(text_before(wide, at), content), text_after(wide, at))
}

/// The text with `[from, until)` taken out and `content` put in its place.
pub open spec fn text_replace(t: Text, from: Pos, until: Pos, content: Text) -> Text {
    text_splice(text_remove(t, from, until), from, content)
}

/// The position reached from `base` by walking over a text of shape `shape`.
pub open spec fn pos_add(base: Pos, shape: Pos) -> Pos {
    if shape.0 == 0 {
        (base.0, base.1 + shape.1)
    } else {
        (base.0 + shape.0, shape.1)
    }
}

/// Where text that is put in at `from` ends.
pub open spec fn put_end(from: Coord, content: Text) -> Coord {
    let p = pos_add(pos(from), text_end(content));
    (p.0 as usize, p.1 as usize)
}

/// The lines that a string holds: a line feed ends a line and begins the next.
pub open spec fn text_of(s: Seq<char>) -> Text
    decreases s.len(),
{
    if s.len() == 0 {
        seq![Seq::<char>::empty()]
    } else {
        let t = text_of(s.drop_last());
        if s.last() == '\n' {
            t.push(Seq::<char>::empty())
        } else {
            t.update(t.len() - 1, t.last().push(s.last()))
        }
    }
}

/// The lines of a text written out, with a line feed between two lines.
pub open spec fn text_string(t: Text) -> Seq<char>
    decreases t.len(),
{
    if t.len() == 0 {
        Seq::<char>::empty()
    } else if t.len() == 1 {
        t[0]
    } else {
        text_string(t.drop_last()) + seq!['\n'] + t.last()
    }
}

/// The rows of two joined texts: those of the first but its last, the seam,
/// and those of the second but its first.
pub proof fn lemma_join_rows(a: Text, b: Text)
    requires
        text_wf(a),
        text_wf(b),
    ensures
        text_join(a, b).len() == a.len() + b.len() - 1,
        forall|i: int| 0 <= i < a.len() - 1 ==> #[trigger] text_join(a, b)[i] == a[i],
        text_join(a, b)[a.len() - 1] == a.last() + b.first(),
        forall|i: int|
            a.len() <= i < a.len() + b.len() - 1 ==> #[trigger] text_join(a, b)[i] == b[i
                - a.len() + 1],
{
}

/// A text cut at an in-range position and joined again is the text.
pub proof fn lemma_cut_join(t: Text, p: Pos)
    requires
        text_holds(t, p),
    ensures
        text_join(text_before(t, p), text_after(t, p)) == t,
{
    let a = text_before(t, p);
    let b = text_after(t, p);
    lemma_join_rows(a, b);
    let j = text_join(a, b);
    assert(a.last() + b.first() =~= t[p.0]);
    assert(j =~= t);
}

/// What stands in front of, and behind, the place where two texts were joined.
pub proof fn lemma_join_cut(a: Text, b: Text)
    requires
        text_wf(a),
        text_wf(b),
    ensures
        text_holds(text_join(a, b), text_end(a)),
        text_before(text_join(a, b), text_end(a)) == a,
        text_after(text_join(a, b), text_end(a)) == b,
{
    lemma_join_rows(a, b);
    let j = text_join(a, b);
    let e = text_end(a);
    assert(j[e.0].subrange(0, e.1) =~= a.last());
    assert(j[e.0].subrange(e.1, j[e.0].len() as int) =~= b.first());
    assert(text_before(j, e) =~= a);
    assert(text_after(j, e) =~= b);
}

/// Joining is associative.
pub proof fn lemma_join_assoc(a: Text, b: Text, c: Text)
    requires
        text_wf(a),
        text_wf(b),
        text_wf(c),
    ensures
        text_join(text_join(a, b), c) == text_join(a, text_join(b, c)),
{
    lemma_join_rows(a, b);
    lemma_join_rows(b, c);
    lemma_join_rows(text_join(a, b), c);
    lemma_join_rows(a, text_join(b, c));
    let l = text_join(text_join(a, b), c);
    let r = text_join(a, text_join(b, c));
    assert(l.len() == r.len());
    assert forall|i: int| 0 <= i < l.len() implies l[i] =~= r[i] by {
        if i < a.len() - 1 {
            assert(text_join(a, b)[i] == a[i]);
        } else if i == a.len() - 1 {
            if b.len() == 1 {
                assert((a.last() + b.first()) + c.first() =~= a.last() + (b.first() + c.first()));
            } else {
                assert(text_join(a, b)[i] == a.last() + b.first());
            }
        } else if i < a.len() + b.len() - 2 {
            assert(text_join(a, b)[i] == b[i - a.len() + 1]);
        } else if i == a.len() + b.len() - 2 {
            assert(text_join(b, c)[b.len() - 1] == b.last() + c.first());
        } else {
            assert(text_join(b, c)[i - a.len() + 1] == c[i - a.len() + 1 - b.len() + 1]);
        }
    }
    assert(l =~= r);
}

/// The end of two joined texts lies the shape of the second behind the end of
/// the first.
pub proof fn lemma_join_end(a: Text, b: Text)
    requires
        text_wf(a),
        text_wf(b),
    ensures
        text_end(text_join(a, b)) == pos_add(text_end(a), text_end(b)),
{
    lemma_join_rows(a, b);
}

/// A position in range needs no widening.
pub proof fn lemma_pad_in_range(t: Text, p: Pos)
    requires
        text_holds(t, p),
    ensures
        text_pad(t, p) == t,
{
}

/// After widening, the position is in range, and the text is still a text.
pub proof fn lemma_pad_holds(t: Text, p: Pos)
    requires
        text_wf(t),
        0 <= p.0,
        0 <= p.1,
    ensures
        text_holds(text_pad(t, p), p),
        text_wf(text_pad(t, p)),
        text_pad(t, p).len() >= t.len(),
{
}


/// Cutting in front of `u` and then in front of an earlier `f` is cutting in
/// front of `f`.
pub proof fn lemma_before_before(t: Text, f: Pos, u: Pos)
    requires
        text_holds(t, f),
        text_holds(t, u),
        pos_le(f, u),
    ensures
        text_holds(text_before(t, u), f),
        text_before(text_before(t, u), f) == text_before(t, f),
{
    let bu = text_before(t, u);
    assert(bu[f.0].subrange(0, f.1) =~= t[f.0].subrange(0, f.1));
    assert(text_before(bu, f) =~= text_before(t, f));
}

/// With both ends in range and in order, a replacement keeps what stands in
/// front of `from` and behind `until` and puts `content` between them.
pub proof fn lemma_replace_in_range(t: Text, from: Pos, until: Pos, content: Text)
    requires
        text_holds(t, from),
        text_holds(t, until),
        pos_le(from, until),
        text_wf(content),
    ensures
        text_replace(t, from, until, content) == text_join(
            text_join(text_before(t, from), content),
            text_after(t, until),
        ),
        text_copy(t, from, until) == text_after(text_before(t, until), from),
{
    let head = text_before(t, from);
    let tail = text_after(t, until);
    lemma_join_cut(head, tail);
    lemma_pad_in_range(text_join(head, tail), from);
}

/// The law of undo. Let a replacement with both ends in range and in order
/// turn `t` into `t2`. The inverse replacement, which puts the text that was
/// taken out in place of what was put in, is in range in `t2`, turns `t2`
/// back into `t`, and has the first replacement as its own inverse.
pub proof fn lemma_replace_undo(t: Text, from: Pos, until: Pos, content: Text)
    requires
        text_holds(t, from),
        text_holds(t, until),
        pos_le(from, until),
        text_wf(content),
    ensures
        ({
            let t2 = text_replace(t, from, until, content);
            let until2 = pos_add(from, text_end(content));
            let removed = text_copy(t, from, until);
            &&& text_wf(removed)
            &&& text_holds(t2, from)
            &&& text_holds(t2, until2)
            &&& pos_le(from, until2)
            &&& text_replace(t2, from, until2, removed) == t
            &&& text_copy(t2, from, until2) == content
            &&& pos_add(from, text_end(removed)) == until
        }),
{
    let head = text_before(t, from);
    let tail = text_after(t, until);
    let t2 = text_replace(t, from, until, content);
    let until2 = pos_add(from, text_end(content));
    let removed = text_copy(t, from, until);
    lemma_replace_in_range(t, from, until, content);
    lemma_join_assoc(head, content, tail);
    lemma_join_end(head, content);
    lemma_join_rows(head, content);
    lemma_join_rows(content, tail);
    lemma_join_cut(text_join(head, content), tail);
    lemma_join_cut(head, text_join(content, tail));
    lemma_join_cut(head, content);
    lemma_before_before(t, from, until);
    lemma_cut_join(text_before(t, until), from);
    lemma_cut_join(t, until);
    lemma_replace_in_range(t2, from, until2, removed);
}

/// Cut and paste. Taking a range out, and then putting what was taken out
/// back in where it stood, gives the text back.
pub proof fn lemma_cut_paste(t: Text, from: Pos, until: Pos)
    requires
        text_holds(t, from),
        text_holds(t, until),
        pos_le(from, until),
    ensures
        text_replace(
            text_replace(t, from, until, seq![Seq::<char>::empty()]),
            from,
            from,
            text_copy(t, from, until),
        ) == t,
{
    lemma_replace_undo(t, from, until, seq![Seq::<char>::empty()]);
}

/// Where a splice ends: the position the shape of `content` behind `at` is in
/// range afterwards.
pub proof fn lemma_splice_end(t: Text, at: Pos, content: Text)
    requires
        text_wf(t),
        text_wf(content),
        0 <= at.0,
        0 <= at.1,
    ensures
        text_wf(text_splice(t, at, content)),
        text_holds(text_splice(t, at, content), pos_add(at, text_end(content))),
{
    let wide = text_pad(t, at);
    lemma_pad_holds(t, at);
    let head = text_before(wide, at);
    let tail = text_after(wide, at);
    lemma_join_end(head, content);
    lemma_join_cut(text_join(head, content), tail);
    lemma_join_rows(head, content);
}

/// Taking a range out leaves a text.
pub proof fn lemma_remove_wf(t: Text, from: Pos, until: Pos)
    requires
        text_wf(t),
        0 <= from.0,
        0 <= from.1,
        0 <= until.0,
        0 <= until.1,
    ensures
        text_wf(text_remove(t, from, until)),
        text_wf(text_copy(t, from, until)),
{
    let f = text_clamp(t, from);
    let u = text_clamp(t, until);
    if pos_le(f, u) {
        lemma_join_rows(text_before(t, f), text_after(t, u));
    }
}

/// The lines of a string are a text.
pub proof fn lemma_text_of_wf(s: Seq<char>)
    ensures
        text_wf(text_of(s)),
    decreases s.len(),
{
    if s.len() > 0 {
        lemma_text_of_wf(s.drop_last());
    }
}

/// Reading a string into lines and writing the lines out gives the string
/// back.
pub proof fn lemma_string_round_trip(s: Seq<char>)
    ensures
        text_string(text_of(s)) == s,
    decreases s.len(),
{
    if s.len() == 0 {
        assert(text_string(seq![Seq::<char>::empty()]) =~= s);
    } else {
        let front = s.drop_last();
        let t = text_of(front);
        lemma_string_round_trip(front);
        lemma_text_of_wf(front);
        if s.last() == '\n' {
            let u = t.push(Seq::<char>::empty());
            assert(u.drop_last() =~= t);
            assert(text_string(u) =~= front + seq!['\n']);
            assert(front + seq!['\n'] =~= s);
        } else {
            let u = t.update(t.len() - 1, t.last().push(s.last()));
            if t.len() == 1 {
                assert(text_string(u) =~= front.push(s.last()));
            } else {
                assert(u.drop_last() =~= t.drop_last());
                assert(text_string(u) =~= (text_string(t.drop_last()) + seq!['\n'] + t.last()).push(
                    s.last(),
                ));
            }
            assert(front.push(s.last()) =~= s);
        }
    }
}

/// Writing a single cell through an edit is writing the cell: for a cell in
/// range, or at the end of its line, replacing it by one character gives the
/// text with that cell set.
pub proof fn lemma_replace_cell(t: Text, p: Pos, c: char)
    requires
        text_wf(t),
        0 <= p.0 < t.len(),
        0 <= p.1 <= t[p.0].len(),
    ensures
        text_replace(t, p, (p.0, p.1 + 1), seq![seq![c]]) == text_write(t, p, c),
{
    let until = text_clamp(t, (p.0, p.1 + 1));
    lemma_replace_in_range(t, p, until, seq![seq![c]]);
    let head = text_before(t, p);
    let tail = text_after(t, until);
    lemma_join_rows(head, seq![seq![c]]);
    lemma_join_rows(text_join(head, seq![seq![c]]), tail);
    let result = text_join(text_join(head, seq![seq![c]]), tail);
    let wide = text_pad(t, (p.0, p.1 + 1));
    let target = wide.update(p.0, wide[p.0].update(p.1, c));
    assert(text_remove(t, p, (p.0, p.1 + 1)) == text_remove(t, p, until));
    assert(result.len() == target.len());
    assert forall|i: int| 0 <= i < result.len() implies result[i] =~= target[i] by {
        if i == p.0 {
            assert(result[i] =~= head.last() + seq![c] + tail.first());
        }
    }
    assert(result =~= target);
}

} // verus!
