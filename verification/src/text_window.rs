//! The editing session: a text buffer seen through a window of cells, a
//! selection that carats build up, a stack of edits that can be taken back,
//! and a short memory of what was recognized where.

use std::collections::VecDeque;
use vstd::prelude::*;
use crate::cell::{cell_of, Cell, END_OF_FILE, END_OF_LINE, MARK_WEIGHT, TEXT_WEIGHT};
use crate::coord::{
    add_index, coord_le, diff_coord, le_coord, lt_coord, saturate, spec_diff_coord, Coord,
};
use crate::history::{
    correct_all, except_at, from_on, keep_all, kept, lemma_kept_len, lemma_remapped_len, recorded,
    remap_all, remapped, Recognition, NUM_RECENT_RECOGNITIONS,
};
use crate::hwr::Points;
use crate::ink::{Ink, InkView};
use crate::ink_type::{spec_classify, InkType, InkTypeView};
use crate::tokenizer::{
    is_token_of, lemma_token_lookup, sorted_tokens, tokens_map, tokens_sorted, Token,
};
use crate::metrics::Metrics;
use crate::selection::{Carat, Selection};
use crate::text::{
    lemma_replace_undo, pos, pos_add, put_end, text_copy, text_end, text_holds, text_padding,
    text_replace, text_wf, Text,
};
use crate::text_buffer::{Replace, TextBuffer};
use crate::text_stuff::{learned, teaches, TextStuff};

verus! {

/// The new origin along one axis after paging by `delta` pages: a page is
/// five cells short of the window, so that some context stays in view, and at
/// least one cell. The origin is held to what the machine can represent.
pub open spec fn spec_page_round(current: usize, delta: isize, size: usize) -> usize {
    let stride = if size - 5 >= 1 {
        size - 5
    } else {
        1
    };
    saturate(current + delta * stride)
}

/// The new origin along one axis after paging by `delta` pages.
pub fn page_round(current: usize, delta: isize, size: usize) -> (r: usize)
    ensures
        r == spec_page_round(current, delta, size),
{
    let stride: i128 = if size > 5 {
        (size - 5) as i128
    } else {
        1
    };
    assert(-170141183460469231722463931679029329920 <= delta * stride
        <= 170141183460469231704017187605319778305) by (nonlinear_arith)
        requires
            -0x8000_0000_0000_0000 <= delta <= 0x7fff_ffff_ffff_ffff,
            1 <= stride <= 0xffff_ffff_ffff_ffff,
    ;
    let moved: i128 = current as i128 + (delta as i128) * stride;
    if moved < 0 {
        0
    } else if moved > usize::MAX as i128 {
        usize::MAX
    } else {
        moved as usize
    }
}

/// What is left to do for an ink after `ink_row`: its characters have to be
/// recognized, and the shape of each has to be found for that.
#[derive(Debug)]
pub enum Pending {
    /// Nothing is left to do.
    Nothing,
    /// Characters were written in row `row`: each token is to be handed to
    /// `glyph` with its shape, in this order. The columns of the tokens count
    /// from the left edge of the window.
    Glyphs { row: usize, tokens: Vec<Token> },
    /// A command was written for what is selected: the shape of the ink is to
    /// be handed to `gesture`.
    Gesture { ink: Ink },
}

/// Whether `ink` is the ink of the first column that `tokens` has ink for.
pub open spec fn is_first_token(tokens: Map<int, InkView>, ink: InkView) -> bool {
    exists|col: int|
        tokens.dom().contains(col) && ink == tokens[col] && forall|other: int|
            tokens.dom().contains(other) ==> col <= other
}

/// What `ink_row` hands back for characters written in `row`: the tokens,
/// in the order of their columns, while nothing is selected, and else the
/// ink of the first column written in.
pub open spec fn handed_back(
    pending: Pending,
    selection: Selection,
    row: usize,
    tokens: Map<int, InkView>,
) -> bool {
    match pending {
        Pending::Nothing => false,
        Pending::Glyphs { row: r, tokens: ts } => {
            &&& selection is Normal
            &&& r == row
            &&& tokens_sorted(ts@)
            &&& tokens_map(ts@) == tokens
        },
        Pending::Gesture { ink } => !(selection is Normal) && is_first_token(tokens, ink@),
    }
}

/// The edit that a command makes on what is selected, where it makes one: as
/// `(from, until, content)`. Cutting takes the range out, pasting puts the
/// clipboard in at the carat, filling puts blanks of the shape of the range
/// in its place. Copying makes no edit, nor does any command that what is
/// selected does not fit.
pub open spec fn gesture_edit(code: Option<char>, selection: Selection, clipboard: Option<Text>)
    -> Option<(Coord, Coord, Text)> {
    match (code, selection) {
        (Some('X'), Selection::Range { start, end }) => Some(
            (start.coord, end.coord, seq![Seq::<char>::empty()]),
        ),
        (Some('V'), Selection::Single { carat }) => match clipboard {
            Some(text) => Some((carat.coord, carat.coord, text)),
            None => None,
        },
        (Some('S'), Selection::Range { start, end }) => Some(
            (start.coord, end.coord, text_padding(spec_diff_coord(start.coord, end.coord))),
        ),
        _ => None,
    }
}

/// What the clipboard holds after a command: the selected text after a cut or
/// a copy, nothing after a paste at a carat, and else what it held.
pub open spec fn gesture_clipboard(
    code: Option<char>,
    selection: Selection,
    clipboard: Option<Text>,
    text: Text,
) -> Option<Text> {
    match (code, selection) {
        (Some('X'), Selection::Range { start, end }) => Some(
            text_copy(text, pos(start.coord), pos(end.coord)),
        ),
        (Some('C'), Selection::Range { start, end }) => Some(
            text_copy(text, pos(start.coord), pos(end.coord)),
        ),
        (Some('V'), Selection::Single { carat }) => None,
        _ => clipboard,
    }
}

/// The text of a clipboard.
pub open spec fn clipboard_text(clipboard: Option<TextBuffer>) -> Option<Text> {
    match clipboard {
        Some(b) => Some(b@),
        None => None,
    }
}

/// An editing session on one buffer.
#[derive(Debug)]
pub struct TextWindow {
    buffer: TextBuffer,
    grid_metrics: Metrics,
    selection: Selection,
    dimensions: Coord,
    origin: Coord,
    undos: VecDeque<Replace>,
    tentative_recognitions: VecDeque<Recognition>,
}

impl Clone for TextWindow {
    /// A session on a copy of the buffer, in the same state.
    fn clone(&self) -> (r: TextWindow)
        ensures
            r.text() == self.text(),
            r.spec_metrics() == self.spec_metrics(),
            self.spec_selection().alike(r.spec_selection()),
            r.spec_dimensions() == self.spec_dimensions(),
            r.spec_origin() == self.spec_origin(),
            r.spec_undos().len() == self.spec_undos().len(),
            forall|i: int|
                0 <= i < self.spec_undos().len() ==> {
                    &&& (#[trigger] r.spec_undos()[i]).from == self.spec_undos()[i].from
                    &&& r.spec_undos()[i].until == self.spec_undos()[i].until
                    &&& r.spec_undos()[i].content@ == self.spec_undos()[i].content@
                },
            r.spec_history().len() == self.spec_history().len(),
            forall|i: int|
                0 <= i < self.spec_history().len() ==> {
                    &&& (#[trigger] r.spec_history()[i]).coord == self.spec_history()[i].coord
                    &&& r.spec_history()[i].ink@ == self.spec_history()[i].ink@
                    &&& r.spec_history()[i].best_char == self.spec_history()[i].best_char
                    &&& r.spec_history()[i].overwrites == self.spec_history()[i].overwrites
                },
    {
        proof {
            use_type_invariant(self);
        }
        TextWindow {
            buffer: self.buffer.clone(),
            grid_metrics: self.grid_metrics,
            selection: self.selection.clone(),
            dimensions: (self.dimensions.0, self.dimensions.1),
            origin: (self.origin.0, self.origin.1),
            undos: self.undos.clone(),
            tentative_recognitions: self.tentative_recognitions.clone(),
        }
    }
}

impl TextWindow {
    #[verifier::type_invariant]
    spec fn inv(self) -> bool {
        &&& self.selection.wf()
        &&& self.tentative_recognitions@.len() <= NUM_RECENT_RECOGNITIONS
    }

    /// The buffer.
    pub closed spec fn spec_buffer(&self) -> TextBuffer {
        self.buffer
    }

    /// The text of the buffer.
    pub open spec fn text(&self) -> Text {
        self.spec_buffer()@
    }

    /// The measures of the grid.
    pub closed spec fn spec_metrics(&self) -> Metrics {
        self.grid_metrics
    }

    /// What is selected.
    pub closed spec fn spec_selection(&self) -> Selection {
        self.selection
    }

    /// How many rows and columns of cells the window shows.
    pub closed spec fn spec_dimensions(&self) -> Coord {
        self.dimensions
    }

    /// The cell of the buffer in the top left corner of the window.
    pub closed spec fn spec_origin(&self) -> Coord {
        self.origin
    }

    /// The edits that take back what was done, the latest first.
    pub closed spec fn spec_undos(&self) -> Seq<Replace> {
        self.undos@
    }

    /// The remembered recognitions, the oldest first.
    pub closed spec fn spec_history(&self) -> Seq<Recognition> {
        self.tentative_recognitions@
    }

    /// The edit `(from, until, content)` leads from this session to `after`
    /// as far as the buffer goes: the text is replaced, and the inverse of
    /// the edit lies on top of the edits that can be taken back.
    pub open spec fn edited(&self, after: &TextWindow, from: Coord, until: Coord, content: Text)
        -> bool {
        &&& after.text() == text_replace(self.text(), pos(from), pos(until), content)
        &&& after.spec_undos().len() == self.spec_undos().len() + 1
        &&& after.spec_undos().drop_first() == self.spec_undos()
        &&& after.spec_undos()[0].from == from
        &&& pos(after.spec_undos()[0].until) == pos_add(pos(from), text_end(content))
        &&& after.spec_undos()[0].content@ == text_copy(self.text(), pos(from), pos(until))
    }

    /// The history of `after` is the history of this session, moved along
    /// with the text by the edit `(from, until, content)`.
    pub open spec fn history_moved(
        &self,
        after: &TextWindow,
        from: Coord,
        until: Coord,
        content: Text,
    ) -> bool {
        after.spec_history() == remapped(self.spec_history(), from, until, put_end(from, content))
    }

    /// `after` is this session with its latest edit taken back: the inverse
    /// that lay on top of the stack is applied and gone, and the history has
    /// moved along with the text. With nothing to take back, nothing changes.
    pub open spec fn undone(&self, after: &TextWindow) -> bool {
        if self.spec_undos().len() == 0 {
            self.untouched(after)
        } else {
            let undo = self.spec_undos()[0];
            &&& after.text() == text_replace(
                self.text(),
                pos(undo.from),
                pos(undo.until),
                undo.content@,
            )
            &&& after.spec_undos() == self.spec_undos().drop_first()
            &&& self.history_moved(after, undo.from, undo.until, undo.content@)
        }
    }

    /// Undo restores. Let an edit with both ends in range and in order lead
    /// from session `a` to session `b`, and let `c` be `b` with its latest
    /// edit taken back. Then `c` has the text of `a`, and the same edits left
    /// to take back.
    pub proof fn lemma_undo_restores(
        a: &TextWindow,
        b: &TextWindow,
        c: &TextWindow,
        from: Coord,
        until: Coord,
        content: Text,
    )
        requires
            text_wf(content),
            text_holds(a.text(), pos(from)),
            text_holds(a.text(), pos(until)),
            coord_le(from, until),
            a.edited(b, from, until, content),
            b.undone(c),
        ensures
            c.text() == a.text(),
            c.spec_undos() == a.spec_undos(),
    {
        lemma_replace_undo(a.text(), pos(from), pos(until), content);
    }

    /// `after` shows the same part of the buffer on the same grid.
    pub open spec fn same_window(&self, after: &TextWindow) -> bool {
        &&& after.spec_metrics() == self.spec_metrics()
        &&& after.spec_dimensions() == self.spec_dimensions()
        &&& after.spec_origin() == self.spec_origin()
    }

    /// `after` has the buffer, the stack of edits and the history of this
    /// session.
    pub open spec fn untouched(&self, after: &TextWindow) -> bool {
        &&& after.spec_buffer() == self.spec_buffer()
        &&& after.spec_undos() == self.spec_undos()
        &&& after.spec_history() == self.spec_history()
    }

    /// What `ink_row` does on a scratch over window column `col` of `row`.
    pub open spec fn scratched(&self, after: &TextWindow, row: usize, col: int) -> bool {
        let coord = (row, saturate(self.spec_origin().1 + col));
        let until = (row, saturate(coord.1 + 1));
        &&& self.edited(after, coord, until, seq![seq![' ']])
        &&& after.spec_history() == kept(
            remapped(self.spec_history(), coord, until, put_end(coord, seq![seq![' ']])),
            except_at(coord),
        )
        &&& after.spec_selection() == self.spec_selection()
    }

    /// What `ink_row` does on a strike through window columns `[start, end)`
    /// of `row`.
    pub open spec fn struck(&self, after: &TextWindow, row: usize, start: int, end: int) -> bool {
        let from = (row, saturate(self.spec_origin().1 + start));
        let until = (row, saturate(self.spec_origin().1 + end));
        &&& self.edited(after, from, until, seq![Seq::<char>::empty()])
        &&& after.spec_history() == kept(
            remapped(self.spec_history(), from, until, put_end(from, seq![Seq::<char>::empty()])),
            from_on(from),
        )
        &&& after.spec_selection() == self.spec_selection()
    }

    /// What `ink_row` does on a carat drawn with `mark` in front of window
    /// column `col` of `row`.
    pub open spec fn marked(&self, after: &TextWindow, row: usize, col: int, mark: InkView)
        -> bool {
        &&& self.untouched(after)
        &&& exists|carat: Carat|
            carat.coord == (row, saturate(self.spec_origin().1 + col)) && carat.ink@ == mark
                && after.spec_selection() == self.spec_selection().spec_place(carat)
    }

    /// The session on `buffer`: nothing selected, the window in the top left
    /// corner, nothing to take back and nothing remembered.
    pub fn new(buffer: TextBuffer, metrics: Metrics, dimensions: Coord) -> (w: TextWindow)
        ensures
            w.spec_buffer() == buffer,
            w.spec_metrics() == metrics,
            w.spec_selection() == Selection::Normal,
            w.spec_dimensions() == dimensions,
            w.spec_origin() == (0usize, 0usize),
            w.spec_undos() == Seq::<Replace>::empty(),
            w.spec_history() == Seq::<Recognition>::empty(),
    {
        TextWindow {
            buffer,
            grid_metrics: metrics,
            selection: Selection::Normal,
            dimensions,
            origin: (0, 0),
            undos: VecDeque::new(),
            tentative_recognitions: VecDeque::new(),
        }
    }

    /// The buffer.
    pub fn buffer(&self) -> (r: &TextBuffer)
        ensures
            *r == self.spec_buffer(),
    {
        &self.buffer
    }

    /// The measures of the grid.
    pub fn grid_metrics(&self) -> (r: &Metrics)
        ensures
            *r == self.spec_metrics(),
    {
        &self.grid_metrics
    }

    /// What is selected. A range never ends in front of its start.
    pub fn selection(&self) -> (r: &Selection)
        ensures
            *r == self.spec_selection(),
            r.wf(),
    {
        proof {
            use_type_invariant(self);
        }
        &self.selection
    }

    /// How many rows and columns of cells the window shows.
    pub fn dimensions(&self) -> (r: Coord)
        ensures
            r == self.spec_dimensions(),
    {
        self.dimensions
    }

    /// The cell of the buffer in the top left corner of the window.
    pub fn origin(&self) -> (r: Coord)
        ensures
            r == self.spec_origin(),
    {
        self.origin
    }

    /// How many edits can be taken back.
    pub fn undo_count(&self) -> (n: usize)
        ensures
            n == self.spec_undos().len(),
    {
        self.undos.len()
    }

    /// How many recognitions are remembered: never more than
    /// `NUM_RECENT_RECOGNITIONS`.
    pub fn recognition_count(&self) -> (n: usize)
        ensures
            n == self.spec_history().len(),
            n <= NUM_RECENT_RECOGNITIONS,
    {
        proof {
            use_type_invariant(self);
        }
        self.tentative_recognitions.len()
    }

    /// The remembered recognition at place `i`, the oldest at 0.
    pub fn recognition(&self, i: usize) -> (r: Option<&Recognition>)
        ensures
            i < self.spec_history().len() ==> r == Some(&self.spec_history()[i as int]),
            i >= self.spec_history().len() ==> r.is_none(),
    {
        if i < self.tentative_recognitions.len() {
            Some(&self.tentative_recognitions[i])
        } else {
            None
        }
    }

    /// Moves the window by pages: `delta.0` pages down and `delta.1` pages to
    /// the right, or up and to the left where they are negative, and never
    /// past the first row or column.
    pub fn page_relative(&mut self, delta: (isize, isize))
        ensures
            final(self).spec_origin() == (
                spec_page_round(old(self).spec_origin().0, delta.0, old(self).spec_dimensions().0),
                spec_page_round(old(self).spec_origin().1, delta.1, old(self).spec_dimensions().1),
            ),
            final(self).spec_buffer() == old(self).spec_buffer(),
            final(self).spec_metrics() == old(self).spec_metrics(),
            final(self).spec_selection() == old(self).spec_selection(),
            final(self).spec_dimensions() == old(self).spec_dimensions(),
            final(self).spec_undos() == old(self).spec_undos(),
            final(self).spec_history() == old(self).spec_history(),
    {
        proof {
            use_type_invariant(&*self);
        }
        let row: usize = page_round(self.origin.0, delta.0, self.dimensions.0);
        let col: usize = page_round(self.origin.1, delta.1, self.dimensions.1);
        self.origin = (row, col);
    }

    /// Places a carat: the selection takes its next step.
    pub fn carat(&mut self, carat: Carat)
        ensures
            final(self).spec_selection() == old(self).spec_selection().spec_place(carat),
            final(self).spec_buffer() == old(self).spec_buffer(),
            final(self).spec_metrics() == old(self).spec_metrics(),
            final(self).spec_dimensions() == old(self).spec_dimensions(),
            final(self).spec_origin() == old(self).spec_origin(),
            final(self).spec_undos() == old(self).spec_undos(),
            final(self).spec_history() == old(self).spec_history(),
    {
        proof {
            use_type_invariant(&*self);
        }
        let mut selection = Selection::Normal;
        std::mem::swap(&mut selection, &mut self.selection);
        self.selection = selection.place(carat);
    }

    /// Remembers that `best_char` was recognized at `coord` from `ink`. Every
    /// record of that cell is corrected: the cell was written again, so what
    /// was recognized there before is taken to have been wrong. The new
    /// record goes behind the others, and where there are then more than
    /// `NUM_RECENT_RECOGNITIONS` the oldest leaves and is returned.
    pub fn record_recognition(&mut self, coord: Coord, ink: Ink, best_char: char) -> (evicted:
        Option<Recognition>)
        ensures
            ({
                let all = recorded(old(self).spec_history(), coord, ink, best_char);
                if all.len() > NUM_RECENT_RECOGNITIONS {
                    evicted == Some(all[0]) && final(self).spec_history() == all.drop_first()
                } else {
                    evicted.is_none() && final(self).spec_history() == all
                }
            }),
            final(self).spec_buffer() == old(self).spec_buffer(),
            final(self).spec_metrics() == old(self).spec_metrics(),
            final(self).spec_selection() == old(self).spec_selection(),
            final(self).spec_dimensions() == old(self).spec_dimensions(),
            final(self).spec_origin() == old(self).spec_origin(),
            final(self).spec_undos() == old(self).spec_undos(),
    {
        proof {
            use_type_invariant(&*self);
        }
        let mut history: VecDeque<Recognition> = VecDeque::new();
        std::mem::swap(&mut history, &mut self.tentative_recognitions);
        let mut history = correct_all(history, coord, best_char);
        history.push_back(Recognition { coord, ink, best_char, overwrites: 0 });
        let evicted = if history.len() > NUM_RECENT_RECOGNITIONS {
            let ghost all = history@;
            let first = history.pop_front();
            assert(history@ =~= all.drop_first());
            first
        } else {
            None
        };
        self.tentative_recognitions = history;
        evicted
    }

    /// Applies an edit to the buffer. Its inverse goes on top of the stack of
    /// edits that can be taken back, and the remembered recognitions follow
    /// the text: those in front of the edit stay, those of what was taken
    /// out are forgotten, and those from the end of what was taken out on
    /// move with the text behind the edit.
    pub fn replace(&mut self, replace: Replace)
        ensures
            old(self).edited(final(self), replace.from, replace.until, replace.content@),
            old(self).history_moved(final(self), replace.from, replace.until, replace.content@),
            old(self).same_window(final(self)),
            final(self).spec_selection() == old(self).spec_selection(),
    {
        proof {
            use_type_invariant(&*self);
        }
        let from = replace.from;
        let old_until = replace.until;
        let mut buffer = TextBuffer::empty();
        std::mem::swap(&mut buffer, &mut self.buffer);
        let undo = buffer.replace(replace);
        self.buffer = buffer;
        let new_until = undo.until;
        let mut undos: VecDeque<Replace> = VecDeque::new();
        std::mem::swap(&mut undos, &mut self.undos);
        undos.push_front(undo);
        assert(undos@.drop_first() =~= old(self).undos@);
        self.undos = undos;
        let mut history: VecDeque<Recognition> = VecDeque::new();
        std::mem::swap(&mut history, &mut self.tentative_recognitions);
        proof {
            lemma_remapped_len(history@, from, old_until, new_until);
        }
        self.tentative_recognitions = remap_all(history, from, old_until, new_until);
    }

    /// Sets the cell at `coord` to `c`, as an edit that can be taken back.
    /// Like every edit it forgets what was recognized in the text it takes
    /// out: the records of that cell.
    pub fn write(&mut self, coord: Coord, c: char)
        ensures
            old(self).edited(final(self), coord, (coord.0, saturate(coord.1 + 1)), seq![seq![c]]),
            old(self).history_moved(
                final(self),
                coord,
                (coord.0, saturate(coord.1 + 1)),
                seq![seq![c]],
            ),
            old(self).same_window(final(self)),
            final(self).spec_selection() == old(self).spec_selection(),
    {
        self.replace(Replace::write(coord, c));
    }

    /// Takes the latest edit back, where there is one: its inverse is applied
    /// and leaves the stack. An edit that was taken back cannot be done
    /// again.
    pub fn undo(&mut self)
        ensures
            old(self).undone(final(self)),
            old(self).same_window(final(self)),
            final(self).spec_selection() == old(self).spec_selection(),
    {
        proof {
            use_type_invariant(&*self);
        }
        let ghost before = self.undos@;
        let mut undos: VecDeque<Replace> = VecDeque::new();
        std::mem::swap(&mut undos, &mut self.undos);
        let latest = undos.pop_front();
        let ghost rest = undos@;
        self.undos = undos;
        match latest {
            Some(undo) => {
                assert(rest =~= before.drop_first());
                self.replace(undo);
                proof {
                    use_type_invariant(&*self);
                }
                let ghost redo = self.undos@[0];
                let mut undos: VecDeque<Replace> = VecDeque::new();
                std::mem::swap(&mut undos, &mut self.undos);
                undos.pop_front();
                assert(undos@ =~= rest);
                self.undos = undos;
                assert(redo.until == put_end(undo.from, undo.content@));
            },
            None => {},
        }
    }

    /// What the cell in row `row_offset` and column `col_offset` of the
    /// window shows.
    pub fn cell(&self, row_offset: usize, col_offset: usize) -> (r: Cell)
        ensures
            r == cell_of(
                self.text(),
                self.spec_selection(),
                (
                    saturate(self.spec_origin().0 + row_offset),
                    saturate(self.spec_origin().1 + col_offset),
                ),
            ),
    {
        let row: usize = add_index(self.origin.0, row_offset);
        let col: usize = add_index(self.origin.1, col_offset);
        let coord = (row, col);
        let (glyph, weight) = match self.buffer.line_len(row) {
            Some(len) => {
                if col < len {
                    (self.buffer.get(coord), TEXT_WEIGHT)
                } else if col == len {
                    if row == self.buffer.line_count() - 1 {
                        (Some(END_OF_FILE), MARK_WEIGHT)
                    } else {
                        (Some(END_OF_LINE), MARK_WEIGHT)
                    }
                } else {
                    (None, 0)
                }
            },
            None => (None, 0),
        };
        match &self.selection {
            Selection::Normal => Cell {
                glyph,
                weight,
                underline: false,
                guidelines: true,
                start_mark: false,
                end_mark: false,
            },
            Selection::Single { carat } => Cell {
                glyph,
                weight,
                underline: false,
                guidelines: false,
                start_mark: row == carat.coord.0 && col == carat.coord.1,
                end_mark: false,
            },
            Selection::Range { start, end } => Cell {
                glyph,
                weight,
                underline: le_coord(start.coord, coord) && lt_coord(coord, end.coord),
                guidelines: false,
                start_mark: row == start.coord.0 && col == start.coord.1,
                end_mark: row == end.coord.0 && col == end.coord.1,
            },
        }
    }

    /// Takes in the ink written in row `row` of the buffer: finds what it
    /// means and does what can be done at once.
    ///
    /// - A scratch blanks the cell it was made over and forgets what was
    ///   recognized there.
    /// - A strike takes the text it runs through out of the row, and forgets
    ///   what was recognized in front of it.
    /// - A carat is placed.
    /// - Characters are handed back to be recognized: as tokens for `glyph`
    ///   while nothing is selected, else as one ink for `gesture`, the ink of
    ///   the first column written in.
    /// - Junk changes nothing.
    ///
    /// Columns count from the left edge of the window.
    pub fn ink_row(&mut self, ink: Ink, row: usize) -> (pending: Pending)
        ensures
            old(self).same_window(final(self)),
            match spec_classify(
                ink@,
                old(self).spec_metrics().spec_width(),
                old(self).spec_metrics().spec_height(),
            ) {
                InkTypeView::Scratch { col } => {
                    &&& pending is Nothing
                    &&& old(self).scratched(final(self), row, col)
                },
                InkTypeView::Strikethrough { start, end } => {
                    &&& pending is Nothing
                    &&& old(self).struck(final(self), row, start, end)
                },
                InkTypeView::Carat { col, ink: mark } => {
                    &&& pending is Nothing
                    &&& old(self).marked(final(self), row, col, mark)
                },
                InkTypeView::Glyphs { tokens } => {
                    &&& old(self).untouched(final(self))
                    &&& final(self).spec_selection() == old(self).spec_selection()
                    &&& handed_back(pending, old(self).spec_selection(), row, tokens)
                },
                InkTypeView::Junk => {
                    &&& pending is Nothing
                    &&& old(self).untouched(final(self))
                    &&& final(self).spec_selection() == old(self).spec_selection()
                },
            },
    {
        proof {
            use_type_invariant(&*self);
        }
        let ink_type = InkType::classify(&self.grid_metrics, ink);
        let ghost meaning = ink_type@;
        match ink_type {
            InkType::Scratch { col } => {
                let col: usize = add_index(self.origin.1, col);
                self.replace(Replace::write((row, col), ' '));
                proof {
                    use_type_invariant(&*self);
                }
                let mut history: VecDeque<Recognition> = VecDeque::new();
                std::mem::swap(&mut history, &mut self.tentative_recognitions);
                proof {
                    lemma_kept_len(history@, except_at((row, col)));
                }
                self.tentative_recognitions = keep_all(history, true, (row, col));
                assert(old(self).scratched(&*self, row, meaning->Scratch_col));
                Pending::Nothing
            },
            InkType::Glyphs { tokens } => {
                let tokens = sorted_tokens(tokens);
                if let Selection::Normal = self.selection {
                    Pending::Glyphs { row, tokens }
                } else {
                    let mut tokens = tokens;
                    let ghost all = tokens@;
                    let first = tokens.remove(0);
                    proof {
                        lemma_token_lookup(all, 0);
                        assert forall|other: int|
                            tokens_map(all).dom().contains(other) implies first.col <= other by {
                            let i = choose|i: int| is_token_of(all, other, i);
                            assert(is_token_of(all, other, i));
                        }
                        assert(is_first_token(tokens_map(all), first.ink@));
                    }
                    Pending::Gesture { ink: first.ink }
                }
            },
            InkType::Strikethrough { start, end } => {
                let start: usize = add_index(self.origin.1, start);
                let end: usize = add_index(self.origin.1, end);
                self.replace(Replace::remove((row, start), (row, end)));
                proof {
                    use_type_invariant(&*self);
                }
                let mut history: VecDeque<Recognition> = VecDeque::new();
                std::mem::swap(&mut history, &mut self.tentative_recognitions);
                proof {
                    lemma_kept_len(history@, from_on((row, start)));
                }
                self.tentative_recognitions = keep_all(history, false, (row, start));
                assert(old(self).struck(
                    &*self,
                    row,
                    meaning->Strikethrough_start,
                    meaning->Strikethrough_end,
                ));
                Pending::Nothing
            },
            InkType::Carat { col, ink } => {
                let col: usize = add_index(self.origin.1, col);
                let carat = Carat { coord: (row, col), ink };
                self.carat(carat);
                assert(old(self).marked(&*self, row, meaning->Carat_col, meaning->Carat_ink));
                Pending::Nothing
            },
            InkType::Junk => Pending::Nothing,
        }
    }

    /// Takes in one written character: `token` with its shape. Where the
    /// character matcher knows the shape, the character is written to the
    /// cell, the recognition is remembered, and a record that leaves the
    /// history for it is learned from. Where it does not, nothing changes.
    ///
    /// Writing one cell moves no text, so every record stays at its cell. The
    /// records of the written cell stay too: they are what the new writing
    /// corrects, and each of them takes the new character and counts one more
    /// overwrite.
    ///
    /// The answer is whether a template was added: the matchers are then out
    /// of date.
    pub fn glyph(
        &mut self,
        row: usize,
        token: Token,
        shape: &Points,
        text_stuff: &mut TextStuff,
    ) -> (added: bool)
        ensures
            old(self).same_window(final(self)),
            final(self).spec_selection() == old(self).spec_selection(),
            final(text_stuff).char_recognizer == old(text_stuff).char_recognizer,
            final(text_stuff).big_recognizer == old(text_stuff).big_recognizer,
            final(text_stuff).clipboard == old(text_stuff).clipboard,
            match old(text_stuff).char_recognizer.spec_best_match(shape@, u128::MAX) {
                None => {
                    &&& old(self).untouched(final(self))
                    &&& final(text_stuff).templates == old(text_stuff).templates
                    &&& !added
                },
                Some(c) => {
                    let coord = (row, saturate(token.col + old(self).spec_origin().1));
                    let until = (row, saturate(coord.1 + 1));
                    let all = recorded(old(self).spec_history(), coord, token.ink, c);
                    &&& old(self).edited(final(self), coord, until, seq![seq![c]])
                    &&& if all.len() > NUM_RECENT_RECOGNITIONS {
                        &&& final(self).spec_history() == all.drop_first()
                        &&& learned(
                            old(text_stuff).templates@,
                            final(text_stuff).templates@,
                            all[0],
                        )
                        &&& added == teaches(old(text_stuff).templates@, all[0])
                    } else {
                        &&& final(self).spec_history() == all
                        &&& final(text_stuff).templates == old(text_stuff).templates
                        &&& !added
                    }
                },
            },
    {
        let col: usize = add_index(token.col, self.origin.1);
        match text_stuff.char_recognizer.best_match(shape, u128::MAX) {
            Some(c) => {
                let coord = (row, col);
                proof {
                    use_type_invariant(&*self);
                }
                let mut history: VecDeque<Recognition> = VecDeque::new();
                std::mem::swap(&mut history, &mut self.tentative_recognitions);
                self.replace(Replace::write(coord, c));
                proof {
                    use_type_invariant(&*self);
                }
                self.tentative_recognitions = history;
                text_stuff.record_recognition(self, coord, token.ink, c)
            },
            None => false,
        }
    }

    /// Takes in one written command, by its shape, for what is selected.
    /// The command matcher names the command: `X` cuts the selected range to
    /// the clipboard, `C` copies it there, `V` puts what the clipboard holds
    /// in at the selected place and empties the clipboard, `S` fills the
    /// selected range with blanks of its shape. A command that what is
    /// selected does not fit does nothing, nor does a shape that names no
    /// command. Afterwards nothing is selected.
    pub fn gesture(&mut self, shape: &Points, text_stuff: &mut TextStuff)
        ensures
            old(self).same_window(final(self)),
            final(self).spec_selection() == Selection::Normal,
            final(text_stuff).char_recognizer == old(text_stuff).char_recognizer,
            final(text_stuff).big_recognizer == old(text_stuff).big_recognizer,
            final(text_stuff).templates == old(text_stuff).templates,
            clipboard_text(final(text_stuff).clipboard) == gesture_clipboard(
                old(text_stuff).big_recognizer.spec_best_match(shape@, u128::MAX),
                old(self).spec_selection(),
                clipboard_text(old(text_stuff).clipboard),
                old(self).text(),
            ),
            match gesture_edit(
                old(text_stuff).big_recognizer.spec_best_match(shape@, u128::MAX),
                old(self).spec_selection(),
                clipboard_text(old(text_stuff).clipboard),
            ) {
                Some((from, until, content)) => {
                    &&& old(self).edited(final(self), from, until, content)
                    &&& old(self).history_moved(final(self), from, until, content)
                },
                None => old(self).untouched(final(self)),
            },
    {
        proof {
            use_type_invariant(&*self);
        }
        let code = text_stuff.big_recognizer.best_match(shape, u128::MAX);
        let mut selection = Selection::Normal;
        std::mem::swap(&mut selection, &mut self.selection);
        match (code, selection) {
            (Some('X'), Selection::Range { start, end }) => {
                text_stuff.clipboard = Some(self.buffer.copy(start.coord, end.coord));
                self.replace(Replace::remove(start.coord, end.coord));
            },
            (Some('C'), Selection::Range { start, end }) => {
                text_stuff.clipboard = Some(self.buffer.copy(start.coord, end.coord));
            },
            (Some('V'), Selection::Single { carat }) => {
                let mut clipboard: Option<TextBuffer> = None;
                std::mem::swap(&mut clipboard, &mut text_stuff.clipboard);
                match clipboard {
                    Some(buffer) => {
                        self.replace(Replace::splice(carat.coord, buffer));
                    },
                    None => {},
                }
            },
            (Some('S'), Selection::Range { start, end }) => {
                let shape = diff_coord(start.coord, end.coord);
                let content = TextBuffer::padding(shape);
                self.replace(Replace { from: start.coord, until: end.coord, content });
            },
            _ => {},
        }
    }
}

} // verus!
