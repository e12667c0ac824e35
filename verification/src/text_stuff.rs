//! What the sessions of one editor share: the learned templates, the two
//! matchers made from them, and the clipboard.

use vstd::prelude::*;
use crate::coord::Coord;
use crate::history::{recorded, Recognition, NUM_RECENT_RECOGNITIONS};
use crate::hwr::{
    gesture_shapes, select_gestures, CharRecognizer, CharTemplates, Forms, Points, Template,
};
use crate::ink::{Ink, InkView};
use crate::ink_type::{InkType, InkTypeView};
use crate::tokenizer::{ink_for, lemma_token_step, sorted_tokens, tokens_map, tokens_sorted};
use crate::text_buffer::TextBuffer;
use crate::text_window::TextWindow;

verus! {

/// The entry of `ch` in a template store: the first that is for that
/// character.
pub open spec fn is_entry_of(templates: Seq<CharTemplates>, ch: char, i: int) -> bool {
    &&& 0 <= i < templates.len()
    &&& templates[i].ch == ch
    &&& forall|j: int| 0 <= j < i ==> (#[trigger] templates[j]).ch != ch
}

/// Whether the record `r` has something to teach a template store: it was
/// overwritten, and the store has an entry for its character.
pub open spec fn teaches(templates: Seq<CharTemplates>, r: Recognition) -> bool {
    r.overwrites > 0 && exists|i: int| is_entry_of(templates, r.best_char, i)
}

/// How learning from the record `r` changes a template store: the relation
/// between the store before and after `TextStuff::learn`.
pub open spec fn learned(before: Seq<CharTemplates>, after: Seq<CharTemplates>, r: Recognition)
    -> bool {
    &&& after.len() == before.len()
    &&& forall|i: int|
        r.overwrites > 0 && is_entry_of(before, r.best_char, i) ==> {
            &&& after[i].ch == r.best_char
            &&& after[i].templates@ == before[i].templates@.push(Template { ink: r.ink })
            &&& forall|j: int| 0 <= j < before.len() && j != i ==> after[j] == before[j]
        }
    &&& !teaches(before, r) ==> after == before
}

/// When learning happens: a record that was never overwritten teaches
/// nothing, and a record that was overwritten adds exactly its ink, as one
/// new template, to the entry of its character.
pub proof fn lemma_learning_trigger(
    before: Seq<CharTemplates>,
    after: Seq<CharTemplates>,
    r: Recognition,
    i: int,
)
    requires
        learned(before, after, r),
        is_entry_of(before, r.best_char, i),
    ensures
        teaches(before, r) == (r.overwrites > 0),
        r.overwrites == 0 ==> after == before,
        r.overwrites > 0 ==> after[i].templates@.len() == before[i].templates@.len() + 1
            && after[i].templates@.last().ink == r.ink,
{
}

/// The ink at place `i` of some examples: none where they do not reach that
/// far.
pub open spec fn before_or_empty(inks: Seq<InkView>, i: int) -> InkView {
    if 0 <= i < inks.len() {
        inks[i]
    } else {
        Seq::empty()
    }
}

/// The examples `after` are the examples `before` with the ink of `tokens`
/// added, each token to the example in its column: they reach as far as
/// before, or as far as the last column written in, and each holds what it
/// held and then what was written in its column.
pub open spec fn written_inks(
    before: Seq<InkView>,
    after: Seq<InkView>,
    tokens: Map<int, InkView>,
) -> bool {
    &&& after.len() >= before.len()
    &&& forall|c: int| #[trigger] tokens.dom().contains(c) ==> c < after.len()
    &&& after.len() > before.len() ==> tokens.dom().contains(after.len() - 1)
    &&& forall|i: int|
        0 <= i < after.len() ==> #[trigger] after[i] == before_or_empty(before, i) + ink_for(
            tokens,
            i,
        )
}

/// Whether `forms` fits a store: as many rows as the store has entries, and
/// in each row as many forms as the entry has templates.
pub open spec fn forms_fit(templates: Seq<CharTemplates>, forms: Seq<Vec<Forms>>) -> bool {
    &&& forms.len() == templates.len()
    &&& forall|j: int|
        0 <= j < forms.len() ==> (#[trigger] forms[j]).len() == templates[j].templates.len()
}

/// The first `n` shapes of one entry, each under the character `ch` of the
/// entry: the free shapes with `free`, else the cell shapes.
pub open spec fn entry_shapes(ch: char, forms: Seq<Forms>, free: bool, n: int) -> Seq<
    (Points, char),
>
    decreases n,
{
    if n <= 0 {
        Seq::empty()
    } else {
        let shape = if free {
            forms[n - 1].free
        } else {
            forms[n - 1].cell
        };
        entry_shapes(ch, forms, free, n - 1).push((shape, ch))
    }
}

/// The shapes of the first `k` entries of a store, entry after entry, each
/// under the character of its entry.
pub open spec fn store_shapes(
    templates: Seq<CharTemplates>,
    forms: Seq<Vec<Forms>>,
    free: bool,
    k: int,
) -> Seq<(Points, char)>
    decreases k,
{
    if k <= 0 {
        Seq::empty()
    } else {
        store_shapes(templates, forms, free, k - 1) + entry_shapes(
            templates[k - 1].ch,
            forms[k - 1]@,
            free,
            forms[k - 1]@.len() as int,
        )
    }
}

/// How ink written over the examples of a character changes them.
pub open spec fn edited_inks(
    before: Seq<InkView>,
    after: Seq<InkView>,
    ink_type: InkTypeView,
) -> bool {
    match ink_type {
        InkTypeView::Strikethrough { start, end } => after == Seq::new(
            before.len(),
            |i: int|
                if start <= i < end {
                    InkView::empty()
                } else {
                    before[i]
                },
        ),
        InkTypeView::Scratch { col } => after == Seq::new(
            before.len(),
            |i: int|
                if i == col {
                    InkView::empty()
                } else {
                    before[i]
                },
        ),
        InkTypeView::Glyphs { tokens } => written_inks(before, after, tokens),
        _ => after == before,
    }
}

/// What the sessions of one editor share: the learned templates, the two
/// matchers made from them, and the clipboard.
#[derive(Debug)]
pub struct TextStuff {
    pub templates: Vec<CharTemplates>,
    pub char_recognizer: CharRecognizer,
    pub big_recognizer: CharRecognizer,
    pub clipboard: Option<TextBuffer>,
}

impl TextStuff {
    /// Nothing learned, nothing copied.
    pub fn new() -> (r: TextStuff)
        ensures
            r.templates@.len() == 0,
            r.char_recognizer.templates@.len() == 0,
            r.big_recognizer.templates@.len() == 0,
            r.clipboard.is_none(),
    {
        TextStuff {
            templates: Vec::new(),
            char_recognizer: CharRecognizer::new(Vec::new()),
            big_recognizer: CharRecognizer::new(Vec::new()),
            clipboard: None,
        }
    }

    /// Makes the two matchers anew from the store. `forms` holds the shapes
    /// of the templates: for each entry of the store, in order, the forms of
    /// each of its templates, in order. The character matcher gets the
    /// cell shape of every template, the command matcher the free shape of
    /// every template of a command, each under the character of its entry.
    /// Where `forms` does not fit the store, nothing changes and the answer is
    /// `false`.
    pub fn init_recognizer(&mut self, forms: Vec<Vec<Forms>>) -> (ok: bool)
        ensures
            ok == forms_fit(old(self).templates@, forms@),
            ok ==> final(self).char_recognizer.templates@ == store_shapes(
                old(self).templates@,
                forms@,
                false,
                forms@.len() as int,
            ),
            ok ==> final(self).big_recognizer.templates@ == gesture_shapes(
                store_shapes(old(self).templates@, forms@, true, forms@.len() as int),
            ),
            !ok ==> final(self).char_recognizer == old(self).char_recognizer,
            !ok ==> final(self).big_recognizer == old(self).big_recognizer,
            final(self).templates == old(self).templates,
            final(self).clipboard == old(self).clipboard,
    {
        if !self.fits(&forms) {
            return false;
        }
        let mut rest = forms;
        let mut cells: Vec<(Points, char)> = Vec::new();
        let mut frees: Vec<(Points, char)> = Vec::new();
        let ghost mut k: int = 0;
        while rest.len() > 0
            invariant
                *self == *old(self),
                forms_fit(self.templates@, forms@),
                0 <= k <= forms@.len(),
                k + rest@.len() == forms@.len(),
                rest@ == forms@.subrange(k, forms@.len() as int),
                cells@ == store_shapes(self.templates@, forms@, false, k),
                frees@ == store_shapes(self.templates@, forms@, true, k),
            decreases rest@.len(),
        {
            let ch = self.templates[self.templates.len() - rest.len()].ch;
            let mut row = rest.remove(0);
            assert(rest@ =~= forms@.subrange(k + 1, forms@.len() as int));
            let ghost whole = row@;
            let ghost before_cells = cells@;
            let ghost before_frees = frees@;
            let ghost mut n: int = 0;
            assert(before_cells + entry_shapes(ch, whole, false, 0) =~= before_cells);
            assert(before_frees + entry_shapes(ch, whole, true, 0) =~= before_frees);
            while row.len() > 0
                invariant
                    0 <= n <= whole.len(),
                    n + row@.len() == whole.len(),
                    row@ == whole.subrange(n, whole.len() as int),
                    cells@ == before_cells + entry_shapes(ch, whole, false, n),
                    frees@ == before_frees + entry_shapes(ch, whole, true, n),
                decreases row@.len(),
            {
                let Forms { cell, free } = row.remove(0);
                assert(row@ =~= whole.subrange(n + 1, whole.len() as int));
                cells.push((cell, ch));
                frees.push((free, ch));
                proof {
                    assert(cells@ =~= before_cells + entry_shapes(ch, whole, false, n + 1));
                    assert(frees@ =~= before_frees + entry_shapes(ch, whole, true, n + 1));
                    n = n + 1;
                }
            }
            proof {
                k = k + 1;
            }
        }
        self.char_recognizer = CharRecognizer::new(cells);
        self.big_recognizer = CharRecognizer::new(select_gestures(frees));
        true
    }

    /// Whether `forms` fits the store: as many rows as the store has entries,
    /// and in each row as many forms as the entry has templates.
    pub fn fits(&self, forms: &Vec<Vec<Forms>>) -> (r: bool)
        ensures
            r == forms_fit(self.templates@, forms@),
    {
        if forms.len() != self.templates.len() {
            return false;
        }
        let mut i: usize = 0;
        while i < forms.len()
            invariant
                i <= forms.len() == self.templates.len(),
                forall|j: int|
                    0 <= j < i ==> (#[trigger] forms@[j]).len()
                        == self.templates@[j].templates.len(),
            decreases forms.len() - i,
        {
            if forms[i].len() != self.templates[i].templates.len() {
                return false;
            }
            i += 1;
        }
        true
    }

    /// Changes the examples of the entry at place `row` of the store by what
    /// was written over them. A strike empties the examples it runs through,
    /// a scratch empties the one it was made over, and characters are added
    /// to the examples in the columns they were written in. Other ink, and any
    /// ink in a row without an entry, changes nothing.
    pub fn edit_templates(&mut self, row: usize, ink_type: InkType)
        ensures
            final(self).char_recognizer == old(self).char_recognizer,
            final(self).big_recognizer == old(self).big_recognizer,
            final(self).clipboard == old(self).clipboard,
            final(self).templates@.len() == old(self).templates@.len(),
            forall|i: int|
                0 <= i < old(self).templates@.len() && i != row ==> final(self).templates@[i]
                    == old(self).templates@[i],
            row < old(self).templates@.len() ==> {
                &&& final(self).templates@[row as int].ch == old(self).templates@[row as int].ch
                &&& edited_inks(
                    old(self).templates@[row as int].inks(),
                    final(self).templates@[row as int].inks(),
                    ink_type@,
                )
            },
    {
        if row >= self.templates.len() {
            return ;
        }
        let mut entry = self.templates.remove(row);
        let ghost before = entry.inks();
        match ink_type {
            InkType::Strikethrough { start, end } => {
                entry.erase_range(start, end);
            },
            InkType::Scratch { col } => {
                entry.erase(col);
            },
            InkType::Glyphs { tokens } => {
                let mut rest = sorted_tokens(tokens);
                let ghost all = rest@;
                let ghost mut n: int = 0;
                assert(tokens_map(all.subrange(0, 0)) =~= Map::<int, InkView>::empty());
                while rest.len() > 0
                    invariant
                        tokens_sorted(all),
                        0 <= n <= all.len(),
                        n + rest@.len() == all.len(),
                        rest@ == all.subrange(n, all.len() as int),
                        entry.ch == old(self).templates@[row as int].ch,
                        written_inks(before, entry.inks(), tokens_map(all.subrange(0, n))),
                    decreases rest@.len(),
                {
                    let ghost inks = entry.inks();
                    let token = rest.remove(0);
                    assert(token == all[n]);
                    assert(rest@ =~= all.subrange(n + 1, all.len() as int));
                    proof {
                        lemma_token_step(all, n);
                    }
                    entry.add_ink(token.col, token.ink);
                    proof {
                        let short = tokens_map(all.subrange(0, n));
                        let long = tokens_map(all.subrange(0, n + 1));
                        let col = token.col as int;
                        assert(ink_for(long, col) == token.ink@);
                        assert(ink_for(short, col) == InkView::empty());
                        assert(before_or_empty(before, col) + InkView::empty()
                            =~= before_or_empty(before, col));
                        assert(InkView::empty() + token.ink@ =~= token.ink@);
                        assert forall|i: int| 0 <= i < entry.inks().len() implies #[trigger]
                            entry.inks()[i] == before_or_empty(before, i) + ink_for(long, i) by {
                            if i != col {
                                assert(ink_for(long, i) == ink_for(short, i));
                                if i >= inks.len() {
                                    assert(ink_for(short, i) == InkView::empty());
                                    assert(i >= before.len());
                                    assert(InkView::empty() + InkView::empty()
                                        =~= InkView::empty());
                                }
                            }
                        }
                        n = n + 1;
                    }
                }
                assert(all.subrange(0, all.len() as int) =~= all);
                assert(rest@.len() == 0);
                assert(n == all.len());
            },
            _ => {},
        }
        self.templates.insert(row, entry);
    }

    /// Remembers a recognition in the history of `window`, and learns from the
    /// record that leaves the history for it, where one does. The answer is
    /// whether a template was added: the matchers are then out of date.
    pub fn record_recognition(
        &mut self,
        window: &mut TextWindow,
        coord: Coord,
        ink: Ink,
        best_char: char,
    ) -> (added: bool)
        ensures
            final(self).char_recognizer == old(self).char_recognizer,
            final(self).big_recognizer == old(self).big_recognizer,
            final(self).clipboard == old(self).clipboard,
            ({
                let all = recorded(old(window).spec_history(), coord, ink, best_char);
                if all.len() > NUM_RECENT_RECOGNITIONS {
                    &&& final(window).spec_history() == all.drop_first()
                    &&& learned(old(self).templates@, final(self).templates@, all[0])
                    &&& added == teaches(old(self).templates@, all[0])
                } else {
                    &&& final(window).spec_history() == all
                    &&& final(self).templates == old(self).templates
                    &&& !added
                }
            }),
            final(window).spec_buffer() == old(window).spec_buffer(),
            final(window).spec_undos() == old(window).spec_undos(),
            final(window).spec_selection() == old(window).spec_selection(),
            old(window).same_window(final(window)),
    {
        match window.record_recognition(coord, ink, best_char) {
            Some(r) => self.learn(r),
            None => false,
        }
    }

    /// Learns from a record that left the history. A record that was
    /// overwritten at least once gives its ink as a new template to the entry
    /// of its character, where the store has one; any other record changes
    /// nothing.
    pub fn learn(&mut self, r: Recognition) -> (added: bool)
        ensures
            final(self).char_recognizer == old(self).char_recognizer,
            final(self).big_recognizer == old(self).big_recognizer,
            final(self).clipboard == old(self).clipboard,
            learned(old(self).templates@, final(self).templates@, r),
            added == teaches(old(self).templates@, r),
    {
        if r.overwrites == 0 {
            return false;
        }
        let mut i: usize = 0;
        while i < self.templates.len()
            invariant
                i <= self.templates.len(),
                r.overwrites > 0,
                *self == *old(self),
                forall|j: int| 0 <= j < i ==> (#[trigger] self.templates@[j]).ch != r.best_char,
            decreases self.templates.len() - i,
        {
            if self.templates[i].ch == r.best_char {
                assert(is_entry_of(self.templates@, r.best_char, i as int));
                let mut entry = self.templates.remove(i);
                entry.templates.push(Template::from_ink(r.ink));
                self.templates.insert(i, entry);
                assert forall|k: int|
                    r.overwrites > 0 && is_entry_of(
                        old(self).templates@,
                        r.best_char,
                        k,
                    ) implies k == i by {}
                assert(is_entry_of(old(self).templates@, r.best_char, i as int));
                return true;
            }
            i += 1;
        }
        assert forall|k: int| !is_entry_of(old(self).templates@, r.best_char, k) by {}
        false
    }
}

} // verus!
