//! Printing: where a glyph goes, and what it pushes aside.
use crate::grid::{row_open_gap, row_set, GridState};
use crate::grid_laws;
use crate::grid_model::GridView;
use crate::pane_snapshot::Cell;
use crate::seqops;
use crate::vt::char_width;
use vstd::prelude::*;

verus! {

impl GridState {
    /// Attaches a zero-width character to the glyph before the cursor.
    ///
    /// The last printed character and a deferred wrap stay as they are.
    pub(crate) fn combine_into_previous(&mut self, c: char)
        requires
            old(self).wf(),
        ensures
            final(self)@ == old(self)@.combine(c),
            final(self).wf(),
    {
        proof {
            reveal(GridView::combine);
            grid_laws::lemma_combine_wf(self@, c);
        }
        let (_, last_col) = self.limits();
        let from: usize = if self.wrap_pending {
            last_col
        } else if self.cursor_col > 0 {
            self.cursor_col - 1
        } else {
            return;
        };
        let row: usize = self.cursor_row;
        let col: usize = self.lead_col_at(row, from);
        if col >= self.cols || row >= self.rows {
            return;
        }
        match self.active_cell_at(row, col) {
            Some(cell) => {
                if cell.combining == 0 {
                    if self.combining.len() >= 65535 {
                        return;
                    }
                    self.mint_mark(row, col, cell, c);
                } else {
                    let k: usize = cell.combining as usize - 1;
                    if k < self.combining.len() {
                        self.stack_mark(k, c);
                    }
                }
            },
            None => {},
        }
    }

    /// Gives the cell a table entry of its own, with one mark.
    fn mint_mark(&mut self, row: usize, col: usize, cell: Cell, c: char)
        requires
            old(self).wf(),
            old(self).combining@.len() < 65535,
        ensures
            final(self)@ == (GridView {
                combining: old(self)@.combining.push(seq![c]),
                ..old(self)@.set_cell(
                    row as int,
                    col as int,
                    Cell { combining: (old(self)@.combining.len() + 1) as u16, ..cell },
                )
            }),
    {
        let next: u16 = (self.combining.len() + 1) as u16;
        let marked = Cell { combining: next, ..cell };
        proof {
            grid_laws::lemma_set_cell_wf(self@, row as int, col as int, marked);
        }
        self.set_active_cell(row, col, marked);
        let ghost put = self@;
        let ghost table = self.combining@;
        let fresh = vec![c];
        assert(fresh@ =~= seq![c]);
        self.combining.push(fresh);
        assert(seqops::views(self.combining@) =~= seqops::views(table).push(seq![c]));
        assert(self@ == GridView { combining: put.combining.push(seq![c]), ..put });
    }

    /// Adds a mark to a table entry.
    fn stack_mark(&mut self, k: usize, c: char)
        requires
            k < old(self).combining@.len(),
        ensures
            final(self)@ == (GridView {
                combining: old(self)@.combining.update(
                    k as int,
                    old(self)@.combining[k as int].push(c),
                ),
                ..old(self)@
            }),
    {
        let ghost table = self.combining@;
        self.combining[k].push(c);
        assert(seqops::views(self.combining@) =~= seqops::views(table).update(
            k as int,
            seqops::views(table)[k as int].push(c),
        ));
    }

    fn wrap_now(&mut self)
        requires
            old(self).wf(),
        ensures
            final(self)@ == old(self)@.wrap_now(),
            final(self).wf(),
    {
        proof {
            reveal(GridView::wrap_now);
        }
        if self.wrap_pending {
            self.wrap_pending = false;
            self.cursor_col = 0;
            assert(self@ == GridView { wrap_pending: false, cursor_col: 0, ..old(self)@ });
            self.linefeed();
        }
    }

    fn wrap_wide(&mut self, w: usize)
        requires
            old(self).wf(),
        ensures
            final(self)@ == old(self)@.wrap_wide(w as int),
            final(self).wf(),
    {
        proof {
            reveal(GridView::wrap_wide);
        }
        if w == 2 && (self.cols <= 1 || self.cursor_col >= self.cols - 1) {
            self.cursor_col = 0;
            assert(self@ == GridView { cursor_col: 0, ..old(self)@ });
            self.linefeed();
        }
    }

    /// The glyph is shifted in before the cells at the cursor.
    fn place_inserted(&mut self, c: char, w: usize)
        requires
            old(self).wf(),
            old(self).insert_mode,
            w <= 3,
        ensures
            final(self)@ == old(self)@.place(c, w as int),
    {
        proof {
            reveal(GridView::place);
        }
        let row: usize = self.cursor_row;
        let col: usize = self.cursor_col;
        let cols: usize = self.cols;
        let cell = self.current_cell_for_print(c, w);
        let cont = self.continuation_cell();
        let ghost before = self@.active();
        let ghost width = self.cols as int;
        proof {
            if row < before.len() {
                grid_laws::lemma_rectangle_row(before, width, row as int);
            }
        }
        let s = self.active_mut();
        if row < s.len() {
            if col < s[row].len() {
                let ghost r = before[row as int];
                if w == 2 {
                    row_open_gap(s, row, col, cols, 2, cont);
                    assert(seqops::views(s@).len() == before.len());
                    assert(seqops::views(s@)[row as int] == s@[row as int]@);
                    let ghost opened = seqops::views(s@);
                    row_set(s, row, col, cell);
                    assert(seqops::views(s@) =~= before.update(
                        row as int,
                        opened[row as int].update(col as int, cell),
                    ));
                } else {
                    row_open_gap(s, row, col, cols, 1, cell);
                }
            }
        }
    }

    /// The glyph overwrites the cells at the cursor.
    fn place_over(&mut self, c: char, w: usize)
        requires
            old(self).wf(),
            !old(self).insert_mode,
            w <= 3,
        ensures
            final(self)@ == old(self)@.place(c, w as int),
    {
        proof {
            reveal(GridView::place);
            grid_laws::lemma_clear_orphans_wf(
                self@,
                self.cursor_row as int,
                self.cursor_col as int,
                w as int,
            );
        }
        let row: usize = self.cursor_row;
        let col: usize = self.cursor_col;
        let cell = self.current_cell_for_print(c, w);
        let cont = self.continuation_cell();
        self.clear_orphans_at(row, col, w);
        proof {
            grid_laws::lemma_set_cell_wf(self@, row as int, col as int, cell);
        }
        self.set_active_cell(row, col, cell);
        if w == 2 && self.cols > 1 && col < self.cols - 1 {
            self.set_active_cell(row, col + 1, cont);
        }
    }

    fn place(&mut self, c: char, w: usize)
        requires
            old(self).wf(),
            w <= 3,
        ensures
            final(self)@ == old(self)@.place(c, w as int),
            final(self).wf(),
    {
        proof {
            grid_laws::lemma_place_wf(self@, c, w as int);
        }
        if self.insert_mode {
            self.place_inserted(c, w);
        } else {
            self.place_over(c, w);
        }
    }

    fn finish_print(&mut self, c: char, w: usize)
        requires
            old(self).wf(),
        ensures
            final(self)@ == (GridView { last_printed: Some(c), ..old(self)@ }).advance(w as int),
            final(self).wf(),
    {
        self.last_printed = Some(c);
        assert(self@ == GridView { last_printed: Some(c), ..old(self)@ });
        self.advance_cursor_after_print(w);
    }

    /// Places one glyph of width `w` at the cursor and advances.
    pub(crate) fn put_char(&mut self, c: char, w: usize)
        requires
            old(self).wf(),
            w <= 3,
        ensures
            final(self)@ == old(self)@.put_char(c, w as int),
            final(self).wf(),
    {
        proof {
            reveal(GridView::put_char);
        }
        self.wrap_now();
        self.wrap_wide(w);
        self.place(c, w);
        self.finish_print(c, w);
    }

    /// Prints a character.
    pub fn print(&mut self, c: char)
        requires
            old(self).wf(),
        ensures
            final(self)@ == old(self)@.print(c),
            final(self).wf(),
    {
        proof {
            reveal(GridView::print);
        }
        self.blocks.on_print(c);
        assert(self@ == GridView { blocks: old(self)@.blocks.print(c), ..old(self)@ });
        let w: usize = match char_width(c) {
            Some(w) => w,
            None => 1,
        };
        if w == 0 {
            self.combine_into_previous(c);
        } else {
            self.put_char(c, w);
        }
    }
}

} // verus!
