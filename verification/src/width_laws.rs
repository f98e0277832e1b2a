//! Double-width glyphs stand whole: a lead of two columns and the empty cell
//! right after it.
use crate::grid_laws;
use crate::grid_model::GridView;
use crate::pane_snapshot::Cell;
use crate::seqops;
use crate::vt;
use vstd::prelude::*;

verus! {

/// A cell is of no width exactly right after a lead of two columns.
pub open spec fn cell_paired(row: Seq<Cell>, j: int) -> bool {
    (row[j].width == 0) == (j > 0 && row[j - 1].width == 2)
}

/// Every glyph of a row stands whole in it.
pub open spec fn paired_row(row: Seq<Cell>) -> bool {
    &&& forall|j: int| 0 <= j < row.len() ==> #[trigger] cell_paired(row, j)
    &&& row.len() > 0 ==> row.last().width != 2
}

/// Every glyph of a screen stands whole in its row.
pub open spec fn paired(rows: Seq<Seq<Cell>>) -> bool {
    forall|i: int| 0 <= i < rows.len() ==> paired_row(#[trigger] rows[i])
}

/// Where the next glyph of width `w` is put: the cursor, after the wraps that
/// come first.
pub open spec fn landing(v: GridView, w: int) -> (int, int) {
    let b = v.wrap_now().wrap_wide(w);
    (b.cursor_row, b.cursor_col)
}

/// A row with a glyph of width `w` put at `col`, and the halves that this
/// orphans blanked.
pub open spec fn placed_row(r: Seq<Cell>, col: int, w: int, lead: Cell, tail: Cell) -> Seq<Cell> {
    let left = if col > 0 && r[col].width == 0 {
        r.update(col - 1, Cell::blank())
    } else {
        r
    };
    let last = col + w - 1;
    let clear = if left[last].width == 2 && last + 1 < r.len() {
        left.update(last + 1, Cell::blank())
    } else {
        left
    };
    if w == 2 {
        clear.update(col, lead).update(col + 1, tail)
    } else {
        clear.update(col, lead)
    }
}

proof fn lemma_placed_row_is_paired(r: Seq<Cell>, col: int, w: int, lead: Cell, tail: Cell)
    requires
        paired_row(r),
        w == 1 || w == 2,
        0 <= col,
        col + w <= r.len(),
        lead.width == w,
        tail.width == 0,
    ensures
        paired_row(placed_row(r, col, w, lead, tail)),
        placed_row(r, col, w, lead, tail).len() == r.len(),
        placed_row(r, col, w, lead, tail)[col] == lead,
        w == 2 ==> placed_row(r, col, w, lead, tail)[col + 1] == tail,
{
    let p = placed_row(r, col, w, lead, tail);
    assert(cell_paired(r, col));
    assert(col > 0 ==> cell_paired(r, col - 1));
    assert(col + 1 < r.len() ==> cell_paired(r, col + 1));
    assert(col + 2 < r.len() ==> cell_paired(r, col + 2));
    assert(col + 3 < r.len() ==> cell_paired(r, col + 3));
    assert(r.last() == r[r.len() - 1]);
    assert forall|j: int| 0 <= j < p.len() implies #[trigger] cell_paired(p, j) by {
        assert(cell_paired(r, j));
    }
    assert(p.last() == p[p.len() - 1]);
}

proof fn lemma_blank_line_is_paired(v: GridView)
    requires
        0 <= v.cols,
    ensures
        paired_row(v.blank_line()),
{
    let line = v.blank_line();
    assert forall|j: int| 0 <= j < line.len() implies #[trigger] cell_paired(line, j) by {}
}

proof fn lemma_linefeed_keeps_pairs(v: GridView)
    requires
        v.wf(),
        paired(v.active()),
    ensures
        paired(v.linefeed().active()),
        v.linefeed().insert_mode == v.insert_mode,
        v.linefeed().cursor_col == v.cursor_col,
        v.linefeed().cols == v.cols,
{
    reveal(GridView::linefeed);
    reveal(GridView::scroll_region_up);
    lemma_blank_line_is_paired(v);
}

proof fn lemma_place_keeps_pairs(v: GridView, c: char, w: int)
    requires
        v.wf(),
        v.rows > 0,
        w == 1 || w == 2,
        v.cursor_col + w <= v.cols,
        !v.insert_mode,
        paired(v.active()),
    ensures
        paired(v.place(c, w).active()),
        ({
            let row = v.place(c, w).active()[v.cursor_row];
            &&& row[v.cursor_col].ch == c
            &&& row[v.cursor_col].width == w
            &&& w == 2 ==> row[v.cursor_col + 1].width == 0
        }),
{
    let row = v.cursor_row;
    let col = v.cursor_col;
    let r = v.active()[row];
    let lead = v.print_cell(c, w);
    let tail = v.continuation_cell();
    let p = placed_row(r, col, w, lead, tail);
    grid_laws::lemma_rectangle_row(v.active(), v.cols, row);
    lemma_placed_row_is_paired(r, col, w, lead, tail);
    assert(v.place(c, w).active() =~= v.active().update(row, p)) by {
        reveal(GridView::place);
        reveal(GridView::clear_orphans);
        reveal(GridView::set_cell);
    }
}

/// Printing a glyph outside insert mode keeps every glyph of the screen whole,
/// on a screen of two columns at least: the halves that it overwrites go with
/// their other halves, and the glyph itself stands whole in one row.
pub proof fn lemma_a_glyph_is_put_whole(v: GridView, c: char, w: int)
    requires
        v.wf(),
        v.rows > 0,
        v.cols >= 2,
        w == 1 || w == 2,
        !v.insert_mode,
        paired(v.active()),
    ensures
        paired(v.put_char(c, w).active()),
        ({
            let (i, j) = landing(v, w);
            let row = v.put_char(c, w).active()[i];
            &&& 0 <= i < v.rows
            &&& 0 <= j
            &&& j + w <= v.cols
            &&& row[j].ch == c
            &&& row[j].width == w
            &&& w == 2 ==> row[j + 1].width == 0
        }),
{
    let a = v.wrap_now();
    let b = a.wrap_wide(w);
    grid_laws::lemma_wrap_wf(v, w);
    grid_laws::lemma_wrap_wf(a, w);
    assert(paired(a.active()) && !a.insert_mode && a.cols == v.cols && a.rows == v.rows) by {
        reveal(GridView::wrap_now);
        lemma_linefeed_keeps_pairs(GridView { wrap_pending: false, cursor_col: 0, ..v });
    }
    assert(paired(b.active()) && !b.insert_mode && b.cols == v.cols && b.rows == v.rows
        && b.cursor_col + w <= b.cols) by {
        reveal(GridView::wrap_wide);
        lemma_linefeed_keeps_pairs(GridView { cursor_col: 0, ..a });
    }
    lemma_place_keeps_pairs(b, c, w);
    grid_laws::lemma_place_wf(b, c, w);
    reveal(GridView::put_char);
    reveal(GridView::advance);
}

/// A fresh screen holds no glyph that is not whole.
pub proof fn lemma_a_fresh_screen_is_whole(cols: int, rows: int, cap: int)
    requires
        0 <= cols,
        0 <= rows,
    ensures
        paired(GridView::start(cols, rows, cap).active()),
{
    let v = GridView::start(cols, rows, cap);
    let row = seqops::repeat(Cell::blank(), cols as nat);
    assert forall|j: int| 0 <= j < row.len() implies #[trigger] cell_paired(row, j) by {}
    assert forall|i: int| 0 <= i < v.active().len() implies paired_row(#[trigger] v.active()[i]) by {
        assert(v.active()[i] == row);
    }
}

proof fn lemma_combine_keeps_pairs(v: GridView, c: char)
    requires
        v.wf(),
        paired(v.active()),
    ensures
        paired(v.combine(c).active()),
{
    reveal(GridView::combine);
    reveal(GridView::set_cell);
    let w = v.combine(c);
    assert forall|i: int| 0 <= i < w.active().len() implies paired_row(#[trigger] w.active()[i]) by {
        let old_row = v.active()[i];
        let row = w.active()[i];
        assert(paired_row(old_row));
        assert(row.len() == old_row.len());
        assert forall|j: int| 0 <= j < row.len() implies row[j].width == old_row[j].width by {}
        assert forall|j: int| 0 <= j < row.len() implies #[trigger] cell_paired(row, j) by {
            assert(cell_paired(old_row, j));
        }
    }
}

/// Printing a character of two columns at most keeps every glyph of the screen
/// whole, outside insert mode.
pub proof fn lemma_printing_keeps_glyphs_whole(v: GridView, c: char)
    requires
        v.wf(),
        v.rows > 0,
        v.cols >= 2,
        !v.insert_mode,
        paired(v.active()),
        vt::char_columns(c) is Some ==> vt::char_columns(c)->0 <= 2,
    ensures
        paired(v.print(c).active()),
{
    reveal(GridView::print);
    let seen = GridView { blocks: v.blocks.print(c), ..v };
    match vt::char_columns(c) {
        Some(w) => if w == 0 {
            lemma_combine_keeps_pairs(seen, c);
        } else {
            lemma_a_glyph_is_put_whole(seen, c, w as int);
        },
        None => {
            lemma_a_glyph_is_put_whole(seen, c, 1);
        },
    }
}

} // verus!
