//! What each control sequence does, cell by cell.
//!
//! A sequence is given as the event that the parser reads. The laws name the
//! cells that change, what they hold then, and that nothing else does.
use crate::grid_laws;
use crate::grid_model::GridView;
use crate::pane_snapshot::{Cell, CellAttrs};
use crate::vt::VtEventView;
use vstd::prelude::*;

verus! {

/// The event of a control sequence.
pub open spec fn sequence(
    params: Seq<Seq<u16>>,
    intermediates: Seq<u8>,
    action: char,
) -> VtEventView {
    VtEventView::Csi { params, intermediates, action }
}

/// A sequence is neither private (its first intermediate is none of `<=>?`) nor
/// the soft reset.
pub open spec fn ordinary(intermediates: Seq<u8>, action: char) -> bool {
    &&& intermediates.len() > 0 ==> intermediates[0] < 0x3c || intermediates[0] > 0x3f
    &&& action != 'p'
}

/// The number at the head of a parameter, or another where it is left out.
pub open spec fn number(params: Seq<Seq<u16>>, i: int, left_out: int) -> int {
    if i < params.len() && params[i].len() > 0 {
        params[i][0] as int
    } else {
        left_out
    }
}

/// A count: none, and a zero, stand for one.
pub open spec fn count(params: Seq<Seq<u16>>) -> int {
    if number(params, 0, 0) == 0 {
        1
    } else {
        number(params, 0, 0)
    }
}

/// The cell that a pane shows at a place.
pub open spec fn shown(v: GridView, r: int, c: int) -> Cell {
    if v.alt_active {
        v.alternate[r][c]
    } else {
        v.primary[r][c]
    }
}

/// A space in the colours of the pen.
pub open spec fn pen_blank(v: GridView) -> Cell {
    Cell {
        ch: ' ',
        fg: v.pen.fg,
        bg: v.pen.bg,
        attrs: CellAttrs { bits: 0 },
        width: 1,
        combining: 0,
    }
}

/// Nothing but cells of the screen that is shown differs, and a deferred wrap is
/// dropped.
pub open spec fn only_cells_differ(v: GridView, w: GridView) -> bool {
    &&& w == (GridView {
        primary: w.primary,
        alternate: w.alternate,
        wrap_pending: false,
        ..v
    })
    &&& v.alt_active ==> w.primary == v.primary && w.alternate.len() == v.alternate.len()
    &&& !v.alt_active ==> w.alternate == v.alternate && w.primary.len() == v.primary.len()
}

/// Nothing but the place of the cursor differs, and a deferred wrap is dropped.
pub open spec fn only_the_cursor_moves(v: GridView, w: GridView) -> bool {
    w == (GridView {
        cursor_row: w.cursor_row,
        cursor_col: w.cursor_col,
        wrap_pending: false,
        ..v
    })
}

/// `n` held within a pane's last place either way.
pub open spec fn held(n: int, size: int) -> int {
    if n < 0 {
        0
    } else if n >= size {
        size - 1
    } else {
        n
    }
}

/// A pane without a deferred wrap.
pub open spec fn unwrapped(v: GridView) -> GridView {
    GridView { wrap_pending: false, ..v }
}

/// A sequence that is neither private nor a soft reset is carried out with the
/// deferred wrap dropped.
pub(crate) proof fn lemma_ordinary_sequence(
    v: GridView,
    params: Seq<Seq<u16>>,
    intermediates: Seq<u8>,
    action: char,
    now: u64,
)
    requires
        ordinary(intermediates, action),
        action != 'm',
    ensures
        v.perform(sequence(params, intermediates, action), now) == unwrapped(v).standard_csi(
            params,
            action,
        ),
{
    reveal(GridView::perform);
    reveal(GridView::csi);
}

/// Two panes differ in nothing but cells of the screen that is shown.
spec fn cells_alone(v: GridView, w: GridView) -> bool {
    &&& w == (GridView { primary: w.primary, alternate: w.alternate, ..v })
    &&& v.alt_active ==> w.primary == v.primary && w.alternate.len() == v.alternate.len()
    &&& !v.alt_active ==> w.alternate == v.alternate && w.primary.len() == v.primary.len()
}

proof fn lemma_part_of_line(v: GridView, from: int, to: int, r: int, c: int)
    requires
        v.wf(),
        0 <= r < v.rows,
        0 <= c < v.cols,
    ensures
        cells_alone(v, v.erase_in_line(from, to)),
        shown(v.erase_in_line(from, to), r, c) == if r == v.cursor_row && from <= c < to {
            pen_blank(v)
        } else {
            shown(v, r, c)
        },
        v.erase_in_line(from, to).wf(),
{
    reveal(GridView::erase_in_line);
    grid_laws::lemma_erase_in_line_wf(v, from, to);
    grid_laws::lemma_rectangle_row(v.active(), v.cols, r);
    grid_laws::lemma_rectangle_row(v.active(), v.cols, v.cursor_row);
}

proof fn lemma_whole_rows(v: GridView, from: int, to: int, r: int, c: int)
    requires
        v.wf(),
        0 <= r < v.rows,
        0 <= c < v.cols,
    ensures
        cells_alone(v, v.erase_rows(from, to)),
        shown(v.erase_rows(from, to), r, c) == if from <= r < to {
            pen_blank(v)
        } else {
            shown(v, r, c)
        },
        v.erase_rows(from, to).wf(),
{
    reveal(GridView::erase_rows);
    grid_laws::lemma_erase_rows_wf(v, from, to);
    grid_laws::lemma_rectangle_row(v.active(), v.cols, r);
}

proof fn lemma_below(u: GridView, r: int, c: int)
    requires
        u.wf(),
        0 <= r < u.rows,
        0 <= c < u.cols,
    ensures
        cells_alone(u, u.erase_below_cursor()),
        shown(u.erase_below_cursor(), r, c) == if r > u.cursor_row || r == u.cursor_row && c
            >= u.cursor_col {
            pen_blank(u)
        } else {
            shown(u, r, c)
        },
{
    reveal(GridView::erase_below_cursor);
    lemma_part_of_line(u, u.cursor_col, u.cols, r, c);
    let tail = u.erase_in_line(u.cursor_col, u.cols);
    lemma_whole_rows(tail, u.cursor_row + 1, u.rows, r, c);
}

proof fn lemma_above(u: GridView, r: int, c: int)
    requires
        u.wf(),
        0 <= r < u.rows,
        0 <= c < u.cols,
    ensures
        cells_alone(u, u.erase_above_cursor()),
        shown(u.erase_above_cursor(), r, c) == if r < u.cursor_row || r == u.cursor_row && c
            <= u.cursor_col {
            pen_blank(u)
        } else {
            shown(u, r, c)
        },
{
    reveal(GridView::erase_above_cursor);
    lemma_whole_rows(u, 0, u.cursor_row, r, c);
    let head = u.erase_rows(0, u.cursor_row);
    lemma_part_of_line(head, 0, head.cursor_col + 1, r, c);
}

/// `CSI K` erases within the cursor's row: from the cursor to the end without a
/// number or with `0`, from the start through the cursor with `1`, all of it with
/// `2`, and nothing with any other. An erased cell is a blank of the pen, and every
/// other cell, of that row and of all others, is what it was.
pub proof fn lemma_erase_in_line(
    v: GridView,
    params: Seq<Seq<u16>>,
    intermediates: Seq<u8>,
    now: u64,
    r: int,
    c: int,
)
    requires
        v.wf(),
        ordinary(intermediates, 'K'),
        0 <= r < v.rows,
        0 <= c < v.cols,
    ensures
        ({
            let w = v.perform(sequence(params, intermediates, 'K'), now);
            let how = number(params, 0, 0);
            let erased = r == v.cursor_row && (how == 0 && c >= v.cursor_col || how == 1 && c
                <= v.cursor_col || how == 2);
            &&& only_cells_differ(v, w)
            &&& shown(w, r, c) == if erased {
                pen_blank(v)
            } else {
                shown(v, r, c)
            }
        }),
{
    let u = unwrapped(v);
    lemma_ordinary_sequence(v, params, intermediates, 'K', now);
    let how = number(params, 0, 0);
    assert(u.standard_csi(params, 'K') == if how == 0 {
        u.erase_in_line(v.cursor_col, v.cols)
    } else if how == 1 {
        u.erase_in_line(0, v.cursor_col + 1)
    } else if how == 2 {
        u.erase_in_line(0, v.cols)
    } else {
        u
    }) by {
        reveal(GridView::standard_csi);
    }
    lemma_part_of_line(u, v.cursor_col, v.cols, r, c);
    lemma_part_of_line(u, 0, v.cursor_col + 1, r, c);
    lemma_part_of_line(u, 0, v.cols, r, c);
}

/// `CSI J` erases whole rows and part of the cursor's: from the cursor to the end
/// of the screen without a number or with `0`, from the start through the cursor
/// with `1`, everything with `2` or `3`, and nothing with any other.
pub proof fn lemma_erase_in_display(
    v: GridView,
    params: Seq<Seq<u16>>,
    intermediates: Seq<u8>,
    now: u64,
    r: int,
    c: int,
)
    requires
        v.wf(),
        ordinary(intermediates, 'J'),
        0 <= r < v.rows,
        0 <= c < v.cols,
    ensures
        ({
            let w = v.perform(sequence(params, intermediates, 'J'), now);
            let how = number(params, 0, 0);
            let after = r > v.cursor_row || r == v.cursor_row && c >= v.cursor_col;
            let before = r < v.cursor_row || r == v.cursor_row && c <= v.cursor_col;
            let erased = how == 0 && after || how == 1 && before || how == 2 || how == 3;
            &&& only_cells_differ(v, w)
            &&& shown(w, r, c) == if erased {
                pen_blank(v)
            } else {
                shown(v, r, c)
            }
        }),
{
    let u = unwrapped(v);
    lemma_ordinary_sequence(v, params, intermediates, 'J', now);
    let how = number(params, 0, 0);
    assert(u.standard_csi(params, 'J') == if how == 0 {
        u.erase_below_cursor()
    } else if how == 1 {
        u.erase_above_cursor()
    } else if how == 2 || how == 3 {
        u.erase_rows(0, v.rows)
    } else {
        u
    }) by {
        reveal(GridView::standard_csi);
    }
    if how == 0 {
        lemma_below(u, r, c);
    } else if how == 1 {
        lemma_above(u, r, c);
    } else {
        lemma_whole_rows(u, 0, v.rows, r, c);
    }
}

/// `CSI X` erases that many cells from the cursor on, within its row.
pub proof fn lemma_erase_characters(
    v: GridView,
    params: Seq<Seq<u16>>,
    intermediates: Seq<u8>,
    now: u64,
    r: int,
    c: int,
)
    requires
        v.wf(),
        ordinary(intermediates, 'X'),
        0 <= r < v.rows,
        0 <= c < v.cols,
    ensures
        ({
            let w = v.perform(sequence(params, intermediates, 'X'), now);
            let erased = r == v.cursor_row && v.cursor_col <= c < v.cursor_col + count(params);
            &&& only_cells_differ(v, w)
            &&& shown(w, r, c) == if erased {
                pen_blank(v)
            } else {
                shown(v, r, c)
            }
        }),
{
    let u = unwrapped(v);
    lemma_ordinary_sequence(v, params, intermediates, 'X', now);
    let n = count(params);
    assert(u.standard_csi(params, 'X') == u.erase_in_line(v.cursor_col, v.cursor_col + n)) by {
        reveal(GridView::standard_csi);
        reveal(GridView::erase_cells);
    }
    lemma_part_of_line(u, v.cursor_col, v.cursor_col + n, r, c);
}

/// `CSI @` pushes the cells of the cursor's row from the cursor on to the right,
/// over the edge where they do not fit, and leaves blanks of the pen behind.
pub proof fn lemma_insert_characters(
    v: GridView,
    params: Seq<Seq<u16>>,
    intermediates: Seq<u8>,
    now: u64,
    r: int,
    c: int,
)
    requires
        v.wf(),
        ordinary(intermediates, '@'),
        0 <= r < v.rows,
        0 <= c < v.cols,
    ensures
        ({
            let w = v.perform(sequence(params, intermediates, '@'), now);
            let n = count(params);
            &&& only_cells_differ(v, w)
            &&& shown(w, r, c) == if r != v.cursor_row || c < v.cursor_col {
                shown(v, r, c)
            } else if c < v.cursor_col + n {
                pen_blank(v)
            } else {
                shown(v, r, c - n)
            }
        }),
{
    let u = unwrapped(v);
    lemma_ordinary_sequence(v, params, intermediates, '@', now);
    assert(u.standard_csi(params, '@') == u.insert_cells(count(params))) by {
        reveal(GridView::standard_csi);
    }
    reveal(GridView::insert_cells);
    grid_laws::lemma_rectangle_row(v.active(), v.cols, r);
    grid_laws::lemma_rectangle_row(v.active(), v.cols, v.cursor_row);
}

/// `CSI P` takes cells out at the cursor: those behind them in the row close up,
/// and blanks of the pen come in at its end.
pub proof fn lemma_delete_characters(
    v: GridView,
    params: Seq<Seq<u16>>,
    intermediates: Seq<u8>,
    now: u64,
    r: int,
    c: int,
)
    requires
        v.wf(),
        ordinary(intermediates, 'P'),
        0 <= r < v.rows,
        0 <= c < v.cols,
    ensures
        ({
            let w = v.perform(sequence(params, intermediates, 'P'), now);
            let n = count(params);
            &&& only_cells_differ(v, w)
            &&& shown(w, r, c) == if r != v.cursor_row || c < v.cursor_col {
                shown(v, r, c)
            } else if c + n < v.cols {
                shown(v, r, c + n)
            } else {
                pen_blank(v)
            }
        }),
{
    let u = unwrapped(v);
    lemma_ordinary_sequence(v, params, intermediates, 'P', now);
    assert(u.standard_csi(params, 'P') == u.delete_cells(count(params))) by {
        reveal(GridView::standard_csi);
    }
    reveal(GridView::delete_cells);
    grid_laws::lemma_rectangle_row(v.active(), v.cols, r);
    grid_laws::lemma_rectangle_row(v.active(), v.cols, v.cursor_row);
}

/// `CSI L` pushes the rows from the cursor's to the bottom margin down, and blank
/// rows of the pen come in at the cursor's. Below the bottom margin it does
/// nothing.
pub proof fn lemma_insert_lines(
    v: GridView,
    params: Seq<Seq<u16>>,
    intermediates: Seq<u8>,
    now: u64,
    r: int,
    c: int,
)
    requires
        v.wf(),
        ordinary(intermediates, 'L'),
        0 <= r < v.rows,
        0 <= c < v.cols,
    ensures
        ({
            let w = v.perform(sequence(params, intermediates, 'L'), now);
            let n = count(params);
            &&& only_cells_differ(v, w)
            &&& shown(w, r, c) == if r < v.cursor_row || r > v.scroll_bottom {
                shown(v, r, c)
            } else if r < v.cursor_row + n {
                pen_blank(v)
            } else {
                shown(v, r - n, c)
            }
        }),
{
    let u = unwrapped(v);
    lemma_ordinary_sequence(v, params, intermediates, 'L', now);
    assert(u.standard_csi(params, 'L') == u.insert_lines(count(params))) by {
        reveal(GridView::standard_csi);
    }
    reveal(GridView::insert_lines);
    grid_laws::lemma_rectangle_row(v.active(), v.cols, r);
}

/// `CSI M` takes rows out at the cursor's: those behind them up to the bottom
/// margin close up, and blank rows of the pen come in there. Below the bottom
/// margin it does nothing.
pub proof fn lemma_delete_lines(
    v: GridView,
    params: Seq<Seq<u16>>,
    intermediates: Seq<u8>,
    now: u64,
    r: int,
    c: int,
)
    requires
        v.wf(),
        ordinary(intermediates, 'M'),
        0 <= r < v.rows,
        0 <= c < v.cols,
    ensures
        ({
            let w = v.perform(sequence(params, intermediates, 'M'), now);
            let n = count(params);
            &&& only_cells_differ(v, w)
            &&& shown(w, r, c) == if r < v.cursor_row || r > v.scroll_bottom {
                shown(v, r, c)
            } else if r + n <= v.scroll_bottom {
                shown(v, r + n, c)
            } else {
                pen_blank(v)
            }
        }),
{
    let u = unwrapped(v);
    lemma_ordinary_sequence(v, params, intermediates, 'M', now);
    assert(u.standard_csi(params, 'M') == u.delete_lines(count(params))) by {
        reveal(GridView::standard_csi);
    }
    reveal(GridView::delete_lines);
    grid_laws::lemma_rectangle_row(v.active(), v.cols, r);
}

/// `CSI T` moves the rows between the margins down, and blank rows of the pen come
/// in at the top margin.
pub proof fn lemma_scroll_down_by(
    v: GridView,
    params: Seq<Seq<u16>>,
    intermediates: Seq<u8>,
    now: u64,
    r: int,
    c: int,
)
    requires
        v.wf(),
        ordinary(intermediates, 'T'),
        v.scroll_top <= v.scroll_bottom,
        0 <= r < v.rows,
        0 <= c < v.cols,
    ensures
        ({
            let w = v.perform(sequence(params, intermediates, 'T'), now);
            let n = count(params);
            &&& only_cells_differ(v, w)
            &&& shown(w, r, c) == if r < v.scroll_top || r > v.scroll_bottom {
                shown(v, r, c)
            } else if r < v.scroll_top + n {
                pen_blank(v)
            } else {
                shown(v, r - n, c)
            }
        }),
{
    let u = unwrapped(v);
    lemma_ordinary_sequence(v, params, intermediates, 'T', now);
    assert(u.standard_csi(params, 'T') == u.scroll_down(count(params))) by {
        reveal(GridView::standard_csi);
    }
    reveal(GridView::scroll_down);
    grid_laws::lemma_rectangle_row(v.active(), v.cols, r);
}

/// The relative moves: `A` and `F` go up, `B` and `E` down, `C` right and `D`
/// left, each by the count and no further than the edge; `E` and `F` also go to
/// the first column. Only the cursor moves.
pub proof fn lemma_relative_moves(
    v: GridView,
    params: Seq<Seq<u16>>,
    intermediates: Seq<u8>,
    now: u64,
    action: char,
)
    requires
        v.wf(),
        v.rows > 0,
        v.cols > 0,
        ordinary(intermediates, action),
        action == 'A' || action == 'B' || action == 'C' || action == 'D' || action == 'E' || action
            == 'F',
    ensures
        ({
            let w = v.perform(sequence(params, intermediates, action), now);
            let n = count(params);
            let down = if action == 'A' || action == 'F' {
                -n
            } else if action == 'B' || action == 'E' {
                n
            } else {
                0
            };
            let right = if action == 'C' {
                n
            } else if action == 'D' {
                -n
            } else {
                0
            };
            &&& only_the_cursor_moves(v, w)
            &&& w.cursor_row == held(v.cursor_row + down, v.rows)
            &&& w.cursor_col == if action == 'E' || action == 'F' {
                0
            } else {
                held(v.cursor_col + right, v.cols)
            }
        }),
{
    let u = unwrapped(v);
    lemma_ordinary_sequence(v, params, intermediates, action, now);
    let n = count(params);
    let at = if action == 'E' || action == 'F' {
        GridView { cursor_col: 0, ..u }
    } else {
        u
    };
    let down = if action == 'A' || action == 'F' {
        -n
    } else if action == 'B' || action == 'E' {
        n
    } else {
        0
    };
    let right = if action == 'C' {
        n
    } else if action == 'D' {
        -n
    } else {
        0
    };
    assert(u.standard_csi(params, action) == at.cursor_move(down, right)) by {
        reveal(GridView::standard_csi);
    }
    reveal(GridView::cursor_move);
}

/// The absolute moves count from one: `H` and `f` go to a row and a column, `d` to
/// a row and `G` to a column. A number that is left out, and a zero, stand for
/// one, and one past the edge for the edge. Only the cursor moves.
pub proof fn lemma_absolute_moves(
    v: GridView,
    params: Seq<Seq<u16>>,
    intermediates: Seq<u8>,
    now: u64,
    action: char,
)
    requires
        v.wf(),
        v.rows > 0,
        v.cols > 0,
        ordinary(intermediates, action),
        action == 'H' || action == 'f' || action == 'd' || action == 'G',
    ensures
        ({
            let w = v.perform(sequence(params, intermediates, action), now);
            let row = if action == 'G' {
                v.cursor_row
            } else {
                number(params, 0, 1) - 1
            };
            let col = if action == 'd' {
                v.cursor_col
            } else if action == 'G' {
                number(params, 0, 1) - 1
            } else {
                number(params, 1, 1) - 1
            };
            &&& only_the_cursor_moves(v, w)
            &&& w.cursor_row == held(row, v.rows)
            &&& w.cursor_col == held(col, v.cols)
        }),
{
    let u = unwrapped(v);
    lemma_ordinary_sequence(v, params, intermediates, action, now);
    let row = if action == 'G' {
        v.cursor_row
    } else if number(params, 0, 1) < 1 {
        0
    } else {
        number(params, 0, 1) - 1
    };
    let n = if action == 'G' {
        number(params, 0, 1)
    } else {
        number(params, 1, 1)
    };
    let col = if action == 'd' {
        v.cursor_col
    } else if n < 1 {
        0
    } else {
        n - 1
    };
    assert(u.standard_csi(params, action) == u.cursor_set(row, col)) by {
        reveal(GridView::standard_csi);
    }
    reveal(GridView::cursor_set);
}

/// `CSI r` sets the margins, counted from one, the first row and the last where a
/// number is left out, and the cursor goes to the first cell of the screen.
pub proof fn lemma_margins_are_set(
    v: GridView,
    params: Seq<Seq<u16>>,
    intermediates: Seq<u8>,
    now: u64,
)
    requires
        v.wf(),
        v.rows > 0,
        ordinary(intermediates, 'r'),
    ensures
        v.perform(sequence(params, intermediates, 'r'), now) == (GridView {
            scroll_top: held(number(params, 0, 1) - 1, v.rows),
            scroll_bottom: held(number(params, 1, v.rows) - 1, v.rows),
            cursor_row: 0,
            cursor_col: 0,
            wrap_pending: false,
            ..v
        }),
{
    let u = unwrapped(v);
    lemma_ordinary_sequence(v, params, intermediates, 'r', now);
    assert(u.standard_csi(params, 'r') == u.set_margins(params)) by {
        reveal(GridView::standard_csi);
    }
    reveal(GridView::set_margins);
    reveal(GridView::cursor_set);
}

/// `CSI s` and `ESC 7` put the place of the cursor and the pen aside; `CSI u` and
/// `ESC 8` bring them back as they were put aside, held within the screen, and do
/// nothing where nothing was.
pub proof fn lemma_cursor_is_put_aside_and_brought_back(
    v: GridView,
    params: Seq<Seq<u16>>,
    intermediates: Seq<u8>,
    now: u64,
)
    requires
        v.wf(),
        v.rows > 0,
        v.cols > 0,
        v.rows <= usize::MAX,
        v.cols <= usize::MAX,
        ordinary(intermediates, 's'),
    ensures
        ({
            let put = v.perform(sequence(params, intermediates, 's'), now);
            let back = v.perform(sequence(params, intermediates, 'u'), now);
            let plain = GridView { wrap_pending: false, ..v };
            &&& put == (GridView { saved: put.saved, ..plain })
            &&& put.saved is Some
            &&& put.saved->0.row == v.cursor_row
            &&& put.saved->0.col == v.cursor_col
            &&& put.saved->0.pen == v.pen
            &&& v.perform(VtEventView::Esc(0x37), now) == (GridView { saved: put.saved, ..v })
            &&& v.perform(VtEventView::Esc(0x38), now) == back
            &&& v.saved is None ==> back == plain
            &&& v.saved matches Some(s) ==> back == (GridView {
                cursor_row: held(s.row as int, v.rows),
                cursor_col: held(s.col as int, v.cols),
                pen: s.pen,
                ..plain
            })
        }),
{
    let u = unwrapped(v);
    lemma_ordinary_sequence(v, params, intermediates, 's', now);
    lemma_ordinary_sequence(v, params, intermediates, 'u', now);
    assert(u.standard_csi(params, 's') == u.save_cursor()) by {
        reveal(GridView::standard_csi);
    }
    assert(u.standard_csi(params, 'u') == u.restore_cursor()) by {
        reveal(GridView::standard_csi);
    }
    assert(v.perform(VtEventView::Esc(0x37), now) == v.save_cursor()) by {
        reveal(GridView::perform);
        reveal(GridView::esc);
    }
    assert(v.perform(VtEventView::Esc(0x38), now) == u.restore_cursor()) by {
        reveal(GridView::perform);
        reveal(GridView::esc);
    }
    reveal(GridView::save_cursor);
    reveal(GridView::restore_cursor);
}

/// `CSI 4 h` makes glyphs push what is behind them aside, and `CSI 4 l` makes them
/// overwrite it; no other number of either does anything, nor does any other
/// letter that no sequence has.
pub proof fn lemma_insert_mode_is_switched(
    v: GridView,
    params: Seq<Seq<u16>>,
    intermediates: Seq<u8>,
    now: u64,
    on: bool,
)
    requires
        ordinary(intermediates, 'h'),
    ensures
        ({
            let w = v.perform(
                sequence(
                    params,
                    intermediates,
                    if on {
                        'h'
                    } else {
                        'l'
                    },
                ),
                now,
            );
            let named = exists|i: int|
                0 <= i < params.len() && (#[trigger] params[i]).len() > 0 && params[i][0] == 4;
            w == (GridView {
                insert_mode: if named {
                    on
                } else {
                    v.insert_mode
                },
                wrap_pending: false,
                ..v
            })
        }),
{
    lemma_ordinary_sequence(v, params, intermediates, 'h', now);
    lemma_ordinary_sequence(v, params, intermediates, 'l', now);
    reveal(GridView::standard_csi);
}

/// A final character that no sequence has does nothing but drop a deferred wrap.
pub proof fn lemma_unknown_sequences_do_nothing(
    v: GridView,
    params: Seq<Seq<u16>>,
    intermediates: Seq<u8>,
    now: u64,
    action: char,
)
    requires
        ordinary(intermediates, action),
        !seq![
            'A', 'B', 'C', 'D', 'E', 'F', 'G', 'H', 'J', 'K', 'L', 'M', 'P', 'S', 'T', 'X', '@',
            'b', 'c', 'd', 'f', 'h', 'l', 'm', 'n', 'r', 's', 'u',
        ].contains(action),
    ensures
        v.perform(sequence(params, intermediates, action), now) == (GridView {
            wrap_pending: false,
            ..v
        }),
{
    lemma_ordinary_sequence(v, params, intermediates, action, now);
    reveal(GridView::standard_csi);
    let known = seq![
        'A', 'B', 'C', 'D', 'E', 'F', 'G', 'H', 'J', 'K', 'L', 'M', 'P', 'S', 'T', 'X', '@',
        'b', 'c', 'd', 'f', 'h', 'l', 'm', 'n', 'r', 's', 'u',
    ];
    assert forall|i: int| 0 <= i < known.len() implies action != #[trigger] known[i] by {
        assert(known.contains(known[i]));
    }
    assert(known[0] == 'A' && known[1] == 'B' && known[2] == 'C' && known[3] == 'D');
    assert(known[4] == 'E' && known[5] == 'F' && known[6] == 'G' && known[7] == 'H');
    assert(known[8] == 'J' && known[9] == 'K' && known[10] == 'L' && known[11] == 'M');
    assert(known[12] == 'P' && known[13] == 'S' && known[14] == 'T' && known[15] == 'X');
    assert(known[16] == '@' && known[17] == 'b' && known[18] == 'c' && known[19] == 'd');
    assert(known[20] == 'f' && known[21] == 'h' && known[22] == 'l' && known[23] == 'm');
    assert(known[24] == 'n' && known[25] == 'r' && known[26] == 's' && known[27] == 'u');
}

} // verus!
