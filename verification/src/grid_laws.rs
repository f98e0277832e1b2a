//! What holds of a grid whatever happens to it.
use crate::grid_model;
use crate::grid_model::GridView;
use crate::host_role::HostRole;
use crate::pane_snapshot::Cell;
use crate::seqops;
use crate::sgr::Pen;
use crate::vt;
use crate::vt::VtEventView;
use vstd::prelude::*;

verus! {

/// Every row of a rectangle has its width.
pub proof fn lemma_rectangle_row(s: Seq<Seq<Cell>>, cols: int, i: int)
    requires
        grid_model::rectangular(s, cols),
        0 <= i < s.len(),
    ensures
        s[i].len() == cols,
{
    reveal(grid_model::rectangular);
}

/// A row of the width may take the place of any row of a rectangle.
pub proof fn lemma_rectangle_update(s: Seq<Seq<Cell>>, cols: int, i: int, r: Seq<Cell>)
    requires
        grid_model::rectangular(s, cols),
        0 <= i < s.len(),
        r.len() == cols,
    ensures
        grid_model::rectangular(s.update(i, r), cols),
{
    reveal(grid_model::rectangular);
}

/// Blank rows that come in or go out leave a rectangle.
pub proof fn lemma_rectangle_gap(
    s: Seq<Seq<Cell>>,
    cols: int,
    at: int,
    end: int,
    n: int,
    line: Seq<Cell>,
)
    requires
        grid_model::rectangular(s, cols),
        0 <= at,
        end <= s.len(),
        n >= 0,
        line.len() == cols,
    ensures
        grid_model::rectangular(seqops::open_gap(s, at, end, n, line), cols),
        grid_model::rectangular(seqops::close_gap(s, at, end, n, line), cols),
{
    reveal(grid_model::rectangular);
}

/// Filled rows keep their width.
pub proof fn lemma_rectangle_fill(s: Seq<Seq<Cell>>, cols: int, from: int, to: int, fill: Cell)
    requires
        grid_model::rectangular(s, cols),
    ensures
        grid_model::rectangular(grid_model::fill_rows(s, from, to, fill), cols),
{
    reveal(grid_model::rectangular);
}

/// A row may go out at the top and another come in at the bottom.
pub proof fn lemma_rectangle_shift(s: Seq<Seq<Cell>>, cols: int, line: Seq<Cell>)
    requires
        grid_model::rectangular(s, cols),
        line.len() == cols,
    ensures
        s.len() > 0 ==> grid_model::rectangular(s.drop_first().push(line), cols),
        grid_model::rectangular(seq![line], cols),
{
    reveal(grid_model::rectangular);
}

/// What no byte stream can change: the size, the bounds, the palette and the
/// role; and the replies owed, on a pane that answers nothing.
pub open spec fn same_frame(v: GridView, w: GridView) -> bool {
    &&& v.role == HostRole::Relay ==> w.response == v.response
    &&& w.rows == v.rows
    &&& w.cols == v.cols
    &&& w.scrollback_cap == v.scrollback_cap
    &&& w.palette == v.palette
    &&& w.role == v.role
}

/// The frame is kept, and as long as the alternate screen is shown neither the
/// primary screen nor its history changes.
pub open spec fn same_primary(v: GridView, w: GridView) -> bool {
    &&& same_frame(v, w)
    &&& v.alt_active && w.alt_active ==> w.primary == v.primary && w.scrollback == v.scrollback
}

/// The same, and the screens are not switched.
pub open spec fn steady(v: GridView, w: GridView) -> bool {
    &&& same_primary(v, w)
    &&& w.alt_active == v.alt_active
}

/// Replacing the active screen by another rectangle of its size keeps the
/// invariant.
pub proof fn lemma_with_active_wf(v: GridView, s: Seq<Seq<Cell>>)
    requires
        v.wf(),
        grid_model::rectangular(s, v.cols),
        s.len() == v.active().len(),
    ensures
        v.with_active(s).wf(),
        steady(v, v.with_active(s)),
{
}

proof fn lemma_put_row_wf(v: GridView, row: int, r: Seq<Cell>)
    requires
        v.wf(),
        0 <= row < v.active().len() ==> r.len() == v.cols,
    ensures
        v.with_row(row, r).wf(),
        steady(v, v.with_row(row, r)),
{
    if 0 <= row < v.active().len() {
        lemma_rectangle_update(v.active(), v.cols, row, r);
    }
    lemma_with_active_wf(v, grid_model::put_row(v.active(), row, r));
}

/// True when `w` is `v` but for the active screen.
pub open spec fn only_screen_differs(v: GridView, w: GridView) -> bool {
    w == v.with_active(w.active())
}

pub proof fn lemma_set_cell_wf(v: GridView, row: int, col: int, cell: Cell)
    requires
        v.wf(),
    ensures
        v.set_cell(row, col, cell).wf(),
        steady(v, v.set_cell(row, col, cell)),
        only_screen_differs(v, v.set_cell(row, col, cell)),
{
    reveal(GridView::set_cell);
    if v.cell_at(row, col) is Some {
        lemma_rectangle_row(v.active(), v.cols, row);
        lemma_rectangle_update(v.active(), v.cols, row, v.active()[row].update(col, cell));
        lemma_with_active_wf(v, v.active().update(row, v.active()[row].update(col, cell)));
    }
}

pub proof fn lemma_scroll_region_up_wf(v: GridView)
    requires
        v.wf(),
    ensures
        v.scroll_region_up().wf(),
        steady(v, v.scroll_region_up()),
{
    reveal(GridView::scroll_region_up);
    if v.scroll_top > v.scroll_bottom {
    } else if !v.alt_active && v.scroll_top == 0 && v.scroll_bottom == v.last_row() {
        lemma_rectangle_shift(v.primary, v.cols, v.blank_line());
    } else if v.scroll_top < v.active().len() {
        lemma_rectangle_gap(
            v.active(),
            v.cols,
            v.scroll_top,
            v.scroll_bottom + 1,
            1,
            v.blank_line(),
        );
        lemma_with_active_wf(
            v,
            seqops::close_gap(
                v.active(),
                v.scroll_top,
                v.scroll_bottom + 1,
                1,
                v.blank_line(),
            ),
        );
    }
}

pub proof fn lemma_scroll_up_wf(v: GridView, n: int)
    requires
        v.wf(),
    ensures
        v.scroll_up(n).wf(),
        steady(v, v.scroll_up(n)),
    decreases n,
{
    if n > 0 {
        lemma_scroll_up_wf(v, n - 1);
        lemma_scroll_region_up_wf(v.scroll_up(n - 1));
    }
}

pub proof fn lemma_scroll_down_wf(v: GridView, n: int)
    requires
        v.wf(),
        n >= 0,
    ensures
        v.scroll_down(n).wf(),
        steady(v, v.scroll_down(n)),
{
    reveal(GridView::scroll_down);
    if v.scroll_top < v.active().len() {
        let line = v.blank_line();
        lemma_rectangle_gap(v.active(), v.cols, v.scroll_top, v.scroll_bottom + 1, n, line);
        lemma_rectangle_gap(v.active(), v.cols, v.scroll_bottom + 1, v.scroll_top, n, line);
        let s = if v.scroll_top <= v.scroll_bottom {
            seqops::open_gap(v.active(), v.scroll_top, v.scroll_bottom + 1, n, line)
        } else {
            seqops::close_gap(v.active(), v.scroll_bottom + 1, v.scroll_top, n, line)
        };
        lemma_with_active_wf(v, s);
    }
}

pub proof fn lemma_linefeed_wf(v: GridView)
    requires
        v.wf(),
    ensures
        v.linefeed().wf(),
        steady(v, v.linefeed()),
{
    reveal(GridView::linefeed);
    if v.cursor_row == v.scroll_bottom {
        lemma_scroll_region_up_wf(v);
    }
}

pub proof fn lemma_reverse_index_wf(v: GridView)
    requires
        v.wf(),
    ensures
        v.reverse_index().wf(),
        steady(v, v.reverse_index()),
{
    reveal(GridView::reverse_index);
    if v.cursor_row == v.scroll_top && (v.alt_active || v.primary.len() > 0) {
        lemma_scroll_down_wf(v, 1);
    } else {
        lemma_rectangle_shift(v.primary, v.cols, v.blank_line());
    }
}

pub proof fn lemma_erase_in_line_wf(v: GridView, from: int, to: int)
    requires
        v.wf(),
    ensures
        v.erase_in_line(from, to).wf(),
        steady(v, v.erase_in_line(from, to)),
        only_screen_differs(v, v.erase_in_line(from, to)),
{
    reveal(GridView::erase_in_line);
    if v.cursor_row < v.active().len() {
        lemma_rectangle_row(v.active(), v.cols, v.cursor_row);
    }
    lemma_put_row_wf(
        v,
        v.cursor_row,
        seqops::fill_range(v.active()[v.cursor_row], from, to, v.blank_cell()),
    );
}

pub proof fn lemma_erase_rows_wf(v: GridView, from: int, to: int)
    requires
        v.wf(),
    ensures
        v.erase_rows(from, to).wf(),
        steady(v, v.erase_rows(from, to)),
        only_screen_differs(v, v.erase_rows(from, to)),
{
    reveal(GridView::erase_rows);
    lemma_rectangle_fill(v.active(), v.cols, from, to, v.blank_cell());
    lemma_with_active_wf(v, grid_model::fill_rows(v.active(), from, to, v.blank_cell()));
}

pub proof fn lemma_clear_alternate_wf(v: GridView)
    requires
        v.wf(),
    ensures
        v.clear_alternate().wf(),
        steady(v, v.clear_alternate()),
        v.clear_alternate().primary == v.primary,
        v.clear_alternate().scrollback == v.scrollback,
        v.clear_alternate().saved == v.saved,
{
    reveal(GridView::clear_alternate);
    lemma_rectangle_fill(v.alternate, v.cols, 0, v.alternate.len() as int, v.blank_cell());
}

pub proof fn lemma_enter_alt_wf(v: GridView, clear: bool)
    requires
        v.wf(),
    ensures
        v.enter_alt_screen(clear).wf(),
        same_primary(v, v.enter_alt_screen(clear)),
        v.enter_alt_screen(clear).alt_active,
{
    reveal(GridView::enter_alt_screen);
    lemma_rectangle_fill(
        v.alternate,
        v.cols,
        0,
        v.alternate.len() as int,
        Cell::blank(),
    );
}

pub proof fn lemma_insert_delete_lines_wf(v: GridView, n: int)
    requires
        v.wf(),
        n >= 0,
    ensures
        v.insert_lines(n).wf(),
        steady(v, v.insert_lines(n)),
        v.delete_lines(n).wf(),
        steady(v, v.delete_lines(n)),
{
    reveal(GridView::insert_lines);
    reveal(GridView::delete_lines);
    if v.cursor_row < v.active().len() && v.cursor_row <= v.scroll_bottom {
        let line = v.blank_line();
        lemma_rectangle_gap(v.active(), v.cols, v.cursor_row, v.scroll_bottom + 1, n, line);
        lemma_with_active_wf(
            v,
            seqops::open_gap(v.active(), v.cursor_row, v.scroll_bottom + 1, n, line),
        );
        lemma_with_active_wf(
            v,
            seqops::close_gap(v.active(), v.cursor_row, v.scroll_bottom + 1, n, line),
        );
    }
}

pub proof fn lemma_edit_cells_wf(v: GridView, n: int)
    requires
        v.wf(),
        n >= 0,
    ensures
        v.insert_cells(n).wf(),
        steady(v, v.insert_cells(n)),
        v.delete_cells(n).wf(),
        steady(v, v.delete_cells(n)),
        v.erase_cells(n).wf(),
        steady(v, v.erase_cells(n)),
{
    reveal(GridView::insert_cells);
    reveal(GridView::delete_cells);
    reveal(GridView::erase_cells);
    let r = v.active()[v.cursor_row];
    let blank = v.blank_cell();
    if v.cursor_row < v.active().len() {
        lemma_rectangle_row(v.active(), v.cols, v.cursor_row);
    }
    lemma_put_row_wf(v, v.cursor_row, seqops::open_gap(r, v.cursor_col, v.cols, n, blank));
    lemma_put_row_wf(v, v.cursor_row, seqops::close_gap(r, v.cursor_col, v.cols, n, blank));
    lemma_erase_in_line_wf(v, v.cursor_col, v.cursor_col + n);
}

pub proof fn lemma_clear_orphans_wf(v: GridView, row: int, col: int, w: int)
    requires
        v.wf(),
    ensures
        v.clear_orphans(row, col, w).wf(),
        steady(v, v.clear_orphans(row, col, w)),
        only_screen_differs(v, v.clear_orphans(row, col, w)),
{
    reveal(GridView::clear_orphans);
    lemma_set_cell_wf(v, row, col - 1, Cell::blank());
    let left = v.set_cell(row, col - 1, Cell::blank());
    let last = col + grid_model::at_least_one(w) - 1;
    lemma_set_cell_wf(left, row, last + 1, Cell::blank());
    lemma_set_cell_wf(v, row, last + 1, Cell::blank());
}

pub proof fn lemma_place_wf(v: GridView, c: char, w: int)
    requires
        v.wf(),
    ensures
        v.place(c, w).wf(),
        steady(v, v.place(c, w)),
        only_screen_differs(v, v.place(c, w)),
{
    reveal(GridView::place);
    let row = v.cursor_row;
    let col = v.cursor_col;
    let cell = v.print_cell(c, w);
    if v.insert_mode {
        let r = v.active()[row];
        if 0 <= row < v.active().len() && col < r.len() {
            lemma_rectangle_row(v.active(), v.cols, row);
            if w == 2 {
                lemma_put_row_wf(
                    v,
                    row,
                    seqops::open_gap(r, col, r.len() as int, 2, v.continuation_cell()).update(
                        col,
                        cell,
                    ),
                );
            } else {
                lemma_put_row_wf(v, row, seqops::open_gap(r, col, r.len() as int, 1, cell));
            }
        }
    } else {
        lemma_clear_orphans_wf(v, row, col, w);
        let cleared = v.clear_orphans(row, col, w);
        lemma_set_cell_wf(cleared, row, col, cell);
        let put = cleared.set_cell(row, col, cell);
        lemma_set_cell_wf(put, row, col + 1, v.continuation_cell());
    }
}

pub proof fn lemma_wrap_wf(v: GridView, w: int)
    requires
        v.wf(),
    ensures
        v.wrap_now().wf(),
        steady(v, v.wrap_now()),
        v.wrap_wide(w).wf(),
        steady(v, v.wrap_wide(w)),
{
    reveal(GridView::wrap_now);
    reveal(GridView::wrap_wide);
    lemma_linefeed_wf(GridView { wrap_pending: false, cursor_col: 0, ..v });
    lemma_linefeed_wf(GridView { cursor_col: 0, ..v });
}

pub proof fn lemma_put_char_wf(v: GridView, c: char, w: int)
    requires
        v.wf(),
    ensures
        v.put_char(c, w).wf(),
        steady(v, v.put_char(c, w)),
{
    reveal(GridView::put_char);
    lemma_wrap_wf(v, w);
    lemma_wrap_wf(v.wrap_now(), w);
    let b = v.wrap_now().wrap_wide(w);
    lemma_place_wf(b, c, w);
    lemma_advance_wf(b.place(c, w), c, w);
}

proof fn lemma_advance_wf(put: GridView, c: char, w: int)
    requires
        put.wf(),
    ensures
        (GridView { last_printed: Some(c), ..put }).advance(w).wf(),
        steady(put, (GridView { last_printed: Some(c), ..put }).advance(w)),
{
    reveal(GridView::advance);
}

pub proof fn lemma_combine_wf(v: GridView, c: char)
    requires
        v.wf(),
    ensures
        v.combine(c).wf(),
        steady(v, v.combine(c)),
{
    reveal(GridView::combine);
    let from = if v.wrap_pending {
        v.last_col()
    } else {
        v.cursor_col - 1
    };
    let row = v.cursor_row;
    let col = v.lead_col(row, from);
    if let Some(cell) = v.cell_at(row, col) {
        let next = (v.combining.len() + 1) as u16;
        lemma_set_cell_wf(v, row, col, Cell { combining: next, ..cell });
    }
}

pub proof fn lemma_print_wf(v: GridView, c: char)
    requires
        v.wf(),
    ensures
        v.print(c).wf(),
        steady(v, v.print(c)),
{
    reveal(GridView::print);
    let seen = GridView { blocks: v.blocks.print(c), ..v };
    let w = match vt::char_columns(c) {
        Some(w) => w as int,
        None => 1,
    };
    lemma_combine_wf(seen, c);
    lemma_put_char_wf(seen, c, w);
}

pub proof fn lemma_print_times_wf(v: GridView, c: char, n: int)
    requires
        v.wf(),
    ensures
        v.print_times(c, n).wf(),
        steady(v, v.print_times(c, n)),
    decreases n,
{
    if n > 0 {
        lemma_print_times_wf(v, c, n - 1);
        lemma_print_wf(v.print_times(c, n - 1), c);
    }
}

proof fn lemma_alt_mode_wf(v: GridView, code: u16, set: bool)
    requires
        v.wf(),
        code == 47 || code == 1047 || code == 1049,
    ensures
        v.dec_mode(code, set).wf(),
        same_primary(v, v.dec_mode(code, set)),
        set && v.alt_active ==> v.dec_mode(code, set).alt_active,
        !set && !v.alt_active ==> !v.dec_mode(code, set).alt_active,
{
    let left = v.clear_alternate().leave_alt_screen();
    let w = if code == 47 {
        if set {
            v.enter_alt_screen(false)
        } else {
            v.leave_alt_screen()
        }
    } else if code == 1047 {
        if set {
            v.enter_alt_screen(true)
        } else {
            left
        }
    } else if set {
        v.save_cursor().enter_alt_screen(true)
    } else {
        left.restore_cursor()
    };
    assert(v.dec_mode(code, set) == w) by {
        reveal(GridView::dec_mode);
    }
    lemma_clear_alternate_wf(v);
    lemma_save_restore_wf(v);
    lemma_save_restore_wf(left);
    lemma_enter_alt_wf(v, false);
    lemma_enter_alt_wf(v, true);
    lemma_enter_alt_wf(v.save_cursor(), true);
}

pub proof fn lemma_dec_mode_wf(v: GridView, code: u16, set: bool)
    requires
        v.wf(),
    ensures
        v.dec_mode(code, set).wf(),
        same_primary(v, v.dec_mode(code, set)),
        set && v.alt_active ==> v.dec_mode(code, set).alt_active,
        !set && !v.alt_active ==> !v.dec_mode(code, set).alt_active,
{
    if code == 47 || code == 1047 || code == 1049 {
        lemma_alt_mode_wf(v, code, set);
    } else {
        reveal(GridView::dec_mode);
    }
}

pub proof fn lemma_dec_modes_wf(v: GridView, params: Seq<Seq<u16>>, set: bool)
    requires
        v.wf(),
    ensures
        v.dec_modes(params, set).wf(),
        same_primary(v, v.dec_modes(params, set)),
        set && v.alt_active ==> v.dec_modes(params, set).alt_active,
        !set && !v.alt_active ==> !v.dec_modes(params, set).alt_active,
    decreases params.len(),
{
    if params.len() > 0 {
        lemma_dec_modes_wf(v, params.drop_last(), set);
        if params.last().len() > 0 {
            lemma_dec_mode_wf(v.dec_modes(params.drop_last(), set), params.last()[0], set);
        }
    }
}

proof fn lemma_csi_erase_wf(v: GridView, params: Seq<Seq<u16>>, action: char)
    requires
        v.wf(),
        action == 'J' || action == 'K',
    ensures
        v.standard_csi(params, action).wf(),
        steady(v, v.standard_csi(params, action)),
{
    reveal(GridView::standard_csi);
    reveal(GridView::erase_below_cursor);
    reveal(GridView::erase_above_cursor);
    lemma_erase_in_line_wf(v, v.cursor_col, v.cols);
    lemma_erase_in_line_wf(v, 0, v.cursor_col + 1);
    lemma_erase_in_line_wf(v, 0, v.cols);
    lemma_erase_rows_wf(v, 0, v.cursor_row);
    lemma_erase_rows_wf(v, 0, v.rows);
    lemma_erase_rows_wf(v.erase_to_end_of_line(), v.cursor_row + 1, v.rows);
    lemma_erase_in_line_wf(v.erase_rows(0, v.cursor_row), 0, v.cursor_col + 1);
}

proof fn lemma_csi_edit_wf(v: GridView, params: Seq<Seq<u16>>, action: char)
    requires
        v.wf(),
        action == 'L' || action == 'M' || action == '@' || action == 'P' || action == 'X',
    ensures
        v.standard_csi(params, action).wf(),
        steady(v, v.standard_csi(params, action)),
{
    reveal(GridView::standard_csi);
    let n = grid_model::at_least_one(grid_model::param_or(params, 0, 0));
    lemma_insert_delete_lines_wf(v, n);
    lemma_edit_cells_wf(v, n);
}

proof fn lemma_csi_repeat_wf(v: GridView, params: Seq<Seq<u16>>, action: char)
    requires
        v.wf(),
        action == 'b' || action == 'S' || action == 'T',
    ensures
        v.standard_csi(params, action).wf(),
        steady(v, v.standard_csi(params, action)),
{
    reveal(GridView::standard_csi);
    let n = grid_model::at_least_one(grid_model::param_or(params, 0, 0));
    if action == 'b' {
        if let Some(c) = v.last_printed {
            lemma_print_times_wf(v, c, n);
        }
    } else if action == 'S' {
        lemma_scroll_up_wf(v, n);
    } else {
        lemma_scroll_down_wf(v, n);
    }
}

proof fn lemma_cursor_move_wf(v: GridView, drow: int, dcol: int)
    requires
        v.wf(),
    ensures
        v.cursor_move(drow, dcol).wf(),
        steady(v, v.cursor_move(drow, dcol)),
{
    reveal(GridView::cursor_move);
}

proof fn lemma_cursor_set_wf(v: GridView, row: int, col: int)
    requires
        v.wf(),
        row >= 0,
        col >= 0,
    ensures
        v.cursor_set(row, col).wf(),
        steady(v, v.cursor_set(row, col)),
{
    reveal(GridView::cursor_set);
}

proof fn lemma_answer_wf(v: GridView, bytes: Seq<u8>)
    requires
        v.wf(),
    ensures
        v.answer(bytes).wf(),
        steady(v, v.answer(bytes)),
{
    reveal(GridView::answer);
}

proof fn lemma_set_margins_wf(v: GridView, params: Seq<Seq<u16>>)
    requires
        v.wf(),
    ensures
        v.set_margins(params).wf(),
        steady(v, v.set_margins(params)),
{
    reveal(GridView::set_margins);
    reveal(GridView::cursor_set);
}

proof fn lemma_save_restore_wf(v: GridView)
    requires
        v.wf(),
    ensures
        v.save_cursor().wf(),
        steady(v, v.save_cursor()),
        v.restore_cursor().wf(),
        steady(v, v.restore_cursor()),
{
    reveal(GridView::save_cursor);
    reveal(GridView::restore_cursor);
}

proof fn lemma_csi_cursor_wf(v: GridView, params: Seq<Seq<u16>>, action: char)
    requires
        v.wf(),
        action != 'J' && action != 'K' && action != 'L' && action != 'M' && action != '@' && action
            != 'P' && action != 'X' && action != 'b' && action != 'S' && action != 'T',
    ensures
        v.standard_csi(params, action).wf(),
        steady(v, v.standard_csi(params, action)),
{
    reveal(GridView::standard_csi);
    let n = grid_model::at_least_one(grid_model::param_or(params, 0, 0));
    lemma_cursor_move_wf(v, -n, 0);
    lemma_cursor_move_wf(v, n, 0);
    lemma_cursor_move_wf(v, 0, n);
    lemma_cursor_move_wf(v, 0, -n);
    lemma_cursor_move_wf(v.carriage_return(), n, 0);
    lemma_cursor_move_wf(v.carriage_return(), -n, 0);
    lemma_cursor_set_wf(v, v.cursor_row, n - 1);
    lemma_cursor_set_wf(v, n - 1, v.cursor_col);
    lemma_cursor_set_wf(
        v,
        grid_model::at_least_one(grid_model::param_or(params, 0, 1)) - 1,
        grid_model::at_least_one(grid_model::param_or(params, 1, 1)) - 1,
    );
    lemma_answer_wf(v, crate::host_role::TearCaps::spec_status_ok());
    lemma_answer_wf(v, crate::host_role::TearCaps::spec_primary_da());
    lemma_answer_wf(v, v.cursor_report());
    lemma_set_margins_wf(v, params);
    lemma_save_restore_wf(v);
}

#[verifier::spinoff_prover]
pub proof fn lemma_standard_csi_wf(v: GridView, params: Seq<Seq<u16>>, action: char)
    requires
        v.wf(),
    ensures
        v.standard_csi(params, action).wf(),
        steady(v, v.standard_csi(params, action)),
{
    if action == 'J' || action == 'K' {
        lemma_csi_erase_wf(v, params, action);
    } else if action == 'L' || action == 'M' || action == '@' || action == 'P' || action == 'X' {
        lemma_csi_edit_wf(v, params, action);
    } else if action == 'b' || action == 'S' || action == 'T' {
        lemma_csi_repeat_wf(v, params, action);
    } else {
        lemma_csi_cursor_wf(v, params, action);
    }
}

pub proof fn lemma_csi_wf(
    v: GridView,
    params: Seq<Seq<u16>>,
    intermediates: Seq<u8>,
    action: char,
)
    requires
        v.wf(),
    ensures
        v.csi(params, intermediates, action).wf(),
        same_primary(v, v.csi(params, intermediates, action)),
{
    reveal(GridView::csi);
    reveal(GridView::private_csi);
    reveal(GridView::answer);
    let w = if action == 'm' {
        v
    } else {
        GridView { wrap_pending: false, ..v }
    };
    lemma_dec_modes_wf(w, params, action == 'h');
    lemma_standard_csi_wf(w, params, action);
}

pub proof fn lemma_reset_wf(v: GridView)
    requires
        v.wf(),
    ensures
        v.reset().wf(),
        same_primary(v, v.reset()),
{
    reveal(GridView::reset);
    reveal(GridView::cursor_set);
    let plain = GridView { pen: Pen::plain(), ..v };
    lemma_clear_alternate_wf(plain);
    lemma_erase_rows_wf(plain.clear_alternate().leave_alt_screen(), 0, v.rows);
}

proof fn lemma_execute_wf(v: GridView, b: u8)
    requires
        v.wf(),
    ensures
        v.execute(b).wf(),
        steady(v, v.execute(b)),
{
    reveal(GridView::execute);
    reveal(GridView::tab_forward);
    lemma_linefeed_wf(GridView { wrap_pending: false, ..v });
}

proof fn lemma_esc_wf(v: GridView, b: u8)
    requires
        v.wf(),
    ensures
        v.esc(b).wf(),
        same_primary(v, v.esc(b)),
{
    reveal(GridView::esc);
    reveal(GridView::save_cursor);
    reveal(GridView::restore_cursor);
    let w = GridView { wrap_pending: false, ..v };
    lemma_linefeed_wf(w);
    lemma_reverse_index_wf(w);
    lemma_reset_wf(w);
}

/// Whatever a terminal event does, the grid stays well formed and keeps its
/// size: both screens are rectangles of it, the cursor and the margins stay
/// inside, and the history stays within its bound.
pub proof fn lemma_perform_wf(v: GridView, ev: VtEventView, now: u64)
    requires
        v.wf(),
    ensures
        v.perform(ev, now).wf(),
        same_primary(v, v.perform(ev, now)),
{
    reveal(GridView::perform);
    reveal(GridView::hook);
    reveal(GridView::put);
    reveal(GridView::unhook);
    reveal(GridView::osc);
    reveal(GridView::push_graphic);
    match ev {
        VtEventView::Print(c) => lemma_print_wf(v, c),
        VtEventView::Execute(b) => lemma_execute_wf(v, b),
        VtEventView::Csi { params, intermediates, action } => lemma_csi_wf(
            v,
            params,
            intermediates,
            action,
        ),
        VtEventView::Esc(b) => lemma_esc_wf(v, b),
        _ => {},
    }
}

/// Whatever a stream of events holds, the grid stays well formed and keeps its
/// size.
pub proof fn lemma_run_wf(v: GridView, evs: Seq<VtEventView>, now: u64)
    requires
        v.wf(),
    ensures
        v.run(evs, now).wf(),
        same_frame(v, v.run(evs, now)),
    decreases evs.len(),
{
    if evs.len() > 0 {
        lemma_run_wf(v, evs.drop_last(), now);
        lemma_perform_wf(v.run(evs.drop_last(), now), evs.last(), now);
    }
}

/// Images change nothing but the list of images.
pub proof fn lemma_ingest_all_wf(v: GridView, done: Seq<(Seq<u8>, bool)>)
    requires
        v.wf(),
    ensures
        v.ingest_all(done).wf(),
        steady(v, v.ingest_all(done)),
        v.ingest_all(done) == (GridView { graphics: v.ingest_all(done).graphics, ..v }),
    decreases done.len(),
{
    reveal(GridView::ingest_apc);
    reveal(GridView::push_graphic);
    if done.len() > 0 {
        lemma_ingest_all_wf(v, done.drop_last());
    }
}

/// A resized grid is well formed, and has the size asked for.
pub proof fn lemma_resize_wf(v: GridView, cols: int, rows: int)
    requires
        v.wf(),
        0 <= cols,
        0 <= rows,
    ensures
        v.resize(cols, rows).wf(),
        v.resize(cols, rows).rows == rows,
        v.resize(cols, rows).cols == cols,
{
    reveal(GridView::resize);
    reveal(grid_model::rectangular);
}

} // verus!
