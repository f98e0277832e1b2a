//! What holds of a pane whatever is written to it.
use crate::apc;
use crate::apc::ApcState;
use crate::graphics;
use crate::grid_laws;
use crate::grid_model;
use crate::grid_model::GridView;
use crate::host_role::HostRole;
use crate::pane_grid::PaneView;
use crate::pane_snapshot::Cell;
use crate::seqops;
use crate::vt;
use crate::vt::VtEventView;
use vstd::prelude::*;

verus! {

/// A snapshot of a pane with rows shows a rectangle of the pane's size, with
/// the cursor inside it.
pub proof fn lemma_snapshot_has_the_size_of_the_pane(v: GridView)
    requires
        v.wf(),
        v.rows > 0,
    ensures
        v.snapshot().rows == v.rows,
        v.snapshot().cols == v.cols,
        v.snapshot().cells.len() == v.rows,
        forall|i: int|
            0 <= i < v.snapshot().cells.len() ==> (#[trigger] v.snapshot().cells[i]).len()
                == v.cols,
        0 <= v.snapshot().cursor_row < v.rows,
        v.cols > 0 ==> 0 <= v.snapshot().cursor_col < v.cols,
{
    reveal(grid_model::rectangular);
}

/// Whatever bytes are written, and whenever, a pane stays well formed and keeps
/// its size, its bounds and its role.
pub proof fn lemma_feed_keeps_the_frame(v: PaneView, bytes: Seq<u8>, now: u64)
    requires
        v.wf(),
    ensures
        v.feed(bytes, now).grid.wf(),
        grid_laws::same_frame(v.grid, v.feed(bytes, now).grid),
    decreases bytes.len(),
{
    if bytes.len() > 0 {
        let p = v.apc.state.piece(bytes);
        let n = if 0 < p <= bytes.len() {
            p
        } else {
            bytes.len() as int
        };
        lemma_feed_piece_wf(v, bytes.take(n), now);
        lemma_feed_keeps_the_frame(v.feed_piece(bytes.take(n), now), bytes.skip(n), now);
    }
}

proof fn lemma_feed_piece_wf(v: PaneView, bytes: Seq<u8>, now: u64)
    requires
        v.wf(),
    ensures
        v.feed_piece(bytes, now).wf(),
        grid_laws::same_frame(v.grid, v.feed_piece(bytes, now).grid),
{
    let out = v.apc.output(bytes);
    grid_laws::lemma_run_wf(v.grid, vt::vt_events(v.fed, out.pass), now);
    grid_laws::lemma_ingest_all_wf(v.parse(out.pass, now).grid, out.done);
    apc::lemma_scan_stays_bounded(v.apc, bytes);
}

/// A pane that only relays answers nothing, whatever is asked of it.
pub proof fn lemma_relay_answers_nothing(v: PaneView, bytes: Seq<u8>, now: u64)
    requires
        v.wf(),
        v.grid.role == HostRole::Relay,
    ensures
        v.feed(bytes, now).grid.response == v.grid.response,
{
    lemma_feed_keeps_the_frame(v, bytes, now);
}

/// Bytes without an `ESC` reach the parser as they are, outside an application
/// program command.
pub proof fn lemma_feed_of_plain_bytes_reaches_the_parser_whole(
    v: PaneView,
    bytes: Seq<u8>,
    now: u64,
)
    requires
        v.apc.state == ApcState::Idle,
        bytes.len() > 0,
        forall|i: int| 0 <= i < bytes.len() ==> bytes[i] != 0x1b,
    ensures
        v.feed(bytes, now) == (PaneView {
            fed: v.fed.push(bytes),
            grid: v.grid.run(vt::vt_events(v.fed, bytes), now),
            ..v
        }),
{
    apc::lemma_plain_bytes_are_one_piece(bytes);
    apc::lemma_plain_bytes_pass(v.apc, bytes);
    let n = bytes.len() as int;
    assert(bytes.take(n) =~= bytes);
    assert(bytes.skip(n).len() == 0);
    assert(v.feed(bytes, now) == v.feed_piece(bytes, now).feed(bytes.skip(n), now));
}

/// An image stands where the cursor was when its command ended, whatever comes
/// after it in the same read: the rest is read from there on.
pub proof fn lemma_an_image_stands_where_its_command_ended(
    v: PaneView,
    payload: Seq<u8>,
    rest: Seq<u8>,
    now: u64,
)
    requires
        v.wf(),
        v.apc.state == ApcState::Idle,
        0 < payload.len() <= graphics::GRAPHIC_PAYLOAD_MAX,
        payload[0] == 0x47,
        forall|i: int| 0 <= i < payload.len() ==> payload[i] != 0x1b && payload[i] != 0x07,
    ensures
        ({
            let whole = seq![0x1bu8, 0x5f] + payload + seq![0x1bu8, 0x5c];
            let shown = v.feed(whole, now);
            &&& v.feed(whole + rest, now) == shown.feed(rest, now)
            &&& shown.fed == v.fed
            &&& shown.grid == (GridView { graphics: shown.grid.graphics, ..v.grid })
            &&& shown.grid.graphics.len() == v.grid.graphics.len() + 1
            &&& shown.grid.graphics.drop_last() == v.grid.graphics
            &&& shown.grid.graphics.last().at_row == v.grid.cursor_row
            &&& shown.grid.graphics.last().at_col == v.grid.cursor_col
        }),
{
    let whole = seq![0x1bu8, 0x5f] + payload + seq![0x1bu8, 0x5c];
    let none = Seq::<u8>::empty();
    apc::lemma_a_whole_command_is_one_piece(payload, rest);
    apc::lemma_a_whole_command_is_one_piece(payload, none);
    apc::lemma_whole_command_is_lifted(v.apc, payload);
    let n = whole.len() as int;
    let all = whole + rest;
    assert(whole + none =~= whole);
    assert(whole.take(n) =~= whole);
    assert(whole.skip(n).len() == 0);
    assert(all.take(n) =~= whole);
    assert(all.skip(n) =~= rest);
    let shown = v.feed_piece(whole, now);
    assert(v.feed(whole, now) == shown.feed(whole.skip(n), now));
    assert(v.feed(all, now) == shown.feed(rest, now));
    let done = seq![(payload, false)];
    assert(done.drop_last() =~= Seq::<(Seq<u8>, bool)>::empty());
    assert(v.grid.ingest_all(done.drop_last()) == v.grid);
    assert(shown.grid == v.grid.ingest_apc(payload, false));
    reveal(GridView::ingest_apc);
    reveal(GridView::push_graphic);
    assert(shown.grid.graphics.drop_last() =~= v.grid.graphics);
}

/// A private marker never runs the standard command that shares its final
/// character: but for the modes (`?` with `h` or `l`) and the secondary device
/// attributes (`>` with `c`), such a sequence does nothing but drop a deferred
/// wrap, and not even that before an `m`.
pub proof fn lemma_private_sequences_are_inert(
    v: GridView,
    params: Seq<Seq<u16>>,
    intermediates: Seq<u8>,
    action: char,
)
    requires
        intermediates.len() > 0,
        0x3c <= intermediates[0] <= 0x3f,
        !(intermediates[0] == 0x3f && (action == 'h' || action == 'l')),
        !(intermediates[0] == 0x3e && action == 'c'),
    ensures
        v.csi(params, intermediates, action) == (GridView {
            wrap_pending: v.wrap_pending && action == 'm',
            ..v
        }),
{
    reveal(GridView::csi);
    reveal(GridView::private_csi);
}

/// A saved cursor comes back: whatever happened in between, a pane of the same
/// size that still holds what was saved restores the place and the pen.
pub proof fn lemma_saved_cursor_comes_back(v: GridView, w: GridView)
    requires
        v.wf(),
        v.rows <= usize::MAX,
        v.cols <= usize::MAX,
        w.rows == v.rows,
        w.cols == v.cols,
        w.saved == v.save_cursor().saved,
    ensures
        w.restore_cursor() == (GridView {
            cursor_row: v.cursor_row,
            cursor_col: v.cursor_col,
            pen: v.pen,
            ..w
        }),
{
    reveal(GridView::save_cursor);
    reveal(GridView::restore_cursor);
}

proof fn lemma_entering(v: GridView)
    requires
        v.wf(),
    ensures
        v.dec_mode(1049, true).saved == v.save_cursor().saved,
        v.dec_mode(1049, true).primary == v.primary,
        v.dec_mode(1049, true).scrollback == v.scrollback,
        v.dec_mode(1049, true).rows == v.rows,
        v.dec_mode(1049, true).cols == v.cols,
        v.dec_mode(1049, true).alt_active,
{
    reveal(GridView::dec_mode);
    reveal(GridView::save_cursor);
    reveal(GridView::enter_alt_screen);
}

proof fn lemma_leaving(w: GridView)
    requires
        w.wf(),
        w.alt_active,
    ensures
        w.dec_mode(1049, false) == w.clear_alternate().leave_alt_screen().restore_cursor(),
        w.clear_alternate().leave_alt_screen().primary == w.primary,
        w.clear_alternate().leave_alt_screen().scrollback == w.scrollback,
        w.clear_alternate().leave_alt_screen().saved == w.saved,
        w.clear_alternate().leave_alt_screen().rows == w.rows,
        w.clear_alternate().leave_alt_screen().cols == w.cols,
{
    reveal(GridView::dec_mode);
    grid_laws::lemma_clear_alternate_wf(w);
}

/// A trip to the alternate screen leaves no trace: a program that enters with
/// mode 1049 and leaves with it finds the primary screen, the history, the
/// cursor and the pen as they were, whatever it did on the alternate screen.
pub proof fn lemma_alternate_screen_leaves_no_trace(v: GridView, w: GridView)
    requires
        v.wf(),
        v.rows <= usize::MAX,
        v.cols <= usize::MAX,
        w.wf(),
        grid_laws::same_primary(v.dec_mode(1049, true), w),
        w.alt_active,
        w.saved == v.dec_mode(1049, true).saved,
    ensures
        ({
            let back = w.dec_mode(1049, false);
            &&& !back.alt_active
            &&& back.primary == v.primary
            &&& back.scrollback == v.scrollback
            &&& back.cursor_row == v.cursor_row
            &&& back.cursor_col == v.cursor_col
            &&& back.pen == v.pen
        }),
{
    lemma_entering(v);
    lemma_leaving(w);
    grid_laws::lemma_clear_alternate_wf(w);
    lemma_saved_cursor_comes_back(v, w.clear_alternate().leave_alt_screen());
}

/// Whatever is shown, the modes of the alternate screen show the screen that is
/// asked for and leave the primary one and its history as they are. A reset
/// while the primary one is shown leaves the alternate one as it is, too.
pub proof fn lemma_screen_modes_keep_the_primary(v: GridView, code: u16, set: bool)
    requires
        v.wf(),
        code == 47 || code == 1047 || code == 1049,
    ensures
        v.dec_mode(code, set).alt_active == set,
        v.dec_mode(code, set).primary == v.primary,
        v.dec_mode(code, set).scrollback == v.scrollback,
        !set && !v.alt_active ==> v.dec_mode(code, set).alternate == v.alternate,
{
    reveal(GridView::dec_mode);
    reveal(GridView::clear_alternate);
    reveal(GridView::enter_alt_screen);
    reveal(GridView::save_cursor);
    reveal(GridView::restore_cursor);
    grid_laws::lemma_clear_alternate_wf(v);
}

/// After the reset to the initial state the primary screen is shown and blank,
/// whichever was shown before, with the cursor at its first cell.
pub proof fn lemma_reset_shows_a_blank_screen(v: GridView)
    requires
        v.wf(),
        v.rows > 0,
    ensures
        !v.reset().alt_active,
        v.reset().active().len() == v.rows,
        forall|r: int, c: int|
            0 <= r < v.rows && 0 <= c < v.cols ==> #[trigger] v.reset().active()[r][c]
                == Cell::blank(),
        v.reset().cursor_row == 0,
        v.reset().cursor_col == 0,
        !v.reset().cursor_keys_mode,
{
    reveal(GridView::reset);
    reveal(GridView::cursor_set);
    reveal(GridView::erase_rows);
    let plain = GridView { pen: crate::sgr::Pen::plain(), ..v };
    grid_laws::lemma_clear_alternate_wf(plain);
    let left = plain.clear_alternate().leave_alt_screen();
    reveal(GridView::clear_alternate);
    assert forall|r: int, c: int| 0 <= r < v.rows && 0 <= c < v.cols implies #[trigger] v.reset().active()[r][c]
        == Cell::blank() by {
        grid_laws::lemma_rectangle_row(left.primary, left.cols, r);
        assert(left.blank_cell() == Cell::blank());
    }
}

/// An escape sequence that moves the cursor drops a deferred wrap.
pub proof fn lemma_cursor_moves_drop_a_deferred_wrap(v: GridView, b: u8)
    requires
        b == 0x38 || b == 0x44 || b == 0x45 || b == 0x4d || b == 0x63,
    ensures
        !v.esc(b).wrap_pending,
{
    reveal(GridView::esc);
    reveal(GridView::restore_cursor);
    reveal(GridView::linefeed);
    reveal(GridView::scroll_region_up);
    reveal(GridView::reverse_index);
    reveal(GridView::scroll_down);
    reveal(GridView::reset);
    reveal(GridView::clear_alternate);
    reveal(GridView::erase_rows);
    reveal(GridView::cursor_set);
}

/// The soft reset puts the cursor keys back to their plain sequences.
pub proof fn lemma_soft_reset_frees_the_cursor_keys(v: GridView, params: Seq<Seq<u16>>)
    ensures
        !v.csi(params, seq![0x21u8], 'p').cursor_keys_mode,
{
    reveal(GridView::csi);
}

/// A resized pane keeps its top left corner, on both screens.
pub proof fn lemma_resize_keeps_the_corner(v: GridView, cols: int, rows: int, r: int, c: int)
    requires
        v.wf(),
        0 <= r < rows,
        0 <= c < cols,
        c < v.cols,
    ensures
        r < v.primary.len() ==> v.resize(cols, rows).primary[r][c] == v.primary[r][c],
        r < v.alternate.len() ==> v.resize(cols, rows).alternate[r][c] == v.alternate[r][c],
{
    reveal(GridView::resize);
    reveal(grid_model::rectangular);
}

/// A mark joins the glyph before it and moves nothing: the cursor, the deferred
/// wrap and the character that a repeat would repeat stay as they are.
pub proof fn lemma_mark_moves_nothing(v: GridView, c: char)
    requires
        v.wf(),
        vt::char_columns(c) == Some(0usize),
    ensures
        v.print(c).cursor_row == v.cursor_row,
        v.print(c).cursor_col == v.cursor_col,
        v.print(c).wrap_pending == v.wrap_pending,
        v.print(c).last_printed == v.last_printed,
{
    reveal(GridView::print);
    reveal(GridView::combine);
    let seen = GridView { blocks: v.blocks.print(c), ..v };
    let from = if seen.wrap_pending {
        seen.last_col()
    } else {
        seen.cursor_col - 1
    };
    let row = seen.cursor_row;
    let col = seen.lead_col(row, from);
    if let Some(cell) = seen.cell_at(row, col) {
        let next = (seen.combining.len() + 1) as u16;
        grid_laws::lemma_set_cell_wf(seen, row, col, Cell { combining: next, ..cell });
    }
}

/// Scrolling moves nothing outside the margins.
pub proof fn lemma_scroll_stays_between_the_margins(v: GridView, i: int)
    requires
        v.wf(),
        v.rows > 0,
        0 <= i < v.active().len(),
        i < v.scroll_top || i > v.scroll_bottom,
        v.scroll_top <= v.scroll_bottom,
    ensures
        v.scroll_region_up().active()[i] == v.active()[i],
        v.scroll_down(1).active()[i] == v.active()[i],
{
    reveal(GridView::scroll_region_up);
    reveal(GridView::scroll_down);
}

/// A glyph of one or two columns that fits before the margin stands where the
/// cursor was, in the current pen, and the cursor moves on by its width, or
/// parks on the last column with the wrap deferred.
pub proof fn lemma_glyph_takes_its_columns(v: GridView, c: char, w: int)
    requires
        v.wf(),
        v.cursor_row < v.rows,
        !v.wrap_pending,
        !v.insert_mode,
        w == 1 || w == 2,
        v.cursor_col + w <= v.cols,
    ensures
        v.put_char(c, w).cell_at(v.cursor_row, v.cursor_col) == Some(v.print_cell(c, w)),
        w == 2 ==> v.put_char(c, w).cell_at(v.cursor_row, v.cursor_col + 1) == Some(
            v.continuation_cell(),
        ),
        v.put_char(c, w).cursor_row == v.cursor_row,
        v.put_char(c, w).cursor_col == seqops::imin(v.cursor_col + w, v.cols - 1),
        v.put_char(c, w).wrap_pending == (v.cursor_col + w == v.cols),
        v.put_char(c, w).last_printed == Some(c),
{
    reveal(GridView::put_char);
    reveal(GridView::wrap_now);
    reveal(GridView::wrap_wide);
    reveal(GridView::place);
    reveal(GridView::advance);
    reveal(GridView::set_cell);
    let row = v.cursor_row;
    let col = v.cursor_col;
    assert(v.wrap_now().wrap_wide(w) == v);
    grid_laws::lemma_clear_orphans_wf(v, row, col, w);
    let cleared = v.clear_orphans(row, col, w);
    grid_laws::lemma_rectangle_row(cleared.active(), v.cols, row);
    let put = cleared.set_cell(row, col, v.print_cell(c, w));
    grid_laws::lemma_set_cell_wf(cleared, row, col, v.print_cell(c, w));
    grid_laws::lemma_rectangle_row(put.active(), v.cols, row);
}

/// What a pane looks like after `k` glyphs of a run of one-column glyphs.
pub open spec fn run_stands(v: GridView, run: Seq<char>, k: int) -> bool {
    &&& v.wf()
    &&& v.rows > 0
    &&& !v.alt_active
    &&& !v.insert_mode
    &&& v.cursor_row == 0
    &&& v.cursor_col == seqops::imin(k, v.cols - 1)
    &&& v.wrap_pending == (k == v.cols)
    &&& forall|i: int| 0 <= i < v.cols ==> (#[trigger] v.primary[0][i]).width == 1
    &&& forall|i: int| 0 <= i < k ==> (#[trigger] v.primary[0][i]).ch == run[i]
}

proof fn lemma_plain_glyph_disturbs_nothing(v: GridView, col: int)
    requires
        v.wf(),
        v.rows > 0,
        !v.alt_active,
        0 <= col < v.cols,
        v.cursor_row == 0,
        forall|i: int| 0 <= i < v.cols ==> (#[trigger] v.primary[0][i]).width == 1,
    ensures
        v.clear_orphans(0, col, 1) == v,
{
    reveal(GridView::clear_orphans);
    grid_laws::lemma_rectangle_row(v.primary, v.cols, 0);
    assert(v.primary[0][col].width == 1);
}

proof fn lemma_run_step(v: GridView, run: Seq<char>, k: int)
    requires
        run_stands(v, run, k),
        0 <= k < run.len(),
        k < v.cols,
        vt::char_columns(run[k]) == Some(1usize),
    ensures
        run_stands(v.print(run[k]), run, k + 1),
        v.print(run[k]).cols == v.cols,
{
    let c = run[k];
    grid_laws::lemma_print_wf(v, c);
    reveal(GridView::print);
    let seen = GridView { blocks: v.blocks.print(c), ..v };
    assert(v.print(c) == seen.put_char(c, 1));
    lemma_plain_glyph_disturbs_nothing(seen, k);
    reveal(GridView::put_char);
    reveal(GridView::wrap_now);
    reveal(GridView::wrap_wide);
    reveal(GridView::place);
    reveal(GridView::advance);
    reveal(GridView::set_cell);
    assert(seen.wrap_now().wrap_wide(1) == seen);
    grid_laws::lemma_rectangle_row(seen.primary, seen.cols, 0);
    let cell = seen.print_cell(c, 1);
    let put = seen.set_cell(0, k, cell);
    assert(seen.place(c, 1) == put);
    assert(put.primary[0] == seen.primary[0].update(k, cell));
}

proof fn lemma_prints_one_more(rest: Seq<char>, c: char)
    ensures
        vt::prints(rest.push(c)).len() > 0,
        vt::prints(rest.push(c)).drop_last() == vt::prints(rest),
        vt::prints(rest.push(c)).last() == VtEventView::Print(c),
{
    assert(rest.push(c).drop_last() =~= rest);
    assert(rest.push(c).last() == c);
    assert(vt::prints(rest).push(VtEventView::Print(c)).drop_last() =~= vt::prints(rest));
}

/// A run of one-column glyphs that fits the first row of a fresh pane fills its
/// cells in order.
pub proof fn lemma_run_fills_cells_in_order(
    cols: int,
    rows: int,
    cap: int,
    run: Seq<char>,
    now: u64,
)
    requires
        0 < rows,
        0 < cols,
        0 <= cap,
        run.len() <= cols,
        forall|i: int| 0 <= i < run.len() ==> vt::char_columns(#[trigger] run[i]) == Some(1usize),
    ensures
        run_stands(
            GridView::start(cols, rows, cap).run(vt::prints(run), now),
            run,
            run.len() as int,
        ),
        GridView::start(cols, rows, cap).run(vt::prints(run), now).cols == cols,
    decreases run.len(),
{
    let start = GridView::start(cols, rows, cap);
    if run.len() == 0 {
        reveal(grid_model::rectangular);
    } else {
        let rest = run.drop_last();
        assert forall|i: int| 0 <= i < rest.len() implies vt::char_columns(#[trigger] rest[i])
            == Some(1usize) by {
            assert(rest[i] == run[i]);
        }
        lemma_run_fills_cells_in_order(cols, rows, cap, rest, now);
        let before = start.run(vt::prints(rest), now);
        let k = rest.len() as int;
        assert(run_stands(before, run, k)) by {
            assert forall|i: int| 0 <= i < k implies (#[trigger] before.primary[0][i]).ch == run[i] by {
                assert(rest[i] == run[i]);
            }
        }
        assert(vt::char_columns(run[k]) == Some(1usize));
        assert(run =~= rest.push(run.last()));
        lemma_prints_one_more(rest, run.last());
        reveal(GridView::perform);
        lemma_run_step(before, run, k);
    }
}

} // verus!
