//! What printing does: where a glyph stands, what it looks like, and what else on
//! the screen changes.
use crate::blocks::BlocksView;
use crate::csi_laws::{count, ordinary, sequence, shown, unwrapped};
use crate::csi_laws;
use crate::grid_laws;
use crate::grid_model::GridView;
use crate::pane_snapshot::Cell;
use crate::vt;
use crate::vt::VtEventView;
use crate::width_laws;
use vstd::prelude::*;

verus! {

/// How many columns a character takes; one that has no width of its own takes one.
pub open spec fn columns(c: char) -> int {
    match vt::char_columns(c) {
        Some(w) => w as int,
        None => 1,
    }
}

/// The cell of a character in the pen of a pane.
pub open spec fn inked(v: GridView, c: char, width: int) -> Cell {
    Cell {
        ch: c,
        fg: v.pen.fg,
        bg: v.pen.bg,
        attrs: v.pen.attrs,
        width: width as u8,
        combining: 0,
    }
}

/// A blank in the default colours.
pub open spec fn plain_blank() -> Cell {
    Cell::blank()
}

spec fn cells_alone(v: GridView, w: GridView) -> bool {
    &&& w == (GridView { primary: w.primary, alternate: w.alternate, ..v })
    &&& v.alt_active ==> w.primary == v.primary && w.alternate.len() == v.alternate.len()
    &&& !v.alt_active ==> w.alternate == v.alternate && w.primary.len() == v.primary.len()
}

proof fn lemma_set(v: GridView, row: int, col: int, cell: Cell, r: int, c: int)
    requires
        v.wf(),
        0 <= row < v.rows,
        0 <= r < v.rows,
        0 <= c < v.cols,
    ensures
        cells_alone(v, v.set_cell(row, col, cell)),
        v.set_cell(row, col, cell).wf(),
        shown(v.set_cell(row, col, cell), r, c) == if r == row && c == col {
            cell
        } else {
            shown(v, r, c)
        },
{
    grid_laws::lemma_set_cell_wf(v, row, col, cell);
    reveal(GridView::set_cell);
    grid_laws::lemma_rectangle_row(v.active(), v.cols, row);
    grid_laws::lemma_rectangle_row(v.active(), v.cols, r);
}

/// What a cell of the row holds once a glyph of `w` columns was put at `col` over
/// it: the glyph, the rest of it, a blank where half of another glyph is left
/// over, and what it held anywhere else.
pub open spec fn overwritten(v: GridView, glyph: char, w: int, r: int, c: int) -> Cell {
    let row = v.cursor_row;
    let col = v.cursor_col;
    if r != row {
        shown(v, r, c)
    } else if c == col {
        inked(v, glyph, w)
    } else if w == 2 && c == col + 1 {
        inked(v, ' ', 0)
    } else if c == col - 1 && shown(v, row, col).width == 0 {
        plain_blank()
    } else if c == col + w && shown(v, row, col + w - 1).width == 2 {
        plain_blank()
    } else {
        shown(v, r, c)
    }
}

proof fn lemma_put_over(v: GridView, glyph: char, w: int, r: int, c: int)
    requires
        v.wf(),
        !v.insert_mode,
        w == 1 || w == 2,
        0 <= v.cursor_row < v.rows,
        v.cursor_col + w <= v.cols,
        0 <= r < v.rows,
        0 <= c < v.cols,
    ensures
        cells_alone(v, v.place(glyph, w)),
        v.place(glyph, w).wf(),
        shown(v.place(glyph, w), r, c) == overwritten(v, glyph, w, r, c),
{
    let row = v.cursor_row;
    let col = v.cursor_col;
    let line = v.active()[row];
    let w2 = v.place(glyph, w);
    grid_laws::lemma_place_wf(v, glyph, w);
    grid_laws::lemma_rectangle_row(v.active(), v.cols, row);
    grid_laws::lemma_rectangle_row(v.active(), v.cols, r);
    let lead = v.print_cell(glyph, w);
    let tail = v.continuation_cell();
    let p = width_laws::placed_row(line, col, w, lead, tail);
    assert(w2.active() =~= v.active().update(row, p)) by {
        reveal(GridView::place);
        reveal(GridView::clear_orphans);
        reveal(GridView::set_cell);
    }
    assert(cells_alone(v, w2));
    assert(shown(w2, r, c) == w2.active()[r][c]);
    assert(shown(v, r, c) == v.active()[r][c]);
    if r == row {
        assert(w2.active()[r] == p);
    }
}

proof fn lemma_put_between(v: GridView, glyph: char, w: int, r: int, c: int)
    requires
        v.wf(),
        v.insert_mode,
        w == 1 || w == 2,
        0 <= v.cursor_row < v.rows,
        v.cursor_col + w <= v.cols,
        0 <= r < v.rows,
        0 <= c < v.cols,
    ensures
        cells_alone(v, v.place(glyph, w)),
        v.place(glyph, w).wf(),
        shown(v.place(glyph, w), r, c) == if r != v.cursor_row || c < v.cursor_col {
            shown(v, r, c)
        } else if c == v.cursor_col {
            inked(v, glyph, w)
        } else if c < v.cursor_col + w {
            inked(v, ' ', 0)
        } else {
            shown(v, r, c - w)
        },
{
    grid_laws::lemma_place_wf(v, glyph, w);
    reveal(GridView::place);
    grid_laws::lemma_rectangle_row(v.active(), v.cols, r);
    grid_laws::lemma_rectangle_row(v.active(), v.cols, v.cursor_row);
}

/// A glyph that fits before the margin stands at the cursor in the colours and the
/// attributes of the pen, over what was there, or before it in insert mode. The
/// cursor goes behind it, or stays on the last column with the wrap deferred.
/// Nothing else on the screen changes.
pub proof fn lemma_a_glyph_stands_at_the_cursor(
    v: GridView,
    glyph: char,
    now: u64,
    r: int,
    c: int,
)
    requires
        v.wf(),
        v.rows > 0,
        !v.wrap_pending,
        columns(glyph) == 1 || columns(glyph) == 2,
        v.cursor_col + columns(glyph) <= v.cols,
        0 <= r < v.rows,
        0 <= c < v.cols,
    ensures
        ({
            let w = v.perform(VtEventView::Print(glyph), now);
            let n = columns(glyph);
            &&& w == (GridView {
                primary: w.primary,
                alternate: w.alternate,
                cursor_col: if v.cursor_col + n < v.cols {
                    v.cursor_col + n
                } else {
                    v.cols - 1
                },
                wrap_pending: v.cursor_col + n == v.cols,
                last_printed: Some(glyph),
                blocks: v.blocks.print(glyph),
                ..v
            })
            &&& v.alt_active ==> w.primary == v.primary
            &&& !v.alt_active ==> w.alternate == v.alternate
            &&& !v.insert_mode ==> shown(w, r, c) == overwritten(v, glyph, n, r, c)
            &&& v.insert_mode ==> shown(w, r, c) == if r != v.cursor_row || c < v.cursor_col {
                shown(v, r, c)
            } else if c == v.cursor_col {
                inked(v, glyph, n)
            } else if c < v.cursor_col + n {
                inked(v, ' ', 0)
            } else {
                shown(v, r, c - n)
            }
        }),
{
    let n = columns(glyph);
    let seen = GridView { blocks: v.blocks.print(glyph), ..v };
    assert(v.perform(VtEventView::Print(glyph), now) == seen.put_char(glyph, n)) by {
        reveal(GridView::perform);
        reveal(GridView::print);
    }
    assert(seen.wrap_now().wrap_wide(n) == seen) by {
        reveal(GridView::wrap_now);
        reveal(GridView::wrap_wide);
    }
    if v.insert_mode {
        lemma_put_between(seen, glyph, n, r, c);
    } else {
        lemma_put_over(seen, glyph, n, r, c);
    }
    let put = seen.place(glyph, n);
    assert(seen.put_char(glyph, n) == (GridView { last_printed: Some(glyph), ..put }).advance(n)) by {
        reveal(GridView::put_char);
    }
    reveal(GridView::advance);
}

proof fn lemma_scroll_of_a_fresh_line(v: GridView, blocks: BlocksView)
    ensures
        (GridView { cursor_col: 0, blocks, ..v }).scroll_region_up() == (GridView {
            cursor_col: 0,
            blocks,
            ..v.scroll_region_up()
        }),
        v.scroll_region_up().blocks == v.blocks,
        v.scroll_region_up().wrap_pending == v.wrap_pending,
        v.scroll_region_up().cols == v.cols,
{
    let start = GridView { cursor_col: 0, blocks, ..v };
    reveal(GridView::scroll_region_up);
    assert(start.blank_line() =~= v.blank_line());
    if v.scroll_top > v.scroll_bottom {
    } else if !v.alt_active && v.scroll_top == 0 && v.scroll_bottom == v.last_row() {
        if v.primary.len() == 0 {
        } else {
        }
    } else if v.scroll_top < v.active().len() {
        if v.alt_active {
        } else {
        }
    }
}

proof fn lemma_linefeed_of_a_fresh_line(v: GridView, blocks: BlocksView)
    ensures
        ({
            let start = GridView { wrap_pending: false, cursor_col: 0, blocks, ..v };
            let plain = GridView { wrap_pending: false, ..v };
            &&& start.linefeed() == (GridView { cursor_col: 0, blocks, ..plain.linefeed() })
            &&& plain.linefeed().blocks == v.blocks
            &&& !plain.linefeed().wrap_pending
            &&& plain.linefeed().cols == v.cols
        }),
{
    let plain = GridView { wrap_pending: false, ..v };
    lemma_scroll_of_a_fresh_line(plain, blocks);
    assert((GridView { wrap_pending: false, cursor_col: 0, blocks, ..v }) == (GridView {
        cursor_col: 0,
        blocks,
        ..plain
    }));
    reveal(GridView::linefeed);
    if v.cursor_row == v.scroll_bottom {
    } else if v.cursor_row + 1 < v.rows {
    } else {
    }
}

proof fn lemma_print_is_put(v: GridView, glyph: char, now: u64)
    requires
        columns(glyph) >= 1,
    ensures
        v.perform(VtEventView::Print(glyph), now) == (GridView {
            blocks: v.blocks.print(glyph),
            ..v
        }).put_char(glyph, columns(glyph)),
{
    reveal(GridView::perform);
    reveal(GridView::print);
}

proof fn lemma_put_goes_by_the_landing(a: GridView, b: GridView, glyph: char, w: int)
    requires
        a.wrap_now().wrap_wide(w) == b.wrap_now().wrap_wide(w),
    ensures
        a.put_char(glyph, w) == b.put_char(glyph, w),
{
    reveal(GridView::put_char);
}

proof fn lemma_settled(v: GridView, w: int)
    requires
        !v.wrap_pending,
        v.cursor_col + w <= v.cols,
    ensures
        v.wrap_now() == v,
        v.wrap_wide(w) == v,
{
    reveal(GridView::wrap_now);
    reveal(GridView::wrap_wide);
}

proof fn lemma_wraps_down(v: GridView, w: int)
    requires
        v.cols >= 2,
        w == 1 || w == 2,
        v.wrap_pending || (w == 2 && v.cursor_col == v.cols - 1),
    ensures
        ({
            let down = (GridView { wrap_pending: false, cursor_col: 0, ..v }).linefeed();
            &&& v.wrap_now().wrap_wide(w) == down
            &&& down.wrap_now().wrap_wide(w) == down
        }),
{
    let start = GridView { wrap_pending: false, cursor_col: 0, ..v };
    let down = start.linefeed();
    lemma_linefeed_of_a_fresh_line(v, v.blocks);
    assert(start == (GridView { wrap_pending: false, cursor_col: 0, blocks: v.blocks, ..v }));
    lemma_settled(down, w);
    if v.wrap_pending {
        assert(v.wrap_now() == down) by {
            reveal(GridView::wrap_now);
        }
    } else {
        assert(v.wrap_now() == v) by {
            reveal(GridView::wrap_now);
        }
        assert((GridView { cursor_col: 0, ..v }) == start);
        assert(v.wrap_wide(w) == down) by {
            reveal(GridView::wrap_wide);
        }
    }
}

/// A pane with another list of blocks.
#[verifier::opaque]
spec fn with_blocks(v: GridView, blocks: BlocksView) -> GridView {
    GridView { blocks, ..v }
}

/// The start of a line without a deferred wrap.
#[verifier::opaque]
spec fn at_line_start(v: GridView) -> GridView {
    GridView { wrap_pending: false, cursor_col: 0, ..v }
}

proof fn lemma_fresh_line_and_blocks(v: GridView, blocks: BlocksView)
    ensures
        at_line_start(with_blocks(v, blocks)).linefeed() == with_blocks(
            at_line_start(unwrapped(v).linefeed()),
            blocks,
        ),
        at_line_start(unwrapped(v).linefeed()).blocks == v.blocks,
{
    reveal(with_blocks);
    reveal(at_line_start);
    lemma_linefeed_of_a_fresh_line(v, blocks);
    assert(at_line_start(with_blocks(v, blocks)) == (GridView {
        wrap_pending: false,
        cursor_col: 0,
        blocks,
        ..v
    }));
}

proof fn lemma_line_feed_is_carried_out(v: GridView, now: u64)
    ensures
        v.perform(VtEventView::Execute(0x0a), now) == unwrapped(v).linefeed(),
        (GridView { cursor_col: 0, ..v.perform(VtEventView::Execute(0x0a), now) })
            == at_line_start(unwrapped(v).linefeed()),
{
    reveal(at_line_start);
    reveal(GridView::perform);
    reveal(GridView::execute);
    lemma_linefeed_of_a_fresh_line(v, v.blocks);
}

proof fn lemma_print_as_seen(v: GridView, glyph: char, now: u64)
    requires
        columns(glyph) >= 1,
    ensures
        v.perform(VtEventView::Print(glyph), now) == with_blocks(
            v,
            v.blocks.print(glyph),
        ).put_char(glyph, columns(glyph)),
{
    reveal(with_blocks);
    lemma_print_is_put(v, glyph, now);
}

proof fn lemma_seen_wraps_down(v: GridView, blocks: BlocksView, w: int)
    requires
        v.cols >= 2,
        w == 1 || w == 2,
        v.wrap_pending || (w == 2 && v.cursor_col == v.cols - 1),
    ensures
        ({
            let seen = with_blocks(v, blocks);
            let down = at_line_start(seen).linefeed();
            &&& seen.wrap_now().wrap_wide(w) == down
            &&& down.wrap_now().wrap_wide(w) == down
        }),
{
    reveal(with_blocks);
    reveal(at_line_start);
    lemma_wraps_down(with_blocks(v, blocks), w);
}

proof fn lemma_wrapped_print(v: GridView, fresh: GridView, glyph: char, now: u64)
    requires
        v.cols >= 2,
        columns(glyph) == 1 || columns(glyph) == 2,
        v.wrap_pending || (columns(glyph) == 2 && v.cursor_col == v.cols - 1),
        fresh == at_line_start(unwrapped(v).linefeed()),
    ensures
        v.perform(VtEventView::Print(glyph), now) == fresh.perform(VtEventView::Print(glyph), now),
{
    let n = columns(glyph);
    let blocks = v.blocks.print(glyph);
    let seen = with_blocks(v, blocks);
    let down = at_line_start(seen).linefeed();
    lemma_fresh_line_and_blocks(v, blocks);
    lemma_print_as_seen(v, glyph, now);
    lemma_print_as_seen(fresh, glyph, now);
    lemma_seen_wraps_down(v, blocks, n);
    lemma_put_goes_by_the_landing(seen, down, glyph, n);
}

/// A deferred wrap is carried out before the next glyph, and so is the wrap of a
/// glyph of two columns that has only one left: either way the glyph is printed as
/// on a fresh line, at the first column of the row that a line feed leads to.
pub proof fn lemma_a_glyph_wraps_to_a_fresh_line(v: GridView, glyph: char, now: u64)
    requires
        v.wf(),
        v.cols >= 2,
        columns(glyph) == 1 || columns(glyph) == 2,
        v.wrap_pending || (columns(glyph) == 2 && v.cursor_col == v.cols - 1),
    ensures
        v.perform(VtEventView::Print(glyph), now) == (GridView {
            cursor_col: 0,
            ..v.perform(VtEventView::Execute(0x0a), now)
        }).perform(VtEventView::Print(glyph), now),
{
    lemma_line_feed_is_carried_out(v, now);
    lemma_wrapped_print(v, at_line_start(unwrapped(v).linefeed()), glyph, now);
}

/// The marks that stand on a cell.
pub open spec fn marks_on(v: GridView, cell: Cell) -> Seq<char> {
    if cell.combining == 0 {
        Seq::empty()
    } else {
        v.combining[cell.combining - 1]
    }
}

proof fn lemma_combined(v: GridView, mark: char, lead: int)
    requires
        v.wf(),
        v.rows > 0,
        v.cols > 0,
        v.wrap_pending || v.cursor_col > 0,
        v.combining.len() < 65535,
        0 <= lead < v.cols,
        lead == v.lead_col(
            v.cursor_row,
            if v.wrap_pending {
                v.cols - 1
            } else {
                v.cursor_col - 1
            },
        ),
        shown(v, v.cursor_row, lead).combining <= v.combining.len(),
    ensures
        ({
            let old = shown(v, v.cursor_row, lead);
            let next = (v.combining.len() + 1) as u16;
            let k = old.combining - 1;
            v.combine(mark) == if old.combining == 0 {
                (GridView {
                    combining: v.combining.push(seq![mark]),
                    ..v.set_cell(v.cursor_row, lead, Cell { combining: next, ..old })
                })
            } else {
                (GridView { combining: v.combining.update(k, v.combining[k].push(mark)), ..v })
            }
        }),
{
    grid_laws::lemma_rectangle_row(v.active(), v.cols, v.cursor_row);
    reveal(GridView::combine);
}

/// A mark of no width joins the marks of the glyph before the cursor, behind those
/// that stand on it; the lead of a glyph of two columns takes it. The glyph itself
/// and every other cell stay. At the start of a line it is dropped.
#[verifier::rlimit(50)]
pub proof fn lemma_a_mark_joins_the_glyph_before_it(
    v: GridView,
    mark: char,
    now: u64,
    r: int,
    c: int,
)
    requires
        v.wf(),
        v.rows > 0,
        v.cols > 0,
        columns(mark) == 0,
        v.combining.len() < 65535,
        0 <= r < v.rows,
        0 <= c < v.cols,
    ensures
        ({
            let w = v.perform(VtEventView::Print(mark), now);
            let before = if v.wrap_pending {
                v.cols - 1
            } else {
                v.cursor_col - 1
            };
            let lead = if before > 0 && shown(v, v.cursor_row, before).width == 0 {
                before - 1
            } else {
                before
            };
            let old = shown(v, v.cursor_row, lead);
            let new = shown(w, v.cursor_row, lead);
            &&& before < 0 ==> w == (GridView { blocks: v.blocks.print(mark), ..v })
            &&& before >= 0 && old.combining <= v.combining.len() ==> {
                &&& new == (Cell { combining: new.combining, ..old })
                &&& 1 <= new.combining <= w.combining.len()
                &&& marks_on(w, new) == marks_on(v, old).push(mark)
                &&& old.combining > 0 ==> new.combining == old.combining
                &&& r != v.cursor_row || c != lead ==> shown(w, r, c) == shown(v, r, c)
                &&& forall|k: int|
                    0 <= k < v.combining.len() && k != old.combining - 1
                        ==> #[trigger] w.combining[k] == v.combining[k]
            }
        }),
{
    let seen = GridView { blocks: v.blocks.print(mark), ..v };
    assert(v.perform(VtEventView::Print(mark), now) == seen.combine(mark)) by {
        reveal(GridView::perform);
        reveal(GridView::print);
    }
    let before = if v.wrap_pending {
        v.cols - 1
    } else {
        v.cursor_col - 1
    };
    if before < 0 {
        reveal(GridView::combine);
    } else {
        let row = v.cursor_row;
        grid_laws::lemma_rectangle_row(v.active(), v.cols, row);
        let lead = seen.lead_col(row, before);
        let old = shown(v, row, lead);
        if old.combining <= v.combining.len() {
            lemma_combined(seen, mark, lead);
            let next = (seen.combining.len() + 1) as u16;
            let cell = Cell { combining: next, ..old };
            lemma_set(seen, row, lead, cell, r, c);
            lemma_set(seen, row, lead, cell, row, lead);
            assert(seq![mark] =~= Seq::<char>::empty().push(mark));
        }
    }
}

/// `CSI b` prints the last printed character again, as often as its count says: it
/// is that many prints in a row, and nothing where none was printed.
pub proof fn lemma_a_repeat_prints_again(
    v: GridView,
    params: Seq<Seq<u16>>,
    intermediates: Seq<u8>,
    now: u64,
    glyph: char,
)
    requires
        ordinary(intermediates, 'b'),
    ensures
        v.last_printed is None ==> v.perform(sequence(params, intermediates, 'b'), now)
            == unwrapped(v),
        v.last_printed == Some(glyph) ==> v.perform(sequence(params, intermediates, 'b'), now)
            == unwrapped(v).run(
            Seq::new(count(params) as nat, |i: int| VtEventView::Print(glyph)),
            now,
        ),
{
    csi_laws::lemma_ordinary_sequence(v, params, intermediates, 'b', now);
    let u = unwrapped(v);
    reveal(GridView::standard_csi);
    if v.last_printed == Some(glyph) {
        lemma_prints_in_a_row(u, glyph, count(params), now);
    }
}

proof fn lemma_prints_in_a_row(v: GridView, glyph: char, n: int, now: u64)
    requires
        n >= 0,
    ensures
        v.print_times(glyph, n) == v.run(
            Seq::new(n as nat, |i: int| VtEventView::Print(glyph)),
            now,
        ),
    decreases n,
{
    let evs = Seq::new(n as nat, |i: int| VtEventView::Print(glyph));
    if n > 0 {
        lemma_prints_in_a_row(v, glyph, n - 1, now);
        assert(evs.drop_last() =~= Seq::new((n - 1) as nat, |i: int| VtEventView::Print(glyph)));
        assert(evs.last() == VtEventView::Print(glyph));
        reveal(GridView::perform);
    }
}

/// Events are carried out in the order they are read: a list of them does what its
/// first part does, and then what the rest does.
pub proof fn lemma_events_are_carried_out_in_order(
    v: GridView,
    first: Seq<VtEventView>,
    rest: Seq<VtEventView>,
    now: u64,
)
    ensures
        v.run(first + rest, now) == v.run(first, now).run(rest, now),
        rest.len() == 1 ==> v.run(rest, now) == v.perform(rest[0], now),
    decreases rest.len(),
{
    if rest.len() == 0 {
        assert(first + rest =~= first);
    } else {
        let all = first + rest;
        assert(all.drop_last() =~= first + rest.drop_last());
        assert(all.last() == rest.last());
        lemma_events_are_carried_out_in_order(v, first, rest.drop_last(), now);
    }
    if rest.len() == 1 {
        assert(rest.drop_last().len() == 0);
        assert(v.run(rest.drop_last(), now) == v);
    }
}

} // verus!
