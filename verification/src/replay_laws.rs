//! A terminal that takes the steps of a replay shows the screen of the
//! snapshot.
use crate::grid_laws;
use crate::grid_model;
use crate::grid_model::GridView;
use crate::pane_snapshot::{Cell, CellAttrs, Color};
use crate::replay;
use crate::replay::Step;
use crate::seqops;
use crate::sgr;
use crate::sgr::Pen;
use crate::snapshot;
use crate::snapshot::SnapshotView;
use crate::vt;
use crate::vt::VtEventView;
use vstd::prelude::*;

verus! {

proof fn lemma_code_is_walked(pen: Pen, code: u16, rest: Seq<Seq<u16>>, palette: Seq<Color>)
    requires
        code != 38,
        code != 48,
        code != 58,
    ensures
        pen.walk(seq![seq![code]] + rest, palette) == pen.code(code, palette).walk(rest, palette),
{
    let items = seq![seq![code]] + rest;
    assert(items[0] =~= seq![code]);
    assert(items.skip(1) =~= rest);
}

/// The pen with an attribute of a set.
spec fn takes(pen: Pen, attrs: CellAttrs, a: CellAttrs) -> Pen {
    if attrs.contains(a) {
        pen.adds(a)
    } else {
        pen
    }
}

proof fn lemma_attr_is_walked(
    pen: Pen,
    attrs: CellAttrs,
    a: CellAttrs,
    code: u16,
    rest: Seq<Seq<u16>>,
    palette: Seq<Color>,
)
    requires
        code != 38,
        code != 48,
        code != 58,
        pen.code(code, palette) == pen.adds(a),
    ensures
        pen.walk(replay::attr_param(attrs, a, code) + rest, palette) == takes(pen, attrs, a).walk(
            rest,
            palette,
        ),
{
    if attrs.contains(a) {
        lemma_code_is_walked(pen, code, rest, palette);
    } else {
        assert(replay::attr_param(attrs, a, code) + rest =~= rest);
    }
}

proof fn lemma_color_is_walked(
    pen: Pen,
    plane: u16,
    c: Color,
    rest: Seq<Seq<u16>>,
    palette: Seq<Color>,
)
    requires
        plane == 38 || plane == 48,
    ensures
        pen.walk(replay::color_params(plane, c) + rest, palette) == pen.extended(
            plane,
            Some(c),
        ).walk(rest, palette),
{
    let items = replay::color_params(plane, c) + rest;
    assert(items[0] =~= seq![plane]);
    assert(items[1] =~= seq![2u16]);
    assert(items[2] =~= seq![c.r as u16]);
    assert(items[3] =~= seq![c.g as u16]);
    assert(items[4] =~= seq![c.b as u16]);
    assert(sgr::extended_color(items, palette) == (Some(c), 5int));
    assert(items.skip(5) =~= rest);
}

proof fn lemma_bits_add_up(b: u16)
    requires
        b < 256,
    ensures
        ({
            let b0 = if b & 1 == 1 { 0u16 | 1 } else { 0u16 };
            let b1 = if b & 2 == 2 { b0 | 2 } else { b0 };
            let b2 = if b & 4 == 4 { b1 | 4 } else { b1 };
            let b3 = if b & 8 == 8 { b2 | 8 } else { b2 };
            let b4 = if b & 16 == 16 { b3 | 16 } else { b3 };
            let b5 = if b & 32 == 32 { b4 | 32 } else { b4 };
            let b6 = if b & 64 == 64 { b5 | 64 } else { b5 };
            let b7 = if b & 128 == 128 { b6 | 128 } else { b6 };
            b7 == b
        }),
{
    assert(({
        let b0 = if b & 1 == 1 { 0u16 | 1 } else { 0u16 };
        let b1 = if b & 2 == 2 { b0 | 2 } else { b0 };
        let b2 = if b & 4 == 4 { b1 | 4 } else { b1 };
        let b3 = if b & 8 == 8 { b2 | 8 } else { b2 };
        let b4 = if b & 16 == 16 { b3 | 16 } else { b3 };
        let b5 = if b & 32 == 32 { b4 | 32 } else { b4 };
        let b6 = if b & 64 == 64 { b5 | 64 } else { b5 };
        let b7 = if b & 128 == 128 { b6 | 128 } else { b6 };
        b7 == b
    })) by (bit_vector)
        requires
            b < 256,
    ;
}

/// The SGR sequence of a pen sets that pen, whatever the pen was before.
pub proof fn lemma_pen_is_set(pen: Pen, p: Pen, palette: Seq<Color>)
    requires
        p.attrs.bits < 256,
    ensures
        pen.sgr(replay::pen_params(p), palette) == p,
{
    let attrs = p.attrs;
    let none = Seq::<Seq<u16>>::empty();
    let last = replay::color_params(48, p.bg);
    let t8 = replay::color_params(38, p.fg) + last;
    let t7 = replay::attr_param(attrs, CellAttrs::strikethrough(), 9) + t8;
    let t6 = replay::attr_param(attrs, CellAttrs::hidden(), 8) + t7;
    let t5 = replay::attr_param(attrs, CellAttrs::inverse(), 7) + t6;
    let t4 = replay::attr_param(attrs, CellAttrs::blink(), 5) + t5;
    let t3 = replay::attr_param(attrs, CellAttrs::underline(), 4) + t4;
    let t2 = replay::attr_param(attrs, CellAttrs::italic(), 3) + t3;
    let t1 = replay::attr_param(attrs, CellAttrs::dim(), 2) + t2;
    let t0 = replay::attr_param(attrs, CellAttrs::bold(), 1) + t1;
    lemma_code_is_walked(pen, 0, t0, palette);
    let p0 = Pen::plain();
    lemma_attr_is_walked(p0, attrs, CellAttrs::bold(), 1, t1, palette);
    let p1 = takes(p0, attrs, CellAttrs::bold());
    lemma_attr_is_walked(p1, attrs, CellAttrs::dim(), 2, t2, palette);
    let p2 = takes(p1, attrs, CellAttrs::dim());
    lemma_attr_is_walked(p2, attrs, CellAttrs::italic(), 3, t3, palette);
    let p3 = takes(p2, attrs, CellAttrs::italic());
    lemma_attr_is_walked(p3, attrs, CellAttrs::underline(), 4, t4, palette);
    let p4 = takes(p3, attrs, CellAttrs::underline());
    lemma_attr_is_walked(p4, attrs, CellAttrs::blink(), 5, t5, palette);
    let p5 = takes(p4, attrs, CellAttrs::blink());
    lemma_attr_is_walked(p5, attrs, CellAttrs::inverse(), 7, t6, palette);
    let p6 = takes(p5, attrs, CellAttrs::inverse());
    lemma_attr_is_walked(p6, attrs, CellAttrs::hidden(), 8, t7, palette);
    let p7 = takes(p6, attrs, CellAttrs::hidden());
    lemma_attr_is_walked(p7, attrs, CellAttrs::strikethrough(), 9, t8, palette);
    let p8 = takes(p7, attrs, CellAttrs::strikethrough());
    lemma_color_is_walked(p8, 38, p.fg, last, palette);
    assert(last + none =~= last);
    lemma_color_is_walked(p8.extended(38, Some(p.fg)), 48, p.bg, none, palette);
    lemma_bits_add_up(attrs.bits);
}

/// The terminal after a list of steps taken at `now`.
pub open spec fn after(v: GridView, steps: Seq<Step>, now: u64) -> GridView {
    v.run(replay::events(steps), now)
}

proof fn lemma_run_append(v: GridView, a: Seq<VtEventView>, b: Seq<VtEventView>, now: u64)
    ensures
        v.run(a + b, now) == v.run(a, now).run(b, now),
    decreases b.len(),
{
    if b.len() == 0 {
        assert(a + b =~= a);
    } else {
        lemma_run_append(v, a, b.drop_last(), now);
        assert((a + b).drop_last() =~= a + b.drop_last());
        assert((a + b).last() == b.last());
    }
}

proof fn lemma_after_append(v: GridView, a: Seq<Step>, b: Seq<Step>, now: u64)
    ensures
        after(v, a + b, now) == after(after(v, a, now), b, now),
{
    assert(replay::events(a + b) =~= replay::events(a) + replay::events(b));
    lemma_run_append(v, replay::events(a), replay::events(b), now);
}

proof fn lemma_after_none(v: GridView, now: u64)
    ensures
        after(v, Seq::empty(), now) == v,
{
}

proof fn lemma_after_one(v: GridView, s: Step, now: u64)
    ensures
        after(v, seq![s], now) == v.perform(s.event(), now),
{
    let evs = replay::events(seq![s]);
    assert(evs.drop_last() =~= Seq::<VtEventView>::empty());
    assert(v.run(Seq::<VtEventView>::empty(), now) == v);
    assert(evs.last() == s.event());
}

/// What the steps for a row leave alone.
spec fn kept(v: GridView, w: GridView) -> bool {
    &&& w.wf()
    &&& w.rows == v.rows
    &&& w.cols == v.cols
    &&& w.alt_active == v.alt_active
    &&& w.insert_mode == v.insert_mode
    &&& w.cursor_visible == v.cursor_visible
}

proof fn lemma_pen_step(v: GridView, p: Pen, now: u64)
    requires
        v.wf(),
        p.attrs.bits < 256,
    ensures
        after(v, seq![Step::SetPen(p)], now) == (GridView { pen: p, ..v }),
{
    lemma_after_one(v, Step::SetPen(p), now);
    reveal(GridView::perform);
    reveal(GridView::csi);
    reveal(GridView::standard_csi);
    lemma_pen_is_set(v.pen, p, v.palette);
}

proof fn lemma_reset_step(v: GridView, now: u64)
    ensures
        after(v, seq![Step::Reset], now) == (GridView { pen: Pen::plain(), ..v }),
{
    lemma_after_one(v, Step::Reset, now);
    reveal(GridView::perform);
    reveal(GridView::csi);
    reveal(GridView::standard_csi);
    let none = Seq::<Seq<u16>>::empty();
    assert(seq![seq![0u16]] + none =~= seq![seq![0u16]]);
    lemma_code_is_walked(v.pen, 0, none, v.palette);
}

proof fn lemma_move_step(v: GridView, row: nat, col: nat, now: u64)
    requires
        v.wf(),
        1 <= row <= v.rows,
        1 <= col <= v.cols,
        row <= 65535,
        col <= 65535,
    ensures
        after(v, seq![Step::MoveTo(row, col)], now) == (GridView {
            cursor_row: row - 1,
            cursor_col: col - 1,
            wrap_pending: false,
            ..v
        }),
{
    lemma_after_one(v, Step::MoveTo(row, col), now);
    reveal(GridView::perform);
    reveal(GridView::csi);
    reveal(GridView::standard_csi);
    reveal(GridView::cursor_set);
    let params = seq![seq![row as u16], seq![col as u16]];
    assert(sgr::first_of(params, 0) == Some(row as u16));
    assert(sgr::first_of(params, 1) == Some(col as u16));
}

proof fn lemma_clear_step(v: GridView, now: u64)
    ensures
        after(v, seq![Step::Clear], now) == (GridView { wrap_pending: false, ..v }).erase_all(),
{
    lemma_after_one(v, Step::Clear, now);
    reveal(GridView::perform);
    reveal(GridView::csi);
    reveal(GridView::standard_csi);
    assert(sgr::first_of(seq![seq![2u16]], 0) == Some(2u16));
}

proof fn lemma_home_step(v: GridView, now: u64)
    requires
        v.wf(),
    ensures
        after(v, seq![Step::Home], now) == (GridView {
            cursor_row: 0,
            cursor_col: 0,
            wrap_pending: false,
            ..v
        }),
{
    lemma_after_one(v, Step::Home, now);
    reveal(GridView::perform);
    reveal(GridView::csi);
    reveal(GridView::standard_csi);
    reveal(GridView::cursor_set);
    let params = seq![seq![0u16]];
    assert(sgr::first_of(params, 0) == Some(0u16));
    assert(sgr::first_of(params, 1) is None);
}

proof fn lemma_hide_step(v: GridView, now: u64)
    ensures
        after(v, seq![Step::HideCursor], now) == (GridView {
            cursor_visible: false,
            wrap_pending: false,
            ..v
        }),
{
    lemma_after_one(v, Step::HideCursor, now);
    let w = GridView { wrap_pending: false, ..v };
    let none = Seq::<Seq<u16>>::empty();
    let params = seq![seq![25u16]];
    assert(w.dec_modes(params, false) == w.dec_mode(25, false)) by {
        assert(params.drop_last() =~= none);
        assert(params.last() == seq![25u16]);
        assert(w.dec_modes(none, false) == w);
    }
    assert(w.dec_mode(25, false) == (GridView { cursor_visible: false, ..w })) by {
        reveal(GridView::dec_mode);
    }
    assert(v.perform(Step::HideCursor.event(), now) == w.dec_modes(params, false)) by {
        reveal(GridView::perform);
        reveal(GridView::csi);
        reveal(GridView::private_csi);
    }
}

/// The row that a glyph of width `w` leaves.
spec fn written(v: GridView, c: char, w: int) -> Seq<Cell> {
    let row = v.active()[v.cursor_row].update(v.cursor_col, v.print_cell(c, w));
    if w == 2 {
        row.update(v.cursor_col + 1, v.continuation_cell())
    } else {
        row
    }
}

/// True when no double-width glyph stands in the next `w` columns.
spec fn clear_ahead(v: GridView, w: int) -> bool {
    forall|k: int|
        v.cursor_col <= k < v.cursor_col + w ==> (#[trigger] v.active()[v.cursor_row][k]).width == 1
}

proof fn lemma_glyph_is_placed(v: GridView, c: char, w: int)
    requires
        v.wf(),
        v.cursor_row < v.rows,
        !v.insert_mode,
        w == 1 || w == 2,
        v.cursor_col + w <= v.cols,
        clear_ahead(v, w),
    ensures
        v.place(c, w) == v.with_active(v.active().update(v.cursor_row, written(v, c, w))),
{
    let row = v.cursor_row;
    let col = v.cursor_col;
    let s = v.active();
    grid_laws::lemma_rectangle_row(s, v.cols, row);
    assert(s[row][col].width == 1);
    assert(s[row][col + w - 1].width == 1);
    assert(v.clear_orphans(row, col, w) == v) by {
        reveal(GridView::clear_orphans);
    }
    let cell = v.print_cell(c, w);
    let put = v.with_active(s.update(row, s[row].update(col, cell)));
    assert(v.set_cell(row, col, cell) == put) by {
        reveal(GridView::set_cell);
    }
    if w == 2 {
        let both = s.update(row, written(v, c, w));
        assert(put.set_cell(row, col + 1, v.continuation_cell()) == v.with_active(both)) by {
            reveal(GridView::set_cell);
            assert(put.active()[row] == s[row].update(col, cell));
            assert(put.active().update(row, written(v, c, w)) =~= both);
        }
    }
    reveal(GridView::place);
}

proof fn lemma_glyph_step(v: GridView, c: char, w: int, now: u64)
    requires
        v.wf(),
        v.cursor_row < v.rows,
        !v.wrap_pending,
        !v.insert_mode,
        w == 1 || w == 2,
        vt::char_columns(c) == Some(w as usize),
        v.cursor_col + w <= v.cols,
        clear_ahead(v, w),
    ensures
        ({
            let u = after(v, seq![Step::Print(c)], now);
            &&& kept(v, u)
            &&& u.pen == v.pen
            &&& u.combining == v.combining
            &&& u.cursor_row == v.cursor_row
            &&& u.cursor_col == seqops::imin(v.cursor_col + w, v.cols - 1)
            &&& u.wrap_pending == (v.cursor_col + w == v.cols)
            &&& u.active() == v.active().update(v.cursor_row, written(v, c, w))
        }),
{
    lemma_after_one(v, Step::Print(c), now);
    grid_laws::lemma_print_wf(v, c);
    reveal(GridView::perform);
    reveal(GridView::print);
    let seen = GridView { blocks: v.blocks.print(c), ..v };
    assert(v.print(c) == seen.put_char(c, w));
    assert(seen.active() == v.active());
    assert(clear_ahead(seen, w)) by {
        assert forall|k: int| seen.cursor_col <= k < seen.cursor_col + w implies (
        #[trigger] seen.active()[seen.cursor_row][k]).width == 1 by {
            assert(v.active()[v.cursor_row][k].width == 1);
        }
    }
    lemma_glyph_is_placed(seen, c, w);
    assert(written(seen, c, w) == written(v, c, w));
    assert(seen.wrap_now().wrap_wide(w) == seen) by {
        reveal(GridView::wrap_now);
        reveal(GridView::wrap_wide);
    }
    reveal(GridView::put_char);
    reveal(GridView::advance);
}

/// True when a mark would join the glyph at a place.
spec fn stands_on(v: GridView, row: int, col: int) -> bool {
    let from = if v.wrap_pending {
        v.last_col()
    } else {
        v.cursor_col - 1
    };
    &&& row == v.cursor_row
    &&& 0 <= row < v.rows
    &&& 0 <= col < v.cols
    &&& v.wrap_pending || v.cursor_col > 0
    &&& v.lead_col(row, from) == col
}

/// `w` is `v` with marks on the bare glyph at a place.
spec fn stacked(v: GridView, w: GridView, row: int, col: int, marks: Seq<char>) -> bool {
    &&& kept(v, w)
    &&& w.pen == v.pen
    &&& w.cursor_row == v.cursor_row
    &&& w.cursor_col == v.cursor_col
    &&& w.wrap_pending == v.wrap_pending
    &&& if marks.len() == 0 {
        w.active() == v.active() && w.combining == v.combining
    } else {
        let cell = Cell {
            combining: (v.combining.len() + 1) as u16,
            ..v.active()[row][col]
        };
        &&& w.combining == v.combining.push(marks)
        &&& w.active() == v.active().update(row, v.active()[row].update(col, cell))
    }
}

proof fn lemma_still_stands_on(v: GridView, w: GridView, row: int, col: int, marks: Seq<char>)
    requires
        v.wf(),
        stands_on(v, row, col),
        stacked(v, w, row, col, marks),
    ensures
        stands_on(w, row, col),
{
    let from = if v.wrap_pending {
        v.last_col()
    } else {
        v.cursor_col - 1
    };
    grid_laws::lemma_rectangle_row(v.active(), v.cols, row);
    grid_laws::lemma_rectangle_row(w.active(), w.cols, row);
    assert(w.active()[row][from].width == v.active()[row][from].width);
}

proof fn lemma_mark_step(
    v: GridView,
    w: GridView,
    row: int,
    col: int,
    marks: Seq<char>,
    c: char,
    now: u64,
)
    requires
        v.wf(),
        stands_on(v, row, col),
        v.active()[row][col].combining == 0,
        v.combining.len() < 65535,
        stacked(v, w, row, col, marks),
        vt::char_columns(c) == Some(0usize),
    ensures
        stacked(v, after(w, seq![Step::Print(c)], now), row, col, marks.push(c)),
{
    lemma_after_one(w, Step::Print(c), now);
    lemma_still_stands_on(v, w, row, col, marks);
    grid_laws::lemma_print_wf(w, c);
    reveal(GridView::perform);
    reveal(GridView::print);
    reveal(GridView::combine);
    reveal(GridView::set_cell);
    let seen = GridView { blocks: w.blocks.print(c), ..w };
    grid_laws::lemma_rectangle_row(v.active(), v.cols, row);
    grid_laws::lemma_rectangle_row(w.active(), w.cols, row);
    assert(seen.lead_col(row, if w.wrap_pending { w.last_col() } else { w.cursor_col - 1 }) == col);
    assert(seen.cell_at(row, col) == Some(w.active()[row][col]));
    let u = w.print(c);
    assert(u == seen.combine(c));
    if marks.len() == 0 {
        assert(marks.push(c) =~= seq![c]);
        assert(u.combining == w.combining.push(seq![c]));
    } else {
        let at = v.combining.len() as int;
        assert(w.active()[row][col].combining == at + 1);
        assert(w.combining[at] == marks);
        assert(u.combining =~= v.combining.push(marks.push(c)));
        assert(u.active() == w.active());
    }
}

proof fn lemma_marks_step(v: GridView, row: int, col: int, marks: Seq<char>, now: u64)
    requires
        v.wf(),
        stands_on(v, row, col),
        v.active()[row][col].combining == 0,
        marks.len() > 0 ==> v.combining.len() < 65535,
        forall|i: int| 0 <= i < marks.len() ==> vt::char_columns(#[trigger] marks[i]) == Some(0usize),
    ensures
        stacked(v, after(v, replay::printed(marks), now), row, col, marks),
    decreases marks.len(),
{
    if marks.len() == 0 {
        lemma_after_none(v, now);
    } else {
        let rest = marks.drop_last();
        let c = marks.last();
        assert forall|i: int| 0 <= i < rest.len() implies vt::char_columns(#[trigger] rest[i])
            == Some(0usize) by {
            assert(rest[i] == marks[i]);
        }
        lemma_marks_step(v, row, col, rest, now);
        assert(marks =~= rest.push(c));
        replay::lemma_printed_one_more(rest, c);
        let w = after(v, replay::printed(rest), now);
        assert(vt::char_columns(marks[marks.len() - 1]) == Some(0usize));
        lemma_mark_step(v, w, row, col, rest, c, now);
        lemma_after_append(v, replay::printed(rest), seq![Step::Print(c)], now);
        assert(replay::printed(marks) =~= replay::printed(rest) + seq![Step::Print(c)]);
    }
}

/// The second half of a double-width glyph, in the colours of its lead.
pub open spec fn second_half(lead: Cell) -> Cell {
    Cell { ch: ' ', width: 0, combining: 0, ..lead }
}

/// True of a cell that a replay can put back: a glyph as wide as its cell says,
/// with marks that take no column; or the second half of the glyph before it.
pub open spec fn paintable(row: Seq<Cell>, table: Seq<Seq<char>>, i: int) -> bool {
    let c = row[i];
    &&& c.attrs.bits < 256
    &&& if c.width == 0 {
        i > 0 && row[i - 1].width == 2 && c == second_half(row[i - 1])
    } else {
        &&& c.width == 1 || c.width == 2
        &&& c.width == 2 ==> i + 1 < row.len() && row[i + 1].width == 0
        &&& vt::char_columns(c.ch) == Some(c.width as usize)
        &&& forall|k: int|
            0 <= k < c.spec_marks(table).len() ==> vt::char_columns(
                #[trigger] c.spec_marks(table)[k],
            ) == Some(0usize)
    }
}

/// The same glyph, colours, attributes, width and marks.
pub open spec fn alike(a: Cell, ta: Seq<Seq<char>>, b: Cell, tb: Seq<Seq<char>>) -> bool {
    &&& a.ch == b.ch
    &&& a.fg == b.fg
    &&& a.bg == b.bg
    &&& a.attrs == b.attrs
    &&& a.width == b.width
    &&& a.spec_marks(ta) == b.spec_marks(tb)
}

/// What the steps for a glyph at the cursor do.
spec fn glyph_done(v: GridView, u: GridView, c: Cell, marks: Seq<char>) -> bool {
    let row = v.active()[v.cursor_row];
    let next = (v.combining.len() + 1) as u16;
    let own = Cell {
        combining: if marks.len() == 0 {
            0
        } else {
            next
        },
        ..c
    };
    &&& kept(v, u)
    &&& u.pen == snapshot::cell_pen(c)
    &&& u.combining == if marks.len() == 0 {
        v.combining
    } else {
        v.combining.push(marks)
    }
    &&& u.cursor_row == v.cursor_row
    &&& u.cursor_col == seqops::imin(v.cursor_col + c.width, v.cols - 1)
    &&& u.wrap_pending == (v.cursor_col + c.width == v.cols)
    &&& u.active() == v.active().update(
        v.cursor_row,
        if c.width == 2 {
            row.update(v.cursor_col, own).update(v.cursor_col + 1, second_half(c))
        } else {
            row.update(v.cursor_col, own)
        },
    )
}

proof fn lemma_cell_steps(v: GridView, line: Seq<Cell>, table: Seq<Seq<char>>, i: int, now: u64)
    requires
        v.wf(),
        v.cursor_row < v.rows,
        !v.wrap_pending,
        !v.insert_mode,
        0 <= i < line.len(),
        line.len() == v.cols,
        v.cursor_col == i,
        line[i].width != 0,
        paintable(line, table, i),
        clear_ahead(v, line[i].width as int),
        line[i].spec_marks(table).len() > 0 ==> v.combining.len() < 65535,
    ensures
        glyph_done(
            v,
            after(v, replay::cell_steps(line[i], table, v.pen), now),
            line[i],
            line[i].spec_marks(table),
        ),
{
    let c = line[i];
    let w = c.width as int;
    let row = v.cursor_row;
    let marks = c.spec_marks(table);
    let own = snapshot::cell_pen(c);
    let set = if own == v.pen {
        Seq::<Step>::empty()
    } else {
        seq![Step::SetPen(own)]
    };
    let v1 = after(v, set, now);
    assert(v1 == (GridView { pen: own, ..v })) by {
        if own == v.pen {
            lemma_after_none(v, now);
        } else {
            lemma_pen_step(v, own, now);
        }
    }
    assert(clear_ahead(v1, w)) by {
        assert forall|k: int| v1.cursor_col <= k < v1.cursor_col + w implies (
        #[trigger] v1.active()[v1.cursor_row][k]).width == 1 by {
            assert(v.active()[v.cursor_row][k].width == 1);
        }
    }
    lemma_glyph_step(v1, c.ch, w, now);
    let v2 = after(v1, seq![Step::Print(c.ch)], now);
    lemma_after_append(v, set, seq![Step::Print(c.ch)], now);
    assert(set.push(Step::Print(c.ch)) =~= set + seq![Step::Print(c.ch)]);
    grid_laws::lemma_rectangle_row(v.active(), v.cols, row);
    grid_laws::lemma_rectangle_row(v2.active(), v2.cols, row);
    assert(v2.active()[row] == written(v1, c.ch, w));
    assert(v2.active()[row][i] == (Cell { combining: 0, ..c }));
    if w == 2 {
        assert(v2.active()[row][i + 1].width == 0);
    }
    assert(stands_on(v2, row, i));
    lemma_marks_step(v2, row, i, marks, now);
    let u = after(v2, replay::printed(marks), now);
    lemma_after_append(v, set.push(Step::Print(c.ch)), replay::printed(marks), now);
    assert(u == after(v, replay::cell_steps(c, table, v.pen), now));
    let bare = v.active()[row];
    let marked = Cell {
        combining: if marks.len() == 0 {
            0
        } else {
            (v.combining.len() + 1) as u16
        },
        ..c
    };
    let goal = if c.width == 2 {
        bare.update(i, marked).update(i + 1, second_half(c))
    } else {
        bare.update(i, marked)
    };
    assert(u.active()[row] =~= goal);
    assert(u.active() =~= v.active().update(row, goal));
}

/// How many of the first `n` cells of a row carry marks that a replay prints.
pub open spec fn row_marked(row: Seq<Cell>, table: Seq<Seq<char>>, n: nat) -> nat
    decreases n,
{
    if n == 0 {
        0
    } else {
        row_marked(row, table, (n - 1) as nat) + if row[n - 1].width != 0 && row[n - 1].spec_marks(
            table,
        ).len() > 0 {
            1nat
        } else {
            0
        }
    }
}

/// How many cells of the first `n` rows carry marks that a replay prints.
pub open spec fn marked(cells: Seq<Seq<Cell>>, table: Seq<Seq<char>>, n: nat) -> nat
    decreases n,
{
    if n == 0 {
        0
    } else {
        marked(cells, table, (n - 1) as nat) + row_marked(
            cells[n - 1],
            table,
            cells[n - 1].len(),
        )
    }
}

proof fn lemma_row_marked_grows(row: Seq<Cell>, table: Seq<Seq<char>>, m: nat, n: nat)
    requires
        m <= n,
    ensures
        row_marked(row, table, m) <= row_marked(row, table, n),
    decreases n,
{
    if m < n {
        lemma_row_marked_grows(row, table, m, (n - 1) as nat);
    }
}

proof fn lemma_marked_grows(cells: Seq<Seq<Cell>>, table: Seq<Seq<char>>, m: nat, n: nat)
    requires
        m <= n,
    ensures
        marked(cells, table, m) <= marked(cells, table, n),
    decreases n,
{
    if m < n {
        lemma_marked_grows(cells, table, m, (n - 1) as nat);
    }
}

/// A screen of a size, each cell of which a replay can put back.
pub open spec fn paintable_screen(
    cells: Seq<Seq<Cell>>,
    table: Seq<Seq<char>>,
    rows: int,
    cols: int,
) -> bool {
    &&& cells.len() == rows
    &&& forall|r: int| 0 <= r < rows ==> (#[trigger] cells[r]).len() == cols
    &&& forall|r: int, c: int|
        0 <= r < rows && 0 <= c < cols ==> #[trigger] paintable(cells[r], table, c)
}

/// What stands at a place when the rows before `r`, and `p` columns of row `r`,
/// have been painted: the cell of the screen, or a blank.
spec fn spot(
    v: GridView,
    cells: Seq<Seq<Cell>>,
    table: Seq<Seq<char>>,
    r: int,
    p: int,
    row: int,
    col: int,
) -> bool {
    let a = v.active()[row][col];
    if row < r || row == r && col < p {
        &&& alike(a, v.combining, cells[row][col], table)
        &&& a.combining <= v.combining.len()
    } else {
        a == Cell::blank()
    }
}

spec fn spots(
    v: GridView,
    cells: Seq<Seq<Cell>>,
    table: Seq<Seq<char>>,
    r: int,
    p: int,
) -> bool {
    forall|row: int, col: int|
        0 <= row < v.rows && 0 <= col < v.cols ==> #[trigger] spot(
            v,
            cells,
            table,
            r,
            p,
            row,
            col,
        )
}

/// How many columns the first `n` cells of a row take.
spec fn columns(row: Seq<Cell>, n: int) -> int {
    if n > 0 && row[n - 1].width == 2 {
        n + 1
    } else {
        n
    }
}

/// A terminal in the middle of a replay: `n` cells of row `r` are done.
spec fn painting(
    v: GridView,
    base: int,
    cells: Seq<Seq<Cell>>,
    table: Seq<Seq<char>>,
    r: int,
    n: nat,
    pen: Pen,
) -> bool {
    let p = columns(cells[r], n as int);
    &&& v.wf()
    &&& !v.insert_mode
    &&& 0 <= r < v.rows
    &&& 0 < v.cols
    &&& paintable_screen(cells, table, v.rows, v.cols)
    &&& n <= v.cols
    &&& v.pen == pen
    &&& v.cursor_row == r
    &&& v.cursor_col == seqops::imin(p, v.cols - 1)
    &&& v.wrap_pending == (p == v.cols)
    &&& v.combining.len() == base + marked(cells, table, r as nat) + row_marked(
        cells[r],
        table,
        n,
    )
    &&& spots(v, cells, table, r, p)
}

proof fn lemma_spot_step(
    v: GridView,
    u: GridView,
    cells: Seq<Seq<Cell>>,
    table: Seq<Seq<char>>,
    r: int,
    n: int,
    row: int,
    col: int,
)
    requires
        v.wf(),
        u.wf(),
        v.rows > 0,
        0 <= r < v.rows,
        0 <= n < v.cols,
        paintable_screen(cells, table, v.rows, v.cols),
        cells[r][n].width != 0,
        v.cursor_row == r,
        v.cursor_col == n,
        v.combining.len() < 65535 || cells[r][n].spec_marks(table).len() == 0,
        spots(v, cells, table, r, n),
        glyph_done(v, u, cells[r][n], cells[r][n].spec_marks(table)),
        0 <= row < v.rows,
        0 <= col < v.cols,
    ensures
        spot(u, cells, table, r, columns(cells[r], n + 1), row, col),
{
    let c = cells[r][n];
    let marks = c.spec_marks(table);
    assert(spot(v, cells, table, r, n, row, col));
    assert(paintable(cells[r], table, n));
    grid_laws::lemma_rectangle_row(v.active(), v.cols, r);
    grid_laws::lemma_rectangle_row(v.active(), v.cols, row);
    if row == r && col == n {
        assert(u.active()[row][col].spec_marks(u.combining) =~= marks);
    } else if row == r && col == n + 1 && c.width == 2 {
        assert(paintable(cells[r], table, n + 1));
        assert(u.active()[row][col] == second_half(c));
        assert(cells[r][n + 1] == second_half(c));
    } else {
        let a = v.active()[row][col];
        assert(u.active()[row][col] == a);
        assert(a.combining <= v.combining.len() ==> a.spec_marks(u.combining) == a.spec_marks(
            v.combining,
        ));
    }
}

proof fn lemma_painting_step(
    v: GridView,
    base: int,
    cells: Seq<Seq<Cell>>,
    table: Seq<Seq<char>>,
    r: int,
    n: nat,
    pen: Pen,
    now: u64,
)
    requires
        painting(v, base, cells, table, r, n, pen),
        n < v.cols,
        base + marked(cells, table, cells.len()) <= 65535,
    ensures
        painting(
            after(v, replay::cell_steps(cells[r][n as int], table, pen), now),
            base,
            cells,
            table,
            r,
            n + 1,
            replay::cell_leaves(cells[r][n as int], pen),
        ),
        kept(v, after(v, replay::cell_steps(cells[r][n as int], table, pen), now)),
{
    let line = cells[r];
    let c = line[n as int];
    let p = columns(line, n as int);
    assert(paintable(line, table, n as int));
    if n > 0 {
        assert(paintable(line, table, n - 1));
    }
    if c.width == 0 {
        lemma_after_none(v, now);
        assert(columns(line, n as int + 1) == p);
    } else {
        assert(p == n);
        lemma_marked_grows(cells, table, (r + 1) as nat, cells.len());
        lemma_row_marked_grows(line, table, n + 1, line.len());
        assert(clear_ahead(v, c.width as int)) by {
            assert forall|k: int| v.cursor_col <= k < v.cursor_col + c.width implies (
            #[trigger] v.active()[v.cursor_row][k]).width == 1 by {
                assert(spot(v, cells, table, r, p, r, k));
            }
        }
        lemma_cell_steps(v, line, table, n as int, now);
        let u = after(v, replay::cell_steps(c, table, pen), now);
        let q = columns(line, n as int + 1);
        assert(spots(u, cells, table, r, q)) by {
            assert forall|row: int, col: int|
                0 <= row < u.rows && 0 <= col < u.cols implies #[trigger] spot(
                u,
                cells,
                table,
                r,
                q,
                row,
                col,
            ) by {
                lemma_spot_step(v, u, cells, table, r, n as int, row, col);
            }
        }
    }
}

proof fn lemma_row_is_painted(
    v: GridView,
    base: int,
    cells: Seq<Seq<Cell>>,
    table: Seq<Seq<char>>,
    r: int,
    n: nat,
    now: u64,
)
    requires
        painting(v, base, cells, table, r, 0, Pen::plain()),
        n <= v.cols,
        base + marked(cells, table, cells.len()) <= 65535,
    ensures
        painting(
            after(v, replay::row_steps(cells[r], table, n).0, now),
            base,
            cells,
            table,
            r,
            n,
            replay::row_steps(cells[r], table, n).1,
        ),
        kept(v, after(v, replay::row_steps(cells[r], table, n).0, now)),
    decreases n,
{
    if n == 0 {
        lemma_after_none(v, now);
    } else {
        let m = (n - 1) as nat;
        lemma_row_is_painted(v, base, cells, table, r, m, now);
        let (done, pen) = replay::row_steps(cells[r], table, m);
        let w = after(v, done, now);
        lemma_painting_step(w, base, cells, table, r, m, pen, now);
        lemma_after_append(v, done, replay::cell_steps(cells[r][m as int], table, pen), now);
    }
}

/// A terminal between two rows of a replay: the rows before `r` are done.
spec fn between(
    v: GridView,
    base: int,
    cells: Seq<Seq<Cell>>,
    table: Seq<Seq<char>>,
    r: int,
) -> bool {
    &&& v.wf()
    &&& !v.insert_mode
    &&& 0 <= r <= v.rows
    &&& 0 < v.cols
    &&& paintable_screen(cells, table, v.rows, v.cols)
    &&& v.pen == Pen::plain()
    &&& v.combining.len() == base + marked(cells, table, r as nat)
    &&& spots(v, cells, table, r, 0)
}

proof fn lemma_row_begins(
    v: GridView,
    base: int,
    cells: Seq<Seq<Cell>>,
    table: Seq<Seq<char>>,
    r: int,
    now: u64,
)
    requires
        between(v, base, cells, table, r),
        r < v.rows <= 65535,
    ensures
        ({
            let u = after(v, seq![Step::MoveTo((r + 1) as nat, 1)], now);
            &&& painting(u, base, cells, table, r, 0, Pen::plain())
            &&& kept(v, u)
        }),
{
    lemma_move_step(v, (r + 1) as nat, 1, now);
    let u = after(v, seq![Step::MoveTo((r + 1) as nat, 1)], now);
    assert(spots(u, cells, table, r, 0)) by {
        assert forall|row: int, col: int|
            0 <= row < u.rows && 0 <= col < u.cols implies #[trigger] spot(
            u,
            cells,
            table,
            r,
            0,
            row,
            col,
        ) by {
            assert(spot(v, cells, table, r, 0, row, col));
        }
    }
}

proof fn lemma_row_ends(
    v: GridView,
    base: int,
    cells: Seq<Seq<Cell>>,
    table: Seq<Seq<char>>,
    r: int,
    pen: Pen,
    now: u64,
)
    requires
        painting(v, base, cells, table, r, v.cols as nat, pen),
    ensures
        ({
            let u = after(v, replay::row_tail(pen), now);
            &&& between(u, base, cells, table, r + 1)
            &&& kept(v, u)
        }),
{
    let u = after(v, replay::row_tail(pen), now);
    if pen == Pen::plain() {
        lemma_after_none(v, now);
    } else {
        lemma_reset_step(v, now);
    }
    let p = columns(cells[r], v.cols);
    assert(paintable(cells[r], table, v.cols - 1));
    assert(spots(u, cells, table, r + 1, 0)) by {
        assert forall|row: int, col: int|
            0 <= row < u.rows && 0 <= col < u.cols implies #[trigger] spot(
            u,
            cells,
            table,
            r + 1,
            0,
            row,
            col,
        ) by {
            assert(spot(v, cells, table, r, p, row, col));
        }
    }
}

proof fn lemma_screen_is_painted(
    v: GridView,
    base: int,
    cells: Seq<Seq<Cell>>,
    table: Seq<Seq<char>>,
    n: nat,
    now: u64,
)
    requires
        between(v, base, cells, table, 0),
        n <= v.rows <= 65535,
        base + marked(cells, table, cells.len()) <= 65535,
    ensures
        between(
            after(v, replay::screen_steps(cells, table, n), now),
            base,
            cells,
            table,
            n as int,
        ),
        kept(v, after(v, replay::screen_steps(cells, table, n), now)),
    decreases n,
{
    if n == 0 {
        lemma_after_none(v, now);
    } else {
        let m = (n - 1) as nat;
        lemma_screen_is_painted(v, base, cells, table, m, now);
        let before = replay::screen_steps(cells, table, m);
        let place = seq![Step::MoveTo(n, 1)];
        let (row, pen) = replay::row_steps(cells[m as int], table, cells[m as int].len());
        let v1 = after(v, before, now);
        lemma_row_begins(v1, base, cells, table, m as int, now);
        let v2 = after(v1, place, now);
        lemma_row_is_painted(v2, base, cells, table, m as int, v2.cols as nat, now);
        let v3 = after(v2, row, now);
        lemma_row_ends(v3, base, cells, table, m as int, pen, now);
        lemma_after_append(v, before, place, now);
        lemma_after_append(v, before + place, row, now);
        lemma_after_append(v, before + place + row, replay::row_tail(pen), now);
    }
}

proof fn lemma_screen_is_cleared(
    v: GridView,
    cells: Seq<Seq<Cell>>,
    table: Seq<Seq<char>>,
    now: u64,
)
    requires
        v.wf(),
        !v.insert_mode,
        0 < v.rows,
        0 < v.cols,
        paintable_screen(cells, table, v.rows, v.cols),
    ensures
        between(
            after(v, replay::opening(), now),
            v.combining.len() as int,
            cells,
            table,
            0,
        ),
        kept(v, after(v, replay::opening(), now)),
{
    lemma_reset_step(v, now);
    let v1 = after(v, seq![Step::Reset], now);
    lemma_clear_step(v1, now);
    let w1 = GridView { wrap_pending: false, ..v1 };
    grid_laws::lemma_erase_rows_wf(w1, 0, w1.rows);
    let v2 = w1.erase_all();
    reveal(GridView::erase_rows);
    lemma_home_step(v2, now);
    let u = after(v2, seq![Step::Home], now);
    lemma_after_append(v, seq![Step::Reset], seq![Step::Clear], now);
    lemma_after_append(v, seq![Step::Reset] + seq![Step::Clear], seq![Step::Home], now);
    assert(seq![Step::Reset] + seq![Step::Clear] + seq![Step::Home] =~= replay::opening());
    assert(u.active() == v2.active());
    assert(spots(u, cells, table, 0, 0)) by {
        assert forall|row: int, col: int|
            0 <= row < u.rows && 0 <= col < u.cols implies #[trigger] spot(
            u,
            cells,
            table,
            0,
            0,
            row,
            col,
        ) by {
            grid_laws::lemma_rectangle_row(w1.active(), w1.cols, row);
            assert(u.active()[row][col] == w1.blank_cell());
        }
    }
}

/// A terminal of the size of a snapshot that takes the steps of its replay
/// shows the snapshot's screen, cell by cell and mark by mark, whatever it
/// showed before, with the cursor where the snapshot has it. The screen must
/// hold whole glyphs only; the terminal must not be inserting, and its mark
/// table must have room.
pub proof fn lemma_replay_paints_the_screen(v: GridView, s: SnapshotView, now: u64)
    requires
        v.wf(),
        !v.insert_mode,
        v.rows == s.rows,
        v.cols == s.cols,
        0 < s.rows <= 65535,
        0 < s.cols <= 65535,
        0 <= s.cursor_row < s.rows,
        0 <= s.cursor_col < s.cols,
        paintable_screen(s.cells, s.combining, s.rows, s.cols),
        v.combining.len() + marked(s.cells, s.combining, s.cells.len()) <= 65535,
    ensures
        ({
            let u = after(v, replay::replay_steps(s), now);
            &&& u.wf()
            &&& u.rows == s.rows
            &&& u.cols == s.cols
            &&& forall|r: int, c: int|
                0 <= r < s.rows && 0 <= c < s.cols ==> alike(
                    #[trigger] u.active()[r][c],
                    u.combining,
                    s.cells[r][c],
                    s.combining,
                )
            &&& u.cursor_row == s.cursor_row
            &&& u.cursor_col == s.cursor_col
            &&& u.cursor_visible == (v.cursor_visible && s.cursor_visible)
            &&& u.pen == Pen::plain()
        }),
{
    let base = v.combining.len() as int;
    let screen = replay::screen_steps(s.cells, s.combining, s.cells.len());
    lemma_screen_is_cleared(v, s.cells, s.combining, now);
    let v1 = after(v, replay::opening(), now);
    lemma_screen_is_painted(v1, base, s.cells, s.combining, s.cells.len(), now);
    let v2 = after(v1, screen, now);
    lemma_after_append(v, replay::opening(), screen, now);
    lemma_after_append(v, replay::opening() + screen, replay::closing(s), now);
    let row = (s.cursor_row + 1) as nat;
    let col = (s.cursor_col + 1) as nat;
    lemma_move_step(v2, row, col, now);
    let place = seq![Step::MoveTo(row, col)];
    let v3 = after(v2, place, now);
    let u = after(v2, replay::closing(s), now);
    if !s.cursor_visible {
        lemma_after_append(v2, place, seq![Step::HideCursor], now);
        assert(place + seq![Step::HideCursor] =~= replay::closing(s));
        lemma_hide_step(v3, now);
    }
    assert(u.active() == v2.active());
    assert forall|r: int, c: int| 0 <= r < s.rows && 0 <= c < s.cols implies alike(
        #[trigger] u.active()[r][c],
        u.combining,
        s.cells[r][c],
        s.combining,
    ) by {
        assert(spot(v2, s.cells, s.combining, s.rows, 0, r, c));
    }
}

/// A fresh terminal of a pane's size that takes the steps of the pane's replay
/// shows what the pane shows, with the cursor at the same place and hidden
/// where it is.
pub proof fn lemma_fresh_terminal_shows_the_pane(g: GridView, cap: int, now: u64)
    requires
        g.wf(),
        0 < g.rows <= 65535,
        0 < g.cols <= 65535,
        0 <= cap,
        paintable_screen(g.active(), g.combining, g.rows, g.cols),
        marked(g.active(), g.combining, g.rows as nat) <= 65535,
    ensures
        ({
            let u = after(
                GridView::start(g.cols, g.rows, cap),
                replay::replay_steps(g.snapshot()),
                now,
            );
            &&& u.wf()
            &&& forall|r: int, c: int|
                0 <= r < g.rows && 0 <= c < g.cols ==> alike(
                    #[trigger] u.active()[r][c],
                    u.combining,
                    g.active()[r][c],
                    g.combining,
                )
            &&& u.cursor_row == g.cursor_row
            &&& u.cursor_col == g.cursor_col
            &&& u.cursor_visible == g.cursor_visible
        }),
{
    let start = GridView::start(g.cols, g.rows, cap);
    assert(start.wf()) by {
        reveal(grid_model::rectangular);
    }
    lemma_replay_paints_the_screen(start, g.snapshot(), now);
}

} // verus!
