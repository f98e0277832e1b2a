//! The grid of a pane: two screens, a cursor, a pen, and what the terminal's
//! events do to them.
use crate::blocks::BlockExtractor;
use crate::graphics;
use crate::graphics::Graphic;
use crate::grid_laws;
use crate::grid_model;
use crate::grid_model::{GridView, SavedCursor};
use crate::host_role::HostRole;
use crate::modes::MouseTracking;
use crate::pane_snapshot::{default_ansi_palette, Cell, CellAttrs, Color};
use crate::seqops;
use crate::seqops::{min_usize, repeated, vec_close_gap, vec_fill, vec_open_gap};
use crate::sgr::Pen;
use crate::yurai;
use std::collections::VecDeque;
use vstd::prelude::*;

verus! {

/// Opens a gap of blank rows.
fn lines_open_gap(
    s: &mut Vec<Vec<Cell>>,
    at: usize,
    end: usize,
    n: usize,
    fill: Cell,
    cols: usize,
)
    requires
        at <= end <= old(s)@.len(),
    ensures
        seqops::views(final(s)@) == seqops::open_gap(
            seqops::views(old(s)@),
            at as int,
            end as int,
            n as int,
            seqops::repeat(fill, cols as nat),
        ),
{
    let width: usize = end - at;
    let k: usize = min_usize(n, width);
    let ghost start = seqops::views(s@);
    let ghost line = seqops::repeat(fill, cols as nat);
    let mut i: usize = 0;
    assert(start =~= seqops::open_gap(start, at as int, end as int, 0, line));
    while i < k
        invariant
            i <= k <= end - at,
            at <= end <= start.len(),
            s@.len() == start.len(),
            line == seqops::repeat(fill, cols as nat),
            seqops::views(s@) == seqops::open_gap(start, at as int, end as int, i as int, line),
        decreases k - i,
    {
        let ghost before = s@;
        let blank = repeated(fill, cols);
        s.insert(at, blank);
        assert(seqops::views(s@) =~= seqops::views(before).insert(at as int, line));
        let ghost mid = s@;
        s.remove(end);
        assert(seqops::views(s@) =~= seqops::views(mid).remove(end as int));
        proof {
            seqops::lemma_open_gap_step(start, at as int, end as int, i as int, line);
        }
        i = i + 1;
    }
    proof {
        if n > end - at {
            seqops::lemma_open_gap_saturates(start, at as int, end as int, n as int, line);
        }
    }
}

/// Takes rows out and brings blank ones in behind them.
fn lines_close_gap(
    s: &mut Vec<Vec<Cell>>,
    at: usize,
    end: usize,
    n: usize,
    fill: Cell,
    cols: usize,
)
    requires
        at <= end <= old(s)@.len(),
    ensures
        seqops::views(final(s)@) == seqops::close_gap(
            seqops::views(old(s)@),
            at as int,
            end as int,
            n as int,
            seqops::repeat(fill, cols as nat),
        ),
{
    let width: usize = end - at;
    let k: usize = min_usize(n, width);
    let ghost start = seqops::views(s@);
    let ghost line = seqops::repeat(fill, cols as nat);
    let mut i: usize = 0;
    assert(start =~= seqops::close_gap(start, at as int, end as int, 0, line));
    while i < k
        invariant
            i <= k <= end - at,
            at <= end <= start.len(),
            s@.len() == start.len(),
            line == seqops::repeat(fill, cols as nat),
            seqops::views(s@) == seqops::close_gap(start, at as int, end as int, i as int, line),
        decreases k - i,
    {
        let ghost before = s@;
        s.remove(at);
        assert(seqops::views(s@) =~= seqops::views(before).remove(at as int));
        let ghost mid = s@;
        let blank = repeated(fill, cols);
        s.insert(end - 1, blank);
        assert(seqops::views(s@) =~= seqops::views(mid).insert(end - 1, line));
        proof {
            seqops::lemma_close_gap_step(start, at as int, end as int, i as int, line);
        }
        i = i + 1;
    }
    proof {
        if n > end - at {
            seqops::lemma_close_gap_saturates(start, at as int, end as int, n as int, line);
        }
    }
}

/// Fills whole rows.
pub(crate) fn lines_fill(s: &mut Vec<Vec<Cell>>, from: usize, to: usize, fill: Cell)
    ensures
        seqops::views(final(s)@) == grid_model::fill_rows(
            seqops::views(old(s)@),
            from as int,
            to as int,
            fill,
        ),
{
    let stop: usize = min_usize(to, s.len());
    let ghost start = seqops::views(s@);
    let mut i: usize = from;
    assert(seqops::views(s@) =~= grid_model::fill_rows(start, from as int, from as int, fill));
    while i < stop
        invariant
            from <= i,
            i <= stop || i == from,
            stop == seqops::imin(to as int, start.len() as int),
            s@.len() == start.len(),
            seqops::views(s@) == grid_model::fill_rows(start, from as int, i as int, fill),
        decreases stop - i,
    {
        let ghost before = s@;
        assert(seqops::views(before)[i as int] == start[i as int]);
        let width: usize = s[i].len();
        s[i] = repeated(fill, width);
        proof {
            let now = grid_model::fill_rows(start, from as int, i + 1, fill);
            assert forall|j: int| 0 <= j < start.len() implies #[trigger] seqops::views(s@)[j]
                == now[j] by {
                assert(seqops::views(before)[j] == before[j]@);
                if j != i {
                    assert(s@[j] == before[j]);
                }
            }
            assert(seqops::views(s@) =~= now);
        }
        i = i + 1;
    }
    assert(seqops::views(s@) =~= grid_model::fill_rows(start, from as int, to as int, fill));
}

/// Fills part of one row, where there is such a row.
pub(crate) fn row_fill(s: &mut Vec<Vec<Cell>>, row: usize, from: usize, to: usize, fill: Cell)
    ensures
        seqops::views(final(s)@) == grid_model::put_row(
            seqops::views(old(s)@),
            row as int,
            seqops::fill_range(seqops::views(old(s)@)[row as int], from as int, to as int, fill),
        ),
{
    let ghost start = s@;
    if row < s.len() {
        vec_fill(&mut s[row], from, to, fill);
        assert(seqops::views(s@) =~= seqops::views(start).update(
            row as int,
            seqops::fill_range(start[row as int]@, from as int, to as int, fill),
        ));
    }
}

/// Replaces one cell of one row.
pub(crate) fn row_set(s: &mut Vec<Vec<Cell>>, row: usize, col: usize, cell: Cell)
    requires
        row < old(s)@.len(),
        col < old(s)@[row as int]@.len(),
    ensures
        seqops::views(final(s)@) == seqops::views(old(s)@).update(
            row as int,
            seqops::views(old(s)@)[row as int].update(col as int, cell),
        ),
{
    let ghost start = s@;
    s[row][col] = cell;
    assert(seqops::views(s@) =~= seqops::views(start).update(
        row as int,
        start[row as int]@.update(col as int, cell),
    ));
}

/// Opens a gap in one row, where there is such a row and the gap starts in it.
pub(crate) fn row_open_gap(s: &mut Vec<Vec<Cell>>, row: usize, at: usize, end: usize, n: usize, fill: Cell)
    requires
        row < old(s)@.len() ==> end == old(s)@[row as int]@.len(),
    ensures
        seqops::views(final(s)@) == grid_model::put_row(
            seqops::views(old(s)@),
            row as int,
            seqops::open_gap(
                seqops::views(old(s)@)[row as int],
                at as int,
                end as int,
                n as int,
                fill,
            ),
        ),
{
    let ghost start = s@;
    if row < s.len() {
        let ghost r = start[row as int]@;
        if at <= end {
            vec_open_gap(&mut s[row], at, end, n, fill);
        } else {
            assert(seqops::open_gap(r, at as int, end as int, n as int, fill) =~= r);
        }
        assert(seqops::views(s@) =~= seqops::views(start).update(
            row as int,
            seqops::open_gap(r, at as int, end as int, n as int, fill),
        ));
    }
}

/// Takes cells out of one row, where there is such a row.
pub(crate) fn row_close_gap(s: &mut Vec<Vec<Cell>>, row: usize, at: usize, end: usize, n: usize, fill: Cell)
    requires
        row < old(s)@.len() ==> end == old(s)@[row as int]@.len(),
    ensures
        seqops::views(final(s)@) == grid_model::put_row(
            seqops::views(old(s)@),
            row as int,
            seqops::close_gap(
                seqops::views(old(s)@)[row as int],
                at as int,
                end as int,
                n as int,
                fill,
            ),
        ),
{
    let ghost start = s@;
    if row < s.len() {
        let ghost r = start[row as int]@;
        if at <= end {
            vec_close_gap(&mut s[row], at, end, n, fill);
        } else {
            assert(seqops::close_gap(r, at as int, end as int, n as int, fill) =~= r);
        }
        assert(seqops::views(s@) =~= seqops::views(start).update(
            row as int,
            seqops::close_gap(r, at as int, end as int, n as int, fill),
        ));
    }
}

/// A screen of blanks.
fn blank_screen(cols: usize, rows: usize) -> (s: Vec<Vec<Cell>>)
    ensures
        seqops::views(s@) == seqops::repeat(
            seqops::repeat(Cell::blank(), cols as nat),
            rows as nat,
        ),
{
    let mut s: Vec<Vec<Cell>> = Vec::with_capacity(rows);
    let mut i: usize = 0;
    while i < rows
        invariant
            i <= rows,
            s@.len() == i,
            forall|j: int|
                0 <= j < i ==> (#[trigger] s@[j])@ == seqops::repeat(Cell::blank(), cols as nat),
        decreases rows - i,
    {
        s.push(repeated(Cell::blank(), cols));
        i = i + 1;
    }
    assert(seqops::views(s@) =~= seqops::repeat(
        seqops::repeat(Cell::blank(), cols as nat),
        rows as nat,
    ));
    s
}

/// A screen brought to a new size.
pub(crate) fn resized(s: &Vec<Vec<Cell>>, cols: usize, rows: usize) -> (r: Vec<Vec<Cell>>)
    ensures
        seqops::views(r@) == GridView::resized_screen(
            seqops::views(s@),
            cols as int,
            rows as int,
        ),
{
    let ghost old_view = seqops::views(s@);
    let mut out: Vec<Vec<Cell>> = Vec::with_capacity(rows);
    let mut i: usize = 0;
    while i < rows
        invariant
            i <= rows,
            out@.len() == i,
            old_view == seqops::views(s@),
            forall|j: int|
                0 <= j < i ==> (#[trigger] out@[j])@ == GridView::resized_row(
                    old_view,
                    j,
                    cols as int,
                ),
        decreases rows - i,
    {
        let mut row = repeated(Cell::blank(), cols);
        if i < s.len() {
            let n: usize = min_usize(s[i].len(), cols);
            let mut c: usize = 0;
            while c < n
                invariant
                    c <= n <= cols,
                    i < s@.len(),
                    n == seqops::imin(s@[i as int]@.len() as int, cols as int),
                    row@.len() == cols,
                    forall|k: int|
                        0 <= k < cols ==> #[trigger] row@[k] == if k < c {
                            s@[i as int]@[k]
                        } else {
                            Cell::blank()
                        },
                decreases n - c,
            {
                row[c] = s[i][c];
                c = c + 1;
            }
            assert(old_view[i as int] == s@[i as int]@);
        }
        assert(row@ =~= GridView::resized_row(old_view, i as int, cols as int));
        out.push(row);
        i = i + 1;
    }
    assert(seqops::views(out@) =~= GridView::resized_screen(old_view, cols as int, rows as int));
    out
}

/// Moves `pos` by `delta` within `0..=limit`.
fn moved(pos: usize, delta: i64, limit: usize) -> (r: usize)
    requires
        -65536 <= delta <= 65536,
    ensures
        r == grid_model::clamp(pos + delta, limit as int),
{
    if delta >= 0 {
        let d: usize = delta as usize;
        if pos >= limit || d >= limit - pos {
            limit
        } else {
            pos + d
        }
    } else {
        let d: usize = (-delta) as usize;
        if d >= pos {
            0
        } else {
            min_usize(pos - d, limit)
        }
    }
}

/// The mutable state of a pane's terminal.
pub struct GridState {
    pub rows: usize,
    pub cols: usize,
    pub primary: Vec<Vec<Cell>>,
    pub alternate: Vec<Vec<Cell>>,
    /// True when the alternate screen is shown.
    pub alt_active: bool,
    /// Rows that rolled off the top of the primary screen, oldest first.
    pub scrollback: VecDeque<Vec<Cell>>,
    pub scrollback_cap: usize,
    pub cursor_row: usize,
    pub cursor_col: usize,
    pub pen: Pen,
    pub saved: Option<SavedCursor>,
    /// The last glyph reached the last column; the next one wraps first.
    pub wrap_pending: bool,
    pub scroll_top: usize,
    pub scroll_bottom: usize,
    pub palette: Vec<Color>,
    pub insert_mode: bool,
    pub cursor_visible: bool,
    pub cursor_keys_mode: bool,
    pub last_printed: Option<char>,
    /// Who answers queries on this pane.
    pub role: HostRole,
    pub autowrap: bool,
    pub focus_reporting: bool,
    pub bracketed_paste: bool,
    pub sync_output: bool,
    pub mouse: MouseTracking,
    pub mouse_sgr: bool,
    /// Marks by cell index, see [`Cell::combining`].
    pub combining: Vec<Vec<char>>,
    pub graphics: Vec<Graphic>,
    /// Payload of the device control string that is open.
    pub sixel_in_flight: Option<Vec<u8>>,
    /// Reply bytes owed to the child.
    pub pending_response: Vec<u8>,
    pub title: Option<String>,
    pub blocks: BlockExtractor,
}

impl View for GridState {
    type V = GridView;

    open spec fn view(&self) -> GridView {
        GridView {
            rows: self.rows as int,
            cols: self.cols as int,
            primary: seqops::views(self.primary@),
            alternate: seqops::views(self.alternate@),
            alt_active: self.alt_active,
            scrollback: seqops::views(self.scrollback@),
            scrollback_cap: self.scrollback_cap as int,
            cursor_row: self.cursor_row as int,
            cursor_col: self.cursor_col as int,
            pen: self.pen,
            saved: self.saved,
            wrap_pending: self.wrap_pending,
            scroll_top: self.scroll_top as int,
            scroll_bottom: self.scroll_bottom as int,
            palette: self.palette@,
            insert_mode: self.insert_mode,
            cursor_visible: self.cursor_visible,
            cursor_keys_mode: self.cursor_keys_mode,
            last_printed: self.last_printed,
            role: self.role,
            autowrap: self.autowrap,
            focus_reporting: self.focus_reporting,
            bracketed_paste: self.bracketed_paste,
            sync_output: self.sync_output,
            mouse: self.mouse,
            mouse_sgr: self.mouse_sgr,
            combining: seqops::views(self.combining@),
            graphics: graphics::graphics_view(self.graphics@),
            sixel: match self.sixel_in_flight {
                Some(buf) => Some(buf@),
                None => None,
            },
            response: self.pending_response@,
            title: yurai::opt_text(self.title),
            blocks: self.blocks@,
        }
    }
}

impl GridState {
    /// The invariant of the grid, see [`GridView::wf`].
    pub open spec fn wf(&self) -> bool {
        self@.wf()
    }

    /// A fresh grid.
    pub fn new(cols: usize, rows: usize, scrollback_cap: usize) -> (g: GridState)
        ensures
            g@ == GridView::start(cols as int, rows as int, scrollback_cap as int),
            g.wf(),
    {
        let g = GridState {
            rows,
            cols,
            primary: blank_screen(cols, rows),
            alternate: blank_screen(cols, rows),
            alt_active: false,
            scrollback: VecDeque::new(),
            scrollback_cap,
            cursor_row: 0,
            cursor_col: 0,
            pen: Pen::plain(),
            saved: None,
            wrap_pending: false,
            scroll_top: 0,
            scroll_bottom: if rows > 0 {
                rows - 1
            } else {
                0
            },
            palette: default_ansi_palette(),
            insert_mode: false,
            cursor_visible: true,
            cursor_keys_mode: false,
            last_printed: None,
            role: HostRole::default(),
            autowrap: true,
            focus_reporting: false,
            bracketed_paste: false,
            sync_output: false,
            mouse: MouseTracking::Off,
            mouse_sgr: false,
            combining: Vec::new(),
            graphics: Vec::new(),
            sixel_in_flight: None,
            pending_response: Vec::new(),
            title: None,
            blocks: BlockExtractor::default(),
        };
        proof {
            reveal(grid_model::rectangular);
            assert(seqops::views(g.scrollback@) =~= Seq::<Seq<Cell>>::empty());
            assert(seqops::views(g.combining@) =~= Seq::<Seq<char>>::empty());
            assert(graphics::graphics_view(g.graphics@) =~= Seq::empty());
        }
        g
    }

    /// The screen that is shown, to be changed.
    pub(crate) fn active_mut(&mut self) -> (s: &mut Vec<Vec<Cell>>)
        ensures
            seqops::views(s@) == old(self)@.active(),
            final(self)@ == old(self)@.with_active(seqops::views(final(s)@)),
    {
        if self.alt_active {
            &mut self.alternate
        } else {
            &mut self.primary
        }
    }

    /// The screen that is shown.
    pub fn active_rows(&self) -> (s: &Vec<Vec<Cell>>)
        ensures
            seqops::views(s@) == self@.active(),
    {
        if self.alt_active {
            &self.alternate
        } else {
            &self.primary
        }
    }

    /// The cell at a place of the active screen, where there is one.
    pub fn active_cell_at(&self, row: usize, col: usize) -> (r: Option<Cell>)
        ensures
            r == self@.cell_at(row as int, col as int),
    {
        let s = self.active_rows();
        if row < s.len() && col < s[row].len() {
            Some(s[row][col])
        } else {
            None
        }
    }

    /// Replaces the cell at a place of the active screen, where there is one.
    pub(crate) fn set_active_cell(&mut self, row: usize, col: usize, cell: Cell)
        ensures
            final(self)@ == old(self)@.set_cell(row as int, col as int, cell),
    {
        proof {
            reveal(GridView::set_cell);
        }
        let ghost before = self@.active();
        let s = self.active_mut();
        let ghost start = s@;
        if row < s.len() {
            if col < s[row].len() {
                assert(before[row as int] == start[row as int]@);
                s[row][col] = cell;
                assert(seqops::views(s@) =~= before.update(
                    row as int,
                    before[row as int].update(col as int, cell),
                ));
            } else {
                assert(before[row as int] == start[row as int]@);
                assert(seqops::views(s@) =~= before);
            }
        } else {
            assert(seqops::views(s@) =~= before);
        }
    }

    /// The last row and column of the grid.
    pub(crate) fn limits(&self) -> (r: (usize, usize))
        ensures
            r.0 == self@.last_row(),
            r.1 == self@.last_col(),
    {
        (
            if self.rows > 0 {
                self.rows - 1
            } else {
                0
            },
            if self.cols > 0 {
                self.cols - 1
            } else {
                0
            },
        )
    }

    pub(crate) fn blank_cell(&self) -> (c: Cell)
        ensures
            c == self@.blank_cell(),
    {
        Cell {
            ch: ' ',
            fg: self.pen.fg,
            bg: self.pen.bg,
            attrs: CellAttrs::none(),
            width: 1,
            combining: 0,
        }
    }

    pub(crate) fn current_cell_for_print(&self, c: char, w: usize) -> (r: Cell)
        requires
            w <= 3,
        ensures
            r == self@.print_cell(c, w as int),
    {
        Cell {
            ch: c,
            fg: self.pen.fg,
            bg: self.pen.bg,
            attrs: self.pen.attrs,
            width: w as u8,
            combining: 0,
        }
    }

    pub(crate) fn continuation_cell(&self) -> (r: Cell)
        ensures
            r == self@.continuation_cell(),
    {
        Cell {
            ch: ' ',
            fg: self.pen.fg,
            bg: self.pen.bg,
            attrs: self.pen.attrs,
            width: 0,
            combining: 0,
        }
    }
}

/// Rolls a screen up by one row, into a bounded history.
fn roll(
    screen: &mut Vec<Vec<Cell>>,
    history: &mut VecDeque<Vec<Cell>>,
    cap: usize,
    blank: Cell,
    cols: usize,
)
    ensures
        old(screen)@.len() == 0 ==> seqops::views(final(screen)@) == seq![
            seqops::repeat(blank, cols as nat),
        ] && final(history)@ == old(history)@,
        old(screen)@.len() > 0 ==> seqops::views(final(screen)@) == seqops::views(
            old(screen)@,
        ).drop_first().push(seqops::repeat(blank, cols as nat)) && seqops::views(final(history)@)
            == grid_model::keep_row(
            seqops::views(old(history)@),
            cap as int,
            seqops::views(old(screen)@)[0],
        ),
{
    let ghost start = screen@;
    let ghost before = history@;
    if screen.len() > 0 {
        let top = screen.remove(0);
        if cap > 0 {
            if history.len() >= cap {
                history.pop_front();
                assert(seqops::views(history@) =~= seqops::views(before).drop_first());
            }
            let ghost kept = history@;
            history.push_back(top);
            assert(seqops::views(history@) =~= seqops::views(kept).push(
                seqops::views(start)[0],
            ));
        }
        assert(seqops::views(screen@) =~= seqops::views(start).drop_first());
    } else {
        assert(seqops::views(screen@) =~= Seq::<Seq<Cell>>::empty());
    }
    let ghost rolled = screen@;
    screen.push(repeated(blank, cols));
    assert(seqops::views(screen@) =~= seqops::views(rolled).push(
        seqops::repeat(blank, cols as nat),
    ));
}

impl GridState {
    /// Blank rows come in at `at`, and rows from `end` on stay.
    pub(crate) fn open_lines(&mut self, at: usize, end: usize, n: usize)
        requires
            at <= end <= old(self)@.active().len(),
        ensures
            final(self)@ == old(self)@.with_active(
                seqops::open_gap(
                    old(self)@.active(),
                    at as int,
                    end as int,
                    n as int,
                    old(self)@.blank_line(),
                ),
            ),
    {
        let blank = self.blank_cell();
        let cols: usize = self.cols;
        let s = self.active_mut();
        lines_open_gap(s, at, end, n, blank, cols);
    }

    /// Rows go out at `at`, and rows from `end` on stay.
    pub(crate) fn close_lines(&mut self, at: usize, end: usize, n: usize)
        requires
            at <= end <= old(self)@.active().len(),
        ensures
            final(self)@ == old(self)@.with_active(
                seqops::close_gap(
                    old(self)@.active(),
                    at as int,
                    end as int,
                    n as int,
                    old(self)@.blank_line(),
                ),
            ),
    {
        let blank = self.blank_cell();
        let cols: usize = self.cols;
        let s = self.active_mut();
        lines_close_gap(s, at, end, n, blank, cols);
    }

    pub(crate) fn scroll_region_up(&mut self)
        requires
            old(self).wf(),
        ensures
            final(self)@ == old(self)@.scroll_region_up(),
            final(self).wf(),
    {
        proof {
            reveal(GridView::scroll_region_up);
            grid_laws::lemma_scroll_region_up_wf(self@);
        }
        if self.scroll_top > self.scroll_bottom {
            return;
        }
        let blank = self.blank_cell();
        let cols: usize = self.cols;
        let (last_row, _) = self.limits();
        if !self.alt_active && self.scroll_top == 0 && self.scroll_bottom == last_row {
            roll(&mut self.primary, &mut self.scrollback, self.scrollback_cap, blank, cols);
        } else if self.scroll_top < self.active_rows().len() {
            self.close_lines(self.scroll_top, self.scroll_bottom + 1, 1);
        }
    }

    pub(crate) fn scroll_down(&mut self, n: usize)
        requires
            old(self).wf(),
        ensures
            final(self)@ == old(self)@.scroll_down(n as int),
            final(self).wf(),
    {
        proof {
            reveal(GridView::scroll_down);
            grid_laws::lemma_scroll_down_wf(self@, n as int);
        }
        if self.scroll_top < self.active_rows().len() {
            if self.scroll_top <= self.scroll_bottom {
                self.open_lines(self.scroll_top, self.scroll_bottom + 1, n);
            } else {
                self.close_lines(self.scroll_bottom + 1, self.scroll_top, n);
            }
        }
    }

    pub(crate) fn linefeed(&mut self)
        requires
            old(self).wf(),
        ensures
            final(self)@ == old(self)@.linefeed(),
            final(self).wf(),
    {
        proof {
            reveal(GridView::linefeed);
            grid_laws::lemma_linefeed_wf(self@);
        }
        if self.cursor_row == self.scroll_bottom {
            self.scroll_region_up();
        } else if self.rows > 0 && self.cursor_row < self.rows - 1 {
            self.cursor_row = self.cursor_row + 1;
        }
    }

    pub(crate) fn reverse_index(&mut self)
        requires
            old(self).wf(),
        ensures
            final(self)@ == old(self)@.reverse_index(),
            final(self).wf(),
    {
        proof {
            reveal(GridView::reverse_index);
            grid_laws::lemma_reverse_index_wf(self@);
        }
        if self.cursor_row == self.scroll_top {
            if !self.alt_active && self.primary.len() == 0 {
                let blank = self.blank_cell();
                self.primary.push(repeated(blank, self.cols));
                assert(seqops::views(self.primary@) =~= seq![old(self)@.blank_line()]);
            } else {
                self.scroll_down(1);
            }
        } else if self.cursor_row > 0 {
            self.cursor_row = self.cursor_row - 1;
        }
    }

    pub(crate) fn carriage_return(&mut self)
        requires
            old(self).wf(),
        ensures
            final(self)@ == old(self)@.carriage_return(),
            final(self).wf(),
    {
        self.cursor_col = 0;
    }

    pub(crate) fn backspace(&mut self)
        requires
            old(self).wf(),
        ensures
            final(self)@ == old(self)@.backspace(),
            final(self).wf(),
    {
        if self.cursor_col > 0 {
            self.cursor_col = self.cursor_col - 1;
        }
    }

    pub(crate) fn tab_forward(&mut self)
        requires
            old(self).wf(),
        ensures
            final(self)@ == old(self)@.tab_forward(),
            final(self).wf(),
    {
        proof {
            reveal(GridView::tab_forward);
        }
        let (_, last_col) = self.limits();
        let step: usize = 8 - self.cursor_col % 8;
        assert((self.cursor_col / 8 + 1) * 8 == self.cursor_col + step);
        self.cursor_col = if last_col - self.cursor_col <= step {
            last_col
        } else {
            self.cursor_col + step
        };
    }

    pub(crate) fn cursor_move_relative(&mut self, drow: i64, dcol: i64)
        requires
            old(self).wf(),
            -65536 <= drow <= 65536,
            -65536 <= dcol <= 65536,
        ensures
            final(self)@ == old(self)@.cursor_move(drow as int, dcol as int),
            final(self).wf(),
    {
        proof {
            reveal(GridView::cursor_move);
        }
        let (last_row, last_col) = self.limits();
        self.cursor_row = moved(self.cursor_row, drow, last_row);
        self.cursor_col = moved(self.cursor_col, dcol, last_col);
    }

    pub(crate) fn cursor_set(&mut self, row: usize, col: usize)
        requires
            old(self).wf(),
        ensures
            final(self)@ == old(self)@.cursor_set(row as int, col as int),
            final(self).wf(),
    {
        proof {
            reveal(GridView::cursor_set);
        }
        let (last_row, last_col) = self.limits();
        self.cursor_row = min_usize(row, last_row);
        self.cursor_col = min_usize(col, last_col);
    }

    pub(crate) fn erase_in_line(&mut self, from: usize, to: usize)
        requires
            old(self).wf(),
        ensures
            final(self)@ == old(self)@.erase_in_line(from as int, to as int),
            final(self).wf(),
    {
        proof {
            reveal(GridView::erase_in_line);
            grid_laws::lemma_erase_in_line_wf(self@, from as int, to as int);
        }
        let row: usize = self.cursor_row;
        let blank = self.blank_cell();
        let s = self.active_mut();
        row_fill(s, row, from, to, blank);
    }

    pub(crate) fn erase_to_end_of_line(&mut self)
        requires
            old(self).wf(),
        ensures
            final(self)@ == old(self)@.erase_to_end_of_line(),
            final(self).wf(),
    {
        self.erase_in_line(self.cursor_col, self.cols);
    }

    pub(crate) fn erase_from_start_of_line(&mut self)
        requires
            old(self).wf(),
        ensures
            final(self)@ == old(self)@.erase_from_start_of_line(),
            final(self).wf(),
    {
        if self.cursor_col < usize::MAX {
            self.erase_in_line(0, self.cursor_col + 1);
        }
    }

    pub(crate) fn erase_line(&mut self)
        requires
            old(self).wf(),
        ensures
            final(self)@ == old(self)@.erase_line(),
            final(self).wf(),
    {
        self.erase_in_line(0, self.cols);
    }

    pub(crate) fn erase_rows(&mut self, from: usize, to: usize)
        requires
            old(self).wf(),
        ensures
            final(self)@ == old(self)@.erase_rows(from as int, to as int),
            final(self).wf(),
    {
        proof {
            reveal(GridView::erase_rows);
            grid_laws::lemma_erase_rows_wf(self@, from as int, to as int);
        }
        let blank = self.blank_cell();
        let s = self.active_mut();
        lines_fill(s, from, to, blank);
    }

    pub(crate) fn erase_below_cursor(&mut self)
        requires
            old(self).wf(),
        ensures
            final(self)@ == old(self)@.erase_below_cursor(),
            final(self).wf(),
    {
        proof {
            reveal(GridView::erase_below_cursor);
            grid_laws::lemma_erase_in_line_wf(
                self@,
                self.cursor_col as int,
                self.cols as int,
            );
        }
        self.erase_to_end_of_line();
        if self.cursor_row < usize::MAX {
            self.erase_rows(self.cursor_row + 1, self.rows);
        }
    }

    pub(crate) fn erase_above_cursor(&mut self)
        requires
            old(self).wf(),
        ensures
            final(self)@ == old(self)@.erase_above_cursor(),
            final(self).wf(),
    {
        proof {
            reveal(GridView::erase_above_cursor);
        }
        self.erase_rows(0, self.cursor_row);
        self.erase_from_start_of_line();
    }

    pub(crate) fn erase_all(&mut self)
        requires
            old(self).wf(),
        ensures
            final(self)@ == old(self)@.erase_all(),
            final(self).wf(),
    {
        self.erase_rows(0, self.rows);
    }

    pub(crate) fn save_cursor(&mut self)
        requires
            old(self).wf(),
        ensures
            final(self)@ == old(self)@.save_cursor(),
            final(self).wf(),
    {
        proof {
            reveal(GridView::save_cursor);
        }
        self.saved = Some(
            SavedCursor { row: self.cursor_row, col: self.cursor_col, pen: self.pen },
        );
    }

    pub(crate) fn restore_cursor(&mut self)
        requires
            old(self).wf(),
        ensures
            final(self)@ == old(self)@.restore_cursor(),
            final(self).wf(),
    {
        proof {
            reveal(GridView::restore_cursor);
        }
        match self.saved {
            Some(s) => {
                let (last_row, last_col) = self.limits();
                self.cursor_row = min_usize(s.row, last_row);
                self.cursor_col = min_usize(s.col, last_col);
                self.pen = s.pen;
            },
            None => {},
        }
    }

    pub(crate) fn enter_alt_screen(&mut self, clear: bool)
        requires
            old(self).wf(),
        ensures
            final(self)@ == old(self)@.enter_alt_screen(clear),
            final(self).wf(),
    {
        proof {
            reveal(GridView::enter_alt_screen);
            grid_laws::lemma_enter_alt_wf(self@, clear);
        }
        self.alt_active = true;
        if clear {
            let n: usize = self.alternate.len();
            lines_fill(&mut self.alternate, 0, n, Cell::blank());
            self.cursor_row = 0;
            self.cursor_col = 0;
        }
    }

    pub(crate) fn clear_alternate(&mut self)
        requires
            old(self).wf(),
        ensures
            final(self)@ == old(self)@.clear_alternate(),
            final(self).wf(),
    {
        proof {
            reveal(GridView::clear_alternate);
            grid_laws::lemma_clear_alternate_wf(self@);
        }
        if self.alt_active {
            let fill = self.blank_cell();
            let n: usize = self.alternate.len();
            lines_fill(&mut self.alternate, 0, n, fill);
        }
    }

    pub(crate) fn leave_alt_screen(&mut self)
        requires
            old(self).wf(),
        ensures
            final(self)@ == old(self)@.leave_alt_screen(),
            final(self).wf(),
    {
        self.alt_active = false;
    }

    pub(crate) fn park_at_right_margin(&mut self)
        requires
            old(self).wf(),
        ensures
            final(self)@ == old(self)@.park_at_right_margin(),
            final(self).wf(),
    {
        let (_, last_col) = self.limits();
        self.cursor_col = last_col;
        self.wrap_pending = true;
    }

    pub(crate) fn advance_cursor_after_print(&mut self, w: usize)
        requires
            old(self).wf(),
        ensures
            final(self)@ == old(self)@.advance(w as int),
            final(self).wf(),
    {
        proof {
            reveal(GridView::advance);
        }
        let adv: usize = if w < 1 {
            1
        } else {
            w
        };
        if self.cols <= self.cursor_col || self.cols - self.cursor_col <= adv {
            self.park_at_right_margin();
        } else {
            self.cursor_col = self.cursor_col + adv;
        }
    }

    /// Blanks any half-glyph that writing here orphans.
    pub(crate) fn clear_orphans_at(&mut self, row: usize, col: usize, w: usize)
        requires
            old(self).wf(),
            col <= old(self)@.last_col(),
            w <= 3,
        ensures
            final(self)@ == old(self)@.clear_orphans(row as int, col as int, w as int),
            final(self).wf(),
    {
        proof {
            reveal(GridView::clear_orphans);
            grid_laws::lemma_clear_orphans_wf(self@, row as int, col as int, w as int);
            grid_laws::lemma_set_cell_wf(self@, row as int, col - 1, Cell::blank());
        }
        if col > 0 {
            match self.active_cell_at(row, col) {
                Some(cell) => {
                    if cell.is_continuation() {
                        self.set_active_cell(row, col - 1, Cell::blank());
                    }
                },
                None => {},
            }
        }
        let extra: usize = if w < 1 {
            0
        } else {
            w - 1
        };
        if self.cols > 0 && extra < self.cols - col {
            let last: usize = col + extra;
            match self.active_cell_at(row, last) {
                Some(cell) => {
                    if cell.width == 2 && last < self.cols - 1 {
                        self.set_active_cell(row, last + 1, Cell::blank());
                    }
                },
                None => {},
            }
        }
    }

    /// The column of the glyph that owns a place.
    pub(crate) fn lead_col_at(&self, row: usize, col: usize) -> (r: usize)
        ensures
            r == self@.lead_col(row as int, col as int),
    {
        if col > 0 {
            match self.active_cell_at(row, col) {
                Some(cell) => if cell.is_continuation() {
                    col - 1
                } else {
                    col
                },
                None => col,
            }
        } else {
            col
        }
    }
}

} // verus!
