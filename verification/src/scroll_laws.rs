//! What scrolling does: which rows move, which come in, and which are kept in the
//! history.
use crate::csi_laws;
use crate::csi_laws::{count, ordinary, pen_blank, sequence};
use crate::grid_laws;
use crate::grid_model::GridView;
use crate::pane_snapshot::Cell;
use crate::vt::VtEventView;
use vstd::prelude::*;

verus! {

/// The row that a pane shows at a place.
pub open spec fn line(v: GridView, r: int) -> Seq<Cell> {
    if v.alt_active {
        v.alternate[r]
    } else {
        v.primary[r]
    }
}

/// A row of blanks in the colours of the pen.
pub open spec fn pen_blanks(v: GridView) -> Seq<Cell> {
    Seq::new(v.cols as nat, |c: int| pen_blank(v))
}

/// What leaves the top of the screen is kept: the rows go over the whole screen,
/// and it is the primary one.
pub open spec fn keeps_history(v: GridView) -> bool {
    !v.alt_active && v.scroll_top == 0 && v.scroll_bottom == v.rows - 1
}

/// The row that left the screen as the `n`-th.
pub open spec fn nth_to_leave(v: GridView, n: int) -> Seq<Cell> {
    if n <= v.rows {
        v.primary[n - 1]
    } else {
        pen_blanks(v)
    }
}

/// The rows between the margins moved up by `n`: each shows what stood `n` rows
/// below it, blank rows came in at the bottom margin, and no row outside the
/// margins moved. Of the rows that left the whole primary screen the newest are in
/// the history, behind the newest of those that were there, as many as it holds.
/// Nothing else changed.
pub open spec fn scrolled_up(v: GridView, w: GridView, n: int) -> bool {
    &&& w == (GridView {
        primary: w.primary,
        alternate: w.alternate,
        scrollback: w.scrollback,
        ..v
    })
    &&& v.alt_active ==> w.primary == v.primary && w.alternate.len() == v.rows
    &&& !v.alt_active ==> w.alternate == v.alternate && w.primary.len() == v.rows
    &&& forall|r: int|
        0 <= r < v.rows ==> #[trigger] line(w, r) == if r < v.scroll_top || r > v.scroll_bottom {
            line(v, r)
        } else if r + n <= v.scroll_bottom {
            line(v, r + n)
        } else {
            pen_blanks(v)
        }
    &&& !keeps_history(v) || v.scrollback_cap == 0 ==> w.scrollback == v.scrollback
    &&& keeps_history(v) && v.scrollback_cap > 0 ==> {
        &&& w.scrollback.len() == if v.scrollback.len() + n <= v.scrollback_cap {
            v.scrollback.len() + n
        } else {
            v.scrollback_cap
        }
        &&& forall|k: int|
            0 <= k < w.scrollback.len() ==> #[trigger] w.scrollback[w.scrollback.len() - 1 - k]
                == if k < n {
                nth_to_leave(v, n - k)
            } else {
                v.scrollback[v.scrollback.len() - 1 - (k - n)]
            }
    }
}

proof fn lemma_up_by_one(v: GridView)
    requires
        v.wf(),
        v.rows > 0,
        v.scroll_top <= v.scroll_bottom,
    ensures
        scrolled_up(v, v.scroll_region_up(), 1),
        v.scroll_region_up().wf(),
{
    let w = v.scroll_region_up();
    grid_laws::lemma_scroll_region_up_wf(v);
    reveal(GridView::scroll_region_up);
    assert(v.blank_line() =~= pen_blanks(v));
    assert forall|r: int| 0 <= r < v.rows implies #[trigger] line(w, r) == if r < v.scroll_top || r
        > v.scroll_bottom {
        line(v, r)
    } else if r + 1 <= v.scroll_bottom {
        line(v, r + 1)
    } else {
        pen_blanks(v)
    } by {}
    if keeps_history(v) && v.scrollback_cap > 0 {
        assert forall|k: int| 0 <= k < w.scrollback.len() implies
            #[trigger] w.scrollback[w.scrollback.len() - 1 - k] == if k < 1 {
            nth_to_leave(v, 1 - k)
        } else {
            v.scrollback[v.scrollback.len() - 1 - (k - 1)]
        } by {}
    }
}

proof fn lemma_one_more_up(v: GridView, u: GridView, w: GridView, n: int)
    requires
        v.wf(),
        u.wf(),
        v.rows > 0,
        v.scroll_top <= v.scroll_bottom,
        n >= 0,
        scrolled_up(v, u, n),
        scrolled_up(u, w, 1),
    ensures
        scrolled_up(v, w, n + 1),
{
    assert(pen_blanks(u) =~= pen_blanks(v));
    assert forall|r: int| 0 <= r < v.rows implies #[trigger] line(w, r) == if r < v.scroll_top || r
        > v.scroll_bottom {
        line(v, r)
    } else if r + (n + 1) <= v.scroll_bottom {
        line(v, r + (n + 1))
    } else {
        pen_blanks(v)
    } by {
        assert(line(u, r) == line(u, r));
        if v.scroll_top <= r < v.scroll_bottom {
            assert(line(u, r + 1) == line(u, r + 1));
        }
    }
    if keeps_history(v) && v.scrollback_cap > 0 {
        assert(line(u, 0) == u.primary[0]);
        assert(nth_to_leave(u, 1) == nth_to_leave(v, n + 1));
        assert forall|k: int| 0 <= k < w.scrollback.len() implies
            #[trigger] w.scrollback[w.scrollback.len() - 1 - k] == if k < n + 1 {
            nth_to_leave(v, n + 1 - k)
        } else {
            v.scrollback[v.scrollback.len() - 1 - (k - (n + 1))]
        } by {
            if k >= 1 {
                assert(u.scrollback[u.scrollback.len() - 1 - (k - 1)] == if k - 1 < n {
                    nth_to_leave(v, n - (k - 1))
                } else {
                    v.scrollback[v.scrollback.len() - 1 - (k - 1 - n)]
                });
            }
        }
    }
}

proof fn lemma_up_by(v: GridView, n: int)
    requires
        v.wf(),
        v.rows > 0,
        v.scroll_top <= v.scroll_bottom,
        n >= 1,
    ensures
        scrolled_up(v, v.scroll_up(n), n),
        v.scroll_up(n).wf(),
    decreases n,
{
    if n == 1 {
        assert(v.scroll_up(0) == v);
        lemma_up_by_one(v);
        assert(v.scroll_up(1) == v.scroll_up(0).scroll_region_up());
    } else {
        lemma_up_by(v, n - 1);
        let u = v.scroll_up(n - 1);
        lemma_up_by_one(u);
        lemma_one_more_up(v, u, u.scroll_region_up(), n - 1);
    }
}

/// `CSI S` scrolls up by its count.
pub proof fn lemma_scroll_up_by(
    v: GridView,
    params: Seq<Seq<u16>>,
    intermediates: Seq<u8>,
    now: u64,
)
    requires
        v.wf(),
        v.rows > 0,
        v.scroll_top <= v.scroll_bottom,
        ordinary(intermediates, 'S'),
    ensures
        scrolled_up(
            GridView { wrap_pending: false, ..v },
            v.perform(sequence(params, intermediates, 'S'), now),
            count(params),
        ),
{
    let u = GridView { wrap_pending: false, ..v };
    csi_laws::lemma_ordinary_sequence(v, params, intermediates, 'S', now);
    assert(u.standard_csi(params, 'S') == u.scroll_up(count(params))) by {
        reveal(GridView::standard_csi);
    }
    lemma_up_by(u, count(params));
}

/// A line feed (and `ESC D`, and `ESC E`, which also goes to the first column)
/// scrolls up by one where the cursor stands on the bottom margin, and moves the
/// cursor one row down anywhere else, but for the last row of the screen.
pub proof fn lemma_line_feed(v: GridView, now: u64)
    requires
        v.wf(),
        v.rows > 0,
        v.scroll_top <= v.scroll_bottom,
    ensures
        ({
            let u = GridView { wrap_pending: false, ..v };
            let w = v.perform(VtEventView::Execute(0x0a), now);
            &&& v.cursor_row == v.scroll_bottom ==> scrolled_up(u, w, 1)
            &&& v.cursor_row != v.scroll_bottom ==> w == (GridView {
                cursor_row: if v.cursor_row + 1 < v.rows {
                    v.cursor_row + 1
                } else {
                    v.cursor_row
                },
                ..u
            })
            &&& v.perform(VtEventView::Esc(0x44), now) == w
            &&& v.perform(VtEventView::Esc(0x45), now) == (GridView { cursor_col: 0, ..w })
        }),
{
    let u = GridView { wrap_pending: false, ..v };
    let w = v.perform(VtEventView::Execute(0x0a), now);
    assert(w == u.linefeed()) by {
        reveal(GridView::perform);
        reveal(GridView::execute);
    }
    assert(v.perform(VtEventView::Esc(0x44), now) == u.linefeed()) by {
        reveal(GridView::perform);
        reveal(GridView::esc);
    }
    assert(v.perform(VtEventView::Esc(0x45), now) == (GridView { cursor_col: 0, ..w })) by {
        reveal(GridView::perform);
        reveal(GridView::esc);
    }
    reveal(GridView::linefeed);
    lemma_up_by_one(u);
}

/// `ESC M` moves the cursor one row up; on the top margin the rows between the
/// margins move down instead, and a blank row comes in at the top one.
pub proof fn lemma_reverse_line_feed(v: GridView, now: u64, r: int)
    requires
        v.wf(),
        v.rows > 0,
        v.scroll_top <= v.scroll_bottom,
        0 <= r < v.rows,
    ensures
        ({
            let u = GridView { wrap_pending: false, ..v };
            let w = v.perform(VtEventView::Esc(0x4d), now);
            &&& v.cursor_row != v.scroll_top ==> w == (GridView {
                cursor_row: if v.cursor_row > 0 {
                    v.cursor_row - 1
                } else {
                    0
                },
                ..u
            })
            &&& v.cursor_row == v.scroll_top ==> {
                &&& csi_laws::only_cells_differ(v, w)
                &&& line(w, r) == if r < v.scroll_top || r > v.scroll_bottom {
                    line(v, r)
                } else if r == v.scroll_top {
                    pen_blanks(v)
                } else {
                    line(v, r - 1)
                }
            }
        }),
{
    let u = GridView { wrap_pending: false, ..v };
    assert(v.perform(VtEventView::Esc(0x4d), now) == u.reverse_index()) by {
        reveal(GridView::perform);
        reveal(GridView::esc);
    }
    reveal(GridView::reverse_index);
    reveal(GridView::scroll_down);
    assert(u.blank_line() =~= pen_blanks(v));
}

/// The plain controls: a carriage return goes to the first column, a backspace one
/// column back, a tab to the next multiple of eight or the last column; any other
/// control but the line feed does nothing. Each drops a deferred wrap.
pub proof fn lemma_plain_controls(v: GridView, b: u8, now: u64)
    requires
        v.wf(),
        v.cols > 0,
        b != 0x0a,
    ensures
        ({
            let w = v.perform(VtEventView::Execute(b), now);
            &&& w == (GridView { cursor_col: w.cursor_col, wrap_pending: false, ..v })
            &&& b == 0x0d ==> w.cursor_col == 0
            &&& b == 0x08 ==> w.cursor_col == if v.cursor_col == 0 {
                0
            } else {
                v.cursor_col - 1
            }
            &&& b == 0x09 ==> {
                ||| w.cursor_col == v.cols - 1 && v.cols - 1 <= v.cursor_col + 8
                ||| w.cursor_col % 8 == 0 && v.cursor_col < w.cursor_col <= v.cursor_col + 8
                    && w.cursor_col < v.cols
            }
            &&& b == 0x09 && v.cursor_col + 8 - v.cursor_col % 8 < v.cols ==> w.cursor_col
                == v.cursor_col + 8 - v.cursor_col % 8
            &&& b != 0x0d && b != 0x08 && b != 0x09 ==> w.cursor_col == v.cursor_col
        }),
{
    reveal(GridView::perform);
    reveal(GridView::execute);
    reveal(GridView::tab_forward);
}

} // verus!
