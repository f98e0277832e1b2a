//! What starting, resizing and ending panes does to the multiplexer.
use crate::block::BlockView;
use crate::csi_laws::shown;
use crate::freio::Freio;
use crate::id::{PaneId, SessionId, WindowId};
use crate::inproc;
use crate::inproc_events;
use crate::inproc_model;
use crate::inproc_model::{MuxView, ReadersView};
use crate::layout::{Direction, LayoutNode, Rect};
use crate::pane::{InputPolicy, PaneState, TearPaneView};
use crate::pane_snapshot::Cell;
use crate::registry::SpawnView;
use crate::session::{SessionState, SourceView, TearSessionView, TearWindowView, WindowState};
use crate::yurai::YuraiView;
use vstd::prelude::*;

verus! {

/// A pane has a blank screen of a size: as many columns as its first number, as
/// many rows as its second, every cell a blank, and the cursor in the first one.
pub open spec fn has_blank_screen(m: MuxView, pane: PaneId, size: (u16, u16)) -> bool {
    let g = m.grids[pane.0].grid;
    &&& m.grids.dom().contains(pane.0)
    &&& g.cols == size.0
    &&& g.rows == size.1
    &&& !g.alt_active
    &&& g.cursor_row == 0
    &&& g.cursor_col == 0
    &&& g.scrollback.len() == 0
    &&& g.wf()
    &&& forall|r: int, c: int|
        0 <= r < size.1 && 0 <= c < size.0 ==> #[trigger] shown(g, r, c) == Cell::blank()
}

/// The screen of a pane that is about to start is blank and has the size that its
/// terminal is started with; the screens of all other panes stay.
pub proof fn lemma_a_starting_pane_has_the_size_of_its_terminal(
    m: MuxView,
    pane: PaneId,
    shell: Seq<char>,
    args: Seq<Seq<char>>,
    size: (u16, u16),
    inherited: Seq<(Seq<char>, Seq<char>)>,
)
    ensures
        ({
            let w = m.begin_spawn(pane, size);
            let plan = m.plan(pane, shell, args, size, inherited);
            &&& plan.size == size
            &&& plan.pane == pane
            &&& plan.shell == shell
            &&& plan.args == args
            &&& plan.cwd == m.env.cwd
            &&& has_blank_screen(w, pane, plan.size)
            &&& w == (MuxView { grids: w.grids, ..m })
            &&& forall|p: u64|
                p != pane.0 ==> #[trigger] w.grids.dom().contains(p) == m.grids.dom().contains(p)
                    && w.grids[p] == m.grids[p]
        }),
{
    reveal(crate::grid_model::rectangular);
    let w = m.begin_spawn(pane, size);
    let g = w.grids[pane.0].grid;
    assert forall|r: int, c: int| 0 <= r < size.1 && 0 <= c < size.0 implies #[trigger] shown(g, r, c)
        == Cell::blank() by {}
}

/// The record of a pane that runs a program: the program with its arguments, its
/// directory and variables, the size of its terminal, and who started it; it runs,
/// its title is the program, and anyone may type into it.
pub open spec fn is_record_of(p: TearPaneView, id: PaneId, spawn: SpawnView) -> bool {
    &&& p.id == id
    &&& p.shell == spawn.shell
    &&& p.args == spawn.args
    &&& p.cwd == spawn.cwd
    &&& p.env == spawn.env
    &&& p.size_cells == spawn.size
    &&& p.origin_cells == (0u16, 0u16)
    &&& p.state == PaneState::Running
    &&& p.title == spawn.shell
    &&& p.input_policy == InputPolicy::Free
    &&& p.yurai == spawn.yurai
}

/// A window shows one pane over all of it.
pub open spec fn is_window_of(
    w: TearWindowView,
    id: WindowId,
    name: Seq<char>,
    pane: PaneId,
    size: (u16, u16),
) -> bool {
    &&& w.id == id
    &&& w.name == name
    &&& w.layout == LayoutNode::Leaf(pane)
    &&& w.active_pane == pane
    &&& w.size_cells == size
    &&& w.state == WindowState::Active
}

/// A new session has the name, the origin and the time it was asked for, and one
/// window `main` in front, which shows the one pane; the pane's record and its
/// screen have the size of its terminal. No other session changes.
pub proof fn lemma_a_new_session_shows_its_first_pane(
    m: MuxView,
    name: Seq<char>,
    spawn: SpawnView,
    source: SourceView,
    now: u64,
)
    ensures
        ({
            let w = m.new_session(name, spawn, source, now);
            let sid = m.registry.fresh_session(name, now).id;
            let pane = m.new_session_pane(name, spawn.shell, source, now);
            let s = w.sessions()[sid.0];
            let front = s.active_window;
            &&& w.sessions().dom().contains(sid.0)
            &&& s.id == sid
            &&& s.name == name
            &&& s.source == source
            &&& s.created_at_unix == now
            &&& s.state == SessionState::Active
            &&& s.freio == Freio::Released
            &&& s.windows.dom() == set![front.0]
            &&& s.panes.dom() == set![pane.0]
            &&& is_window_of(s.windows[front.0], front, "main"@, pane, spawn.size)
            &&& is_record_of(s.panes[pane.0], pane, spawn)
            &&& has_blank_screen(w, pane, spawn.size)
            &&& w.live == m.live
            &&& w.readers == m.readers
            &&& w.recordings == m.recordings
            &&& forall|k: u64|
                k != sid.0 ==> #[trigger] w.sessions().dom().contains(k) == m.sessions().dom().contains(
                    k,
                ) && w.sessions()[k] == m.sessions()[k]
        }),
{
    let sid = m.registry.fresh_session(name, now).id;
    let r = m.opened(name, source, now);
    let pane = r.first_pane(sid, "main"@, spawn.shell, now);
    let before = MuxView { registry: r.add_window(sid, "main"@, spawn, now), ..m };
    lemma_a_starting_pane_has_the_size_of_its_terminal(
        before,
        pane,
        spawn.shell,
        spawn.args,
        spawn.size,
        Seq::empty(),
    );
    let w = m.new_session(name, spawn, source, now);
    let s = w.sessions()[sid.0];
    let window = r.next_window(sid, "main"@, now);
    assert(s.active_window == window);
    assert(s.windows.dom() =~= set![window.0]);
    assert(s.panes.dom() =~= set![pane.0]);
}

/// A new window is added to its session and shows its one pane, over the size it
/// is started with. The window in front stays in front, where there is one, and no
/// other window, pane or session changes.
pub proof fn lemma_a_new_window_shows_its_pane(
    m: MuxView,
    session: SessionId,
    name: Seq<char>,
    spawn: SpawnView,
    now: u64,
)
    requires
        m.sessions().dom().contains(session.0),
    ensures
        ({
            let w = m.new_window(session, name, spawn, now);
            let pane = m.registry.first_pane(session, name, spawn.shell, now);
            let id = m.registry.next_window(session, name, now);
            let old = m.sessions()[session.0];
            let s = w.sessions()[session.0];
            &&& s.windows.dom() == old.windows.dom().insert(id.0)
            &&& s.panes.dom() == old.panes.dom().insert(pane.0)
            &&& is_window_of(s.windows[id.0], id, name, pane, spawn.size)
            &&& is_record_of(s.panes[pane.0], pane, spawn)
            &&& has_blank_screen(w, pane, spawn.size)
            &&& s.active_window == if old.active_window == WindowId(0) {
                id
            } else {
                old.active_window
            }
            &&& s.name == old.name
            &&& s.id == old.id
            &&& s.source == old.source
            &&& s.freio == old.freio
            &&& forall|k: u64| k != id.0 ==> #[trigger] s.windows[k] == old.windows[k]
            &&& forall|k: u64| k != pane.0 ==> #[trigger] s.panes[k] == old.panes[k]
            &&& forall|k: u64|
                k != session.0 ==> #[trigger] w.sessions()[k] == m.sessions()[k]
            &&& w.sessions().dom() == m.sessions().dom()
        }),
{
    let pane = m.registry.first_pane(session, name, spawn.shell, now);
    let before = MuxView { registry: m.registry.add_window(session, name, spawn, now), ..m };
    lemma_a_starting_pane_has_the_size_of_its_terminal(
        before,
        pane,
        spawn.shell,
        spawn.args,
        spawn.size,
        Seq::empty(),
    );
    let w = m.new_window(session, name, spawn, now);
    let s = w.sessions()[session.0];
    let old = m.sessions()[session.0];
    let id = m.registry.next_window(session, name, now);
    assert(s.windows.dom() =~= old.windows.dom().insert(id.0));
    assert(s.panes.dom() =~= old.panes.dom().insert(pane.0));
    assert(w.sessions().dom() =~= m.sessions().dom());
}

/// A split adds one pane to the window, which is in front then; its record and its
/// screen have the size it is started with. No other window, pane or session
/// changes.
pub proof fn lemma_a_split_adds_one_pane(
    m: MuxView,
    sid: SessionId,
    window: WindowId,
    origin: PaneId,
    direction: Direction,
    ratio: u32,
    spawn: SpawnView,
    now: u64,
)
    requires
        m.sessions().dom().contains(sid.0),
        m.sessions()[sid.0].windows.dom().contains(window.0),
    ensures
        ({
            let w = m.split_pane(sid, window, origin, direction, ratio, spawn, now);
            let pane = m.split_pane_id(window, spawn.shell, now);
            let old = m.sessions()[sid.0];
            let s = w.sessions()[sid.0];
            &&& s.panes.dom() == old.panes.dom().insert(pane.0)
            &&& s.windows.dom() == old.windows.dom()
            &&& is_record_of(s.panes[pane.0], pane, spawn)
            &&& has_blank_screen(w, pane, spawn.size)
            &&& s.windows[window.0].active_pane == pane
            &&& s.windows[window.0].layout == old.windows[window.0].layout.split(
                origin,
                pane,
                direction,
                ratio,
            )
            &&& s.windows[window.0].size_cells == old.windows[window.0].size_cells
            &&& s.windows[window.0].name == old.windows[window.0].name
            &&& s.active_window == old.active_window
            &&& s.name == old.name
            &&& forall|k: u64| k != window.0 ==> #[trigger] s.windows[k] == old.windows[k]
            &&& forall|k: u64| k != pane.0 ==> #[trigger] s.panes[k] == old.panes[k]
            &&& forall|k: u64| k != sid.0 ==> #[trigger] w.sessions()[k] == m.sessions()[k]
            &&& w.sessions().dom() == m.sessions().dom()
        }),
{
    let pane = m.split_pane_id(window, spawn.shell, now);
    let w = m.split_pane(sid, window, origin, direction, ratio, spawn, now);
    let before = MuxView { grids: m.grids, ..w };
    lemma_a_starting_pane_has_the_size_of_its_terminal(
        before,
        pane,
        spawn.shell,
        spawn.args,
        spawn.size,
        Seq::empty(),
    );
    let s = w.sessions()[sid.0];
    let old = m.sessions()[sid.0];
    assert(s.windows.dom() =~= old.windows.dom());
    assert(s.panes.dom() =~= old.panes.dom().insert(pane.0));
    assert(w.sessions().dom() =~= m.sessions().dom());
    assert(w =~= before.begin_spawn(pane, spawn.size));
}

/// A terminal that was resized, its record and its screen have one size: the
/// columns first and then the rows. No other pane changes.
pub proof fn lemma_a_resized_pane_has_one_size(m: MuxView, id: PaneId, cols: u16, rows: u16, k: u64)
    requires
        m.registry.owner(id) == Some(k),
        m.sessions().dom().contains(k),
        m.sessions()[k].panes.dom().contains(id.0),
        m.grids.dom().contains(id.0),
    ensures
        ({
            let w = m.resized(id, cols, rows);
            let old = m.sessions()[k];
            let s = w.sessions()[k];
            &&& s.panes[id.0] == (TearPaneView { size_cells: (cols, rows), ..old.panes[id.0] })
            &&& w.grids[id.0].grid.cols == cols
            &&& w.grids[id.0].grid.rows == rows
            &&& s == (TearSessionView { panes: s.panes, ..old })
            &&& s.panes.dom() == old.panes.dom()
            &&& w.grids.dom() == m.grids.dom()
            &&& forall|p: u64| p != id.0 ==> #[trigger] s.panes[p] == old.panes[p]
            &&& forall|p: u64| p != id.0 ==> #[trigger] w.grids[p] == m.grids[p]
            &&& forall|j: u64| j != k ==> #[trigger] w.sessions()[j] == m.sessions()[j]
            &&& w.live == m.live
            &&& w.readers == m.readers
            &&& w.recordings == m.recordings
        }),
{
    reveal(crate::grid_model::GridView::resize);
    let w = m.resized(id, cols, rows);
    assert(w.sessions()[k].panes.dom() =~= m.sessions()[k].panes.dom());
    assert(w.grids.dom() =~= m.grids.dom());
}

/// The end of a program is written into the record of its pane with its code, and
/// its readers are told; no other record and no other readers change, as long as
/// the session stays.
pub proof fn lemma_the_end_of_a_program_is_recorded(m: MuxView, pane: PaneId, code: i32, k: u64)
    requires
        m.registry.owner(pane) == Some(k),
        m.sessions().dom().contains(k),
        m.exit(pane, code).sessions().dom().contains(k),
    ensures
        ({
            let w = m.exit(pane, code);
            let old = m.sessions()[k];
            let s = w.sessions()[k];
            &&& s.panes[pane.0] == (TearPaneView {
                state: PaneState::Exited { code },
                ..old.panes[pane.0]
            })
            &&& s == (TearSessionView { panes: s.panes, ..old })
            &&& forall|p: u64| p != pane.0 ==> #[trigger] s.panes[p] == old.panes[p]
        }),
        m.doomed(pane, code) is None ==> {
            let w = m.exit(pane, code);
            &&& w.readers[pane.0] == (ReadersView { closed: Some(code), senders: Seq::empty() })
            &&& forall|p: u64| p != pane.0 ==> #[trigger] w.readers[p] == m.readers[p]
            &&& w.grids == m.grids
            &&& w.live == m.live
            &&& w.recordings == m.recordings
        },
{
}

/// A window's panes get the places that are computed for them: the record of each
/// has the size of its rectangle, one cell at least either way, and its corner.
/// The record of a pane without a rectangle stays.
pub proof fn lemma_records_get_their_rectangles(
    panes: Map<u64, TearPaneView>,
    rects: Seq<(PaneId, Rect)>,
    p: u64,
)
    requires
        forall|i: int, j: int|
            0 <= i < j < rects.len() ==> (#[trigger] rects[i]).0.0 != (#[trigger] rects[j]).0.0,
    ensures
        ({
            let after = inproc_model::stamped(panes, rects);
            &&& after.dom() == panes.dom()
            &&& (forall|i: int| 0 <= i < rects.len() ==> (#[trigger] rects[i]).0.0 != p) ==> after[p]
                == panes[p]
            &&& forall|i: int|
                0 <= i < rects.len() && (#[trigger] rects[i]).0.0 == p && panes.dom().contains(p)
                    ==> after[p] == (TearPaneView {
                    size_cells: (
                        if rects[i].1.w == 0 {
                            1
                        } else {
                            rects[i].1.w
                        },
                        if rects[i].1.h == 0 {
                            1
                        } else {
                            rects[i].1.h
                        },
                    ),
                    origin_cells: (rects[i].1.x, rects[i].1.y),
                    ..panes[p]
                })
        }),
    decreases rects.len(),
{
    let after = inproc_model::stamped(panes, rects);
    if rects.len() > 0 {
        let rest = rects.drop_last();
        let end = rects.len() - 1;
        assert forall|i: int, j: int| 0 <= i < j < rest.len() implies (#[trigger] rest[i]).0.0 != (
        #[trigger] rest[j]).0.0 by {
            assert(rects[i] == rest[i] && rects[j] == rest[j]);
        }
        lemma_records_get_their_rectangles(panes, rest, p);
        assert(after.dom() =~= panes.dom());
        assert(rects[end] == rects.last());
        if forall|i: int| 0 <= i < rects.len() ==> (#[trigger] rects[i]).0.0 != p {
            assert forall|i: int| 0 <= i < rest.len() implies (#[trigger] rest[i]).0.0 != p by {
                assert(rects[i] == rest[i]);
            }
        }
        assert forall|i: int|
            0 <= i < rects.len() && (#[trigger] rects[i]).0.0 == p && panes.dom().contains(
                p,
            ) implies after[p] == (TearPaneView {
            size_cells: (
                if rects[i].1.w == 0 {
                    1
                } else {
                    rects[i].1.w
                },
                if rects[i].1.h == 0 {
                    1
                } else {
                    rects[i].1.h
                },
            ),
            origin_cells: (rects[i].1.x, rects[i].1.y),
            ..panes[p]
        }) by {
            if i < end {
                assert(rest[i] == rects[i]);
                assert(rects[end].0.0 != p);
            } else {
                assert forall|j: int| 0 <= j < rest.len() implies (#[trigger] rest[j]).0.0 != p by {
                    assert(rects[j] == rest[j]);
                }
            }
        }
    } else {
        assert(after.dom() =~= panes.dom());
    }
}

/// A size is that of the rectangle of its pane, and there is room in it.
pub open spec fn is_the_size_of_one(rects: Seq<(PaneId, Rect)>, x: (PaneId, u16, u16)) -> bool {
    exists|i: int|
        0 <= i < rects.len() && x == ((#[trigger] rects[i]).0, rects[i].1.w, rects[i].1.h)
            && rects[i].1.w > 0 && rects[i].1.h > 0
}

/// The terminals that are told a new size are those whose rectangles have room,
/// each with the width and then the height of its own.
pub proof fn lemma_terminals_are_told_their_rectangles(rects: Seq<(PaneId, Rect)>)
    ensures
        ({
            let told = inproc_model::to_resize(rects);
            &&& told.len() <= rects.len()
            &&& forall|i: int|
                0 <= i < rects.len() && (#[trigger] rects[i]).1.w > 0 && rects[i].1.h > 0
                    ==> told.contains((rects[i].0, rects[i].1.w, rects[i].1.h))
            &&& forall|j: int| 0 <= j < told.len() ==> is_the_size_of_one(rects, #[trigger] told[j])
        }),
    decreases rects.len(),
{
    let told = inproc_model::to_resize(rects);
    if rects.len() > 0 {
        let rest = rects.drop_last();
        let end = rects.len() - 1;
        lemma_terminals_are_told_their_rectangles(rest);
        let before = inproc_model::to_resize(rest);
        assert forall|i: int|
            0 <= i < rects.len() && (#[trigger] rects[i]).1.w > 0 && rects[i].1.h
                > 0 implies told.contains((rects[i].0, rects[i].1.w, rects[i].1.h)) by {
            if i < end {
                assert(rest[i] == rects[i]);
                let x = (rects[i].0, rects[i].1.w, rects[i].1.h);
                let k = choose|k: int| 0 <= k < before.len() && before[k] == x;
                assert(told[k] == x);
            } else {
                assert(told.last() == (rects[i].0, rects[i].1.w, rects[i].1.h));
            }
        }
        assert forall|j: int| 0 <= j < told.len() implies is_the_size_of_one(
            rects,
            #[trigger] told[j],
        ) by {
            if j < before.len() {
                assert(told[j] == before[j]);
                let i = choose|i: int|
                    0 <= i < rest.len() && before[j] == (
                        (#[trigger] rest[i]).0,
                        rest[i].1.w,
                        rest[i].1.h,
                    ) && rest[i].1.w > 0 && rest[i].1.h > 0;
                assert(rects[i] == rest[i]);
            } else {
                assert(rects[end] == rects.last());
            }
        }
    }
}

/// The terminals that are closed with panes are those of the panes that have one,
/// each once.
pub proof fn lemma_the_running_terminals_are_closed(panes: Seq<u64>, live: Set<u64>)
    ensures
        ({
            let closed = inproc_model::let_go(panes, live);
            &&& closed.no_duplicates()
            &&& forall|p: u64| #[trigger]
                closed.contains(p) <==> panes.contains(p) && live.contains(p)
        }),
    decreases panes.len(),
{
    let closed = inproc_model::let_go(panes, live);
    if panes.len() > 0 {
        let rest = panes.drop_first();
        let left = if live.contains(panes[0]) {
            live.remove(panes[0])
        } else {
            live
        };
        lemma_the_running_terminals_are_closed(rest, left);
        let more = inproc_model::let_go(rest, left);
        assert forall|p: u64| #[trigger] closed.contains(p) <==> panes.contains(p) && live.contains(p) by {
            if panes.contains(p) && p != panes[0] {
                let i = choose|i: int| 0 <= i < panes.len() && panes[i] == p;
                assert(rest[i - 1] == p);
            }
            if rest.contains(p) {
                let i = choose|i: int| 0 <= i < rest.len() && rest[i] == p;
                assert(panes[i + 1] == p);
            }
            if live.contains(panes[0]) {
                assert(closed[0] == panes[0]);
                if more.contains(p) {
                    let i = choose|i: int| 0 <= i < more.len() && more[i] == p;
                    assert(closed[i + 1] == p);
                }
                if closed.contains(p) && p != panes[0] {
                    let i = choose|i: int| 0 <= i < closed.len() && closed[i] == p;
                    assert(more[i - 1] == p);
                }
            }
        }
        if live.contains(panes[0]) {
            assert(!more.contains(panes[0]));
            assert forall|i: int, j: int| 0 <= i < closed.len() && 0 <= j < closed.len() && i != j implies closed[i]
                != closed[j] by {
                if i == 0 {
                    assert(closed[j] == more[j - 1]);
                    assert(more.contains(more[j - 1]));
                } else if j == 0 {
                    assert(closed[i] == more[i - 1]);
                    assert(more.contains(more[i - 1]));
                } else {
                    assert(closed[i] == more[i - 1] && closed[j] == more[j - 1]);
                }
            }
        }
    }
}

/// A pane that is closed goes with all it had, its record and its place in the
/// window too, and nothing of any other pane goes; the window shows the others,
/// with one of them in front.
pub proof fn lemma_a_closed_pane_leaves_the_others(
    m: MuxView,
    sid: SessionId,
    window: WindowId,
    pane: PaneId,
    p: u64,
)
    requires
        m.sessions().dom().contains(sid.0),
        m.sessions()[sid.0].windows.dom().contains(window.0),
        p != pane.0,
    ensures
        ({
            let w = m.close_pane(sid, window, pane);
            let old = m.sessions()[sid.0];
            let s = w.sessions()[sid.0];
            &&& !w.grids.dom().contains(pane.0)
            &&& !w.live.contains(pane.0)
            &&& !w.readers.dom().contains(pane.0)
            &&& !w.recordings.dom().contains(pane.0)
            &&& !s.panes.dom().contains(pane.0)
            &&& w.grids.dom().contains(p) == m.grids.dom().contains(p)
            &&& m.grids.dom().contains(p) ==> w.grids[p] == m.grids[p]
            &&& w.live.contains(p) == m.live.contains(p)
            &&& w.readers.dom().contains(p) == m.readers.dom().contains(p)
            &&& m.readers.dom().contains(p) ==> w.readers[p] == m.readers[p]
            &&& w.recordings.dom().contains(p) == m.recordings.dom().contains(p)
            &&& m.recordings.dom().contains(p) ==> w.recordings[p] == m.recordings[p]
            &&& s.panes.dom().contains(p) == old.panes.dom().contains(p)
            &&& s.panes[p] == old.panes[p]
            &&& s.name == old.name
            &&& s.id == old.id
            &&& s.source == old.source
            &&& s.windows.dom().contains(window.0) == (old.windows[window.0].layout
                != LayoutNode::Leaf(pane))
            &&& forall|k: u64|
                k != window.0 ==> #[trigger] s.windows.dom().contains(k)
                    == old.windows.dom().contains(k) && s.windows[k] == old.windows[k]
            &&& forall|k: u64| k != sid.0 ==> #[trigger] w.sessions()[k] == m.sessions()[k]
        }),
{
    let one = seq![pane.0];
    assert(one[0] == pane.0);
    assert(one.to_set() =~= set![pane.0]);
}

/// The blocks that are listed are those from an index on, in their order, and the
/// first of them where there are more than asked for.
pub proof fn lemma_the_listed_blocks(s: Seq<BlockView>, since: u64, limit: int, i: int)
    requires
        limit >= 0,
    ensures
        inproc::listed(s, since, limit).len() <= limit,
        0 <= i < inproc::listed(s, since, limit).len() ==> inproc::listed(s, since, limit)[i].index
            >= since && s.contains(inproc::listed(s, since, limit)[i]),
        (forall|k: int| 0 <= k < s.len() ==> (#[trigger] s[k]).index >= since) ==> inproc::listed(
            s,
            since,
            limit,
        ) == if s.len() <= limit {
            s
        } else {
            s.take(limit)
        },
{
    lemma_blocks_from(s, since, i);
}

proof fn lemma_blocks_from(s: Seq<BlockView>, since: u64, i: int)
    ensures
        0 <= i < inproc_model::blocks_from(s, since).len() ==> inproc_model::blocks_from(
            s,
            since,
        )[i].index >= since && s.contains(inproc_model::blocks_from(s, since)[i]),
        (forall|k: int| 0 <= k < s.len() ==> (#[trigger] s[k]).index >= since)
            ==> inproc_model::blocks_from(s, since) == s,
    decreases s.len(),
{
    if s.len() > 0 {
        let rest = s.drop_last();
        let end = s.len() - 1;
        lemma_blocks_from(rest, since, i);
        assert(s[end] == s.last());
        let all = inproc_model::blocks_from(s, since);
        let before = inproc_model::blocks_from(rest, since);
        if 0 <= i < all.len() {
            if i < before.len() {
                let k = choose|k: int| 0 <= k < rest.len() && rest[k] == before[i];
                assert(s[k] == all[i]);
            }
        }
        if forall|k: int| 0 <= k < s.len() ==> (#[trigger] s[k]).index >= since {
            assert forall|k: int| 0 <= k < rest.len() implies (#[trigger] rest[k]).index >= since by {
                assert(s[k] == rest[k]);
            }
            assert(s =~= rest.push(s.last()));
        }
    } else {
        assert(inproc_model::blocks_from(s, since) =~= s);
    }
}

/// A block from the index on is listed, whatever stands around it.
pub proof fn lemma_no_block_is_left_out(s: Seq<BlockView>, since: u64, k: int)
    requires
        0 <= k < s.len(),
        s[k].index >= since,
    ensures
        inproc_model::blocks_from(s, since).contains(s[k]),
    decreases s.len(),
{
    let rest = s.drop_last();
    let before = inproc_model::blocks_from(rest, since);
    let all = inproc_model::blocks_from(s, since);
    if k < rest.len() {
        assert(rest[k] == s[k]);
        lemma_no_block_is_left_out(rest, since, k);
        let i = choose|i: int| 0 <= i < before.len() && before[i] == s[k];
        assert(all[i] == s[k]);
    } else {
        assert(all.last() == s[k]);
    }
}

/// A brake is set on the sessions it is meant for and on no other, and changes
/// nothing else of them.
pub proof fn lemma_a_brake_is_set_where_it_is_meant(
    sessions: Map<u64, TearSessionView>,
    keys: Seq<u64>,
    brake: Freio,
    k: u64,
)
    requires
        forall|i: int| 0 <= i < keys.len() ==> sessions.dom().contains(#[trigger] keys[i]),
    ensures
        ({
            let after = inproc_model::with_brake(sessions, keys, brake);
            &&& after.dom() == sessions.dom()
            &&& keys.contains(k) ==> after[k] == (TearSessionView { freio: brake, ..sessions[k] })
            &&& !keys.contains(k) ==> after[k] == sessions[k]
        }),
    decreases keys.len(),
{
    let after = inproc_model::with_brake(sessions, keys, brake);
    if keys.len() > 0 {
        let rest = keys.drop_last();
        let end = keys.len() - 1;
        assert(keys[end] == keys.last());
        assert forall|i: int| 0 <= i < rest.len() implies sessions.dom().contains(#[trigger] rest[i]) by {
            assert(keys[i] == rest[i]);
        }
        lemma_a_brake_is_set_where_it_is_meant(sessions, rest, brake, k);
        assert(after.dom() =~= sessions.dom());
        if keys.contains(k) && k != keys.last() {
            let i = choose|i: int| 0 <= i < keys.len() && keys[i] == k;
            assert(rest[i] == k);
        }
        if rest.contains(k) {
            let i = choose|i: int| 0 <= i < rest.len() && rest[i] == k;
            assert(keys[i] == k);
        }
        if k == keys.last() {
            assert(keys.contains(k));
        }
    } else {
        assert(after.dom() =~= sessions.dom());
    }
}

/// The panes that a brake holds are those of automations, and those that are told
/// as unknown are those whose origin is; each list names them all and no other.
pub proof fn lemma_panes_by_origin(
    panes: Map<u64, TearPaneView>,
    keys: Seq<u64>,
    held: bool,
    p: u64,
)
    ensures
        inproc_model::panes_by_origin(panes, keys, held).contains(p) <==> keys.contains(p) && (
        if held {
            panes[p].yurai.is_automation()
        } else {
            panes[p].yurai == YuraiView::Unknown
        }),
    decreases keys.len(),
{
    let all = inproc_model::panes_by_origin(panes, keys, held);
    if keys.len() > 0 {
        let rest = keys.drop_last();
        let before = inproc_model::panes_by_origin(panes, rest, held);
        let end = keys.len() - 1;
        lemma_panes_by_origin(panes, rest, held, p);
        assert(keys[end] == keys.last());
        if keys.contains(p) && p != keys.last() {
            let i = choose|i: int| 0 <= i < keys.len() && keys[i] == p;
            assert(rest[i] == p);
        }
        if rest.contains(p) {
            let i = choose|i: int| 0 <= i < rest.len() && rest[i] == p;
            assert(keys[i] == p);
        }
        if before.contains(p) {
            let i = choose|i: int| 0 <= i < before.len() && before[i] == p;
            assert(all[i] == p);
        }
        if all.contains(p) && !before.contains(p) {
            let i = choose|i: int| 0 <= i < all.len() && all[i] == p;
            if i < before.len() {
                assert(before[i] == p);
            }
            assert(p == keys.last());
        }
        if p == keys.last() && all != before {
            assert(all[all.len() - 1] == p);
        }
    }
}

/// A reader of a pane whose program runs is one more, with a number of its own,
/// behind those that were there; one of a pane whose program has ended is not kept.
pub proof fn lemma_a_reader_is_added(m: MuxView, pane: PaneId)
    ensures
        ({
            let w = inproc::subscribed(m, pane);
            let old = m.readers_of(pane);
            &&& w == (MuxView { readers: w.readers, token: w.token, ..m })
            &&& w.readers.dom().contains(pane.0)
            &&& w.readers[pane.0].closed == old.closed
            &&& old.closed is None ==> w.readers[pane.0].senders == old.senders.push(m.token)
            &&& old.closed is Some ==> w.readers[pane.0].senders == old.senders
            &&& m.token < u64::MAX ==> w.token == m.token + 1
            &&& forall|p: u64|
                p != pane.0 ==> #[trigger] w.readers.dom().contains(p) == m.readers.dom().contains(p)
                    && w.readers[p] == m.readers[p]
        }),
{
}

/// Readers that failed are gone, and no other is; the rest keep their order.
pub proof fn lemma_failed_readers_are_gone(senders: Seq<u64>, failed: Seq<u64>, t: u64)
    ensures
        inproc_events::still_reading(senders, failed).contains(t) <==> senders.contains(t)
            && !failed.contains(t),
        (forall|i: int| 0 <= i < senders.len() ==> !failed.contains(#[trigger] senders[i]))
            ==> inproc_events::still_reading(senders, failed) == senders,
    decreases senders.len(),
{
    let all = inproc_events::still_reading(senders, failed);
    if senders.len() > 0 {
        let rest = senders.drop_last();
        let before = inproc_events::still_reading(rest, failed);
        let end = senders.len() - 1;
        lemma_failed_readers_are_gone(rest, failed, t);
        assert(senders[end] == senders.last());
        if senders.contains(t) && t != senders.last() {
            let i = choose|i: int| 0 <= i < senders.len() && senders[i] == t;
            assert(rest[i] == t);
        }
        if rest.contains(t) {
            let i = choose|i: int| 0 <= i < rest.len() && rest[i] == t;
            assert(senders[i] == t);
        }
        if before.contains(t) {
            let i = choose|i: int| 0 <= i < before.len() && before[i] == t;
            assert(all[i] == t);
        }
        if all.contains(t) && !before.contains(t) {
            let i = choose|i: int| 0 <= i < all.len() && all[i] == t;
            if i < before.len() {
                assert(before[i] == t);
            }
            assert(t == senders.last());
        }
        if !failed.contains(senders.last()) {
            assert(all[all.len() - 1] == senders.last());
        }
        if forall|i: int| 0 <= i < senders.len() ==> !failed.contains(#[trigger] senders[i]) {
            assert forall|i: int| 0 <= i < rest.len() implies !failed.contains(#[trigger] rest[i]) by {
                assert(senders[i] == rest[i]);
            }
            assert(senders =~= rest.push(senders.last()));
        }
    } else {
        assert(all =~= senders);
    }
}

/// A recording that is switched on is empty, runs, and has the size of the pane:
/// the columns first and then the rows. No other recording changes.
pub proof fn lemma_a_recording_has_the_size_of_its_pane(
    m: MuxView,
    pane: PaneId,
    at: std::time::Instant,
    unix_ms: u64,
)
    requires
        m.shown_pane(pane) is Some,
    ensures
        ({
            let w = inproc::recording_on(m, pane, at, unix_ms);
            let rec = w.recordings[pane.0];
            let size = m.shown_pane(pane)->0.size_cells;
            &&& w == (MuxView { recordings: w.recordings, ..m })
            &&& w.recordings.dom().contains(pane.0)
            &&& rec.cols == size.0
            &&& rec.rows == size.1
            &&& rec.events.len() == 0
            &&& rec.started == Some(at)
            &&& rec.began == Some(unix_ms)
            &&& rec.anchor == Some(unix_ms)
            &&& !m.recordings.dom().contains(pane.0) ==> rec.max_events == 50000
            &&& m.recordings.dom().contains(pane.0) ==> rec.max_events
                == m.recordings[pane.0].max_events
            &&& forall|p: u64| p != pane.0 ==> #[trigger] w.recordings[p] == m.recordings[p]
        }),
{
}

} // verus!
