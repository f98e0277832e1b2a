//! What holds of the multiplexer whatever is asked of it.
use crate::id::{PaneId, SessionId, WindowId};
use crate::inproc_model;
use crate::inproc_model::{MuxView, ReadersView};
use crate::layout;
use crate::layout::{Direction, LayoutNode};
use crate::pane::PaneState;
use crate::registry;
use crate::registry::{RegistryView, SpawnView};
use crate::session::TearSessionView;
use crate::table;
use vstd::prelude::*;

verus! {

/// A window of a session: filed under its own number, its panes all recorded and
/// each shown once, the focused one among them.
pub open spec fn tidy_window(s: TearSessionView, w: u64) -> bool {
    let win = s.windows[w];
    &&& win.id.0 == w
    &&& win.layout.leaves().no_duplicates()
    &&& win.layout.leaves().contains(win.active_pane.0)
    &&& forall|p: u64| #[trigger] win.layout.leaves().contains(p) ==> s.panes.dom().contains(p)
}

/// A session whose windows and panes fit together: no window shows what is not
/// recorded, no pane is shown twice, and the window in front exists if any does.
pub open spec fn tidy(s: TearSessionView) -> bool {
    &&& s.windows.dom().finite()
    &&& forall|w: u64| #[trigger] s.windows.dom().contains(w) ==> tidy_window(s, w)
    &&& forall|p: u64| #[trigger] s.panes.dom().contains(p) ==> s.panes[p].id.0 == p
    &&& forall|v: u64, w: u64, p: u64|
        s.windows.dom().contains(v) && s.windows.dom().contains(w) && v != w
            && #[trigger] s.windows[v].layout.leaves().contains(p)
            ==> !#[trigger] s.windows[w].layout.leaves().contains(p)
    &&& if s.windows.dom() == Set::<u64>::empty() {
        s.active_window == WindowId(0)
    } else {
        s.windows.dom().contains(s.active_window.0)
    }
}

/// Every session fits together and is filed under its own number.
pub open spec fn tidy_registry(r: RegistryView) -> bool {
    forall|k: u64| #[trigger]
        r.sessions.dom().contains(k) ==> r.sessions[k].id.0 == k && tidy(r.sessions[k])
}

/// A new session fits together.
pub proof fn lemma_new_session_is_tidy(r: RegistryView, name: Seq<char>, now: u64)
    requires
        tidy_registry(r),
    ensures
        tidy_registry(r.create_session(name, now)),
        tidy(r.fresh_session(name, now)),
{
    let s = r.fresh_session(name, now);
    assert(s.windows.dom() =~= Set::<u64>::empty());
}

/// A session stays tidy when it gets a window and a pane under numbers that are
/// not taken.
pub proof fn lemma_new_window_stays_tidy(
    s: TearSessionView,
    window: WindowId,
    pane: PaneId,
    name: Seq<char>,
    spawn: SpawnView,
)
    requires
        tidy(s),
        !s.windows.dom().contains(window.0),
        !s.panes.dom().contains(pane.0),
        s.active_window == WindowId(0) ==> !s.windows.dom().contains(0),
    ensures
        tidy(RegistryView::with_window(s, window, pane, name, spawn)),
        RegistryView::with_window(s, window, pane, name, spawn).windows[window.0].active_pane
            == pane,
{
    let t = RegistryView::with_window(s, window, pane, name, spawn);
    let leaf = LayoutNode::Leaf(pane);
    assert(leaf.leaves() =~= seq![pane.0]);
    assert(leaf.leaves()[0] == pane.0);
    assert forall|w: u64| #[trigger] t.windows.dom().contains(w) implies tidy_window(t, w) by {
        if w != window.0 {
            assert(s.windows.dom().contains(w));
            assert(tidy_window(s, w));
        }
    }
    assert forall|v: u64, w: u64, p: u64|
        t.windows.dom().contains(v) && t.windows.dom().contains(w) && v != w
            && #[trigger] t.windows[v].layout.leaves().contains(p) implies !(
    #[trigger] t.windows[w].layout.leaves().contains(p)) by {
        if v == window.0 {
            assert(s.windows.dom().contains(w));
            assert(tidy_window(s, w));
        } else if w == window.0 {
            assert(s.windows.dom().contains(v));
            assert(tidy_window(s, v));
        } else {
            assert(s.windows[v].layout.leaves().contains(p));
            assert(!s.windows[w].layout.leaves().contains(p));
        }
    }
    if s.active_window == WindowId(0) {
        assert(!s.windows.dom().contains(s.active_window.0));
    }
}

/// A session stays tidy when a pane under a number that is not taken is split
/// off one that a window shows; the new pane gets the focus.
pub proof fn lemma_split_stays_tidy(
    s: TearSessionView,
    window: WindowId,
    origin: PaneId,
    added: PaneId,
    direction: Direction,
    ratio: u32,
    spawn: SpawnView,
)
    requires
        tidy(s),
        s.windows.dom().contains(window.0),
        s.windows[window.0].layout.leaves().contains(origin.0),
        !s.panes.dom().contains(added.0),
    ensures
        tidy(inproc_model::with_split(s, window, origin, added, direction, ratio, spawn)),
{
    let t = inproc_model::with_split(s, window, origin, added, direction, ratio, spawn);
    let before = s.windows[window.0].layout;
    let all = before.leaves();
    assert(tidy_window(s, window.0));
    if all.contains(added.0) {
        assert(s.panes.dom().contains(added.0));
    }
    layout::lemma_split_keeps_the_others(before, origin, added, direction, ratio);
    let tree = before.split(origin, added, direction, ratio);
    let i = choose|i: int|
        0 <= i < all.len() && all[i] == origin.0 && tree.leaves() == #[trigger] layout::beside(
            all,
            i,
            added.0,
            direction.forward(),
        );
    let at = if direction.forward() {
        i + 1
    } else {
        i
    };
    let grown = tree.leaves();
    assert(grown =~= all.insert(at, added.0));
    assert forall|x: int, y: int| 0 <= x < grown.len() && 0 <= y < grown.len() && x != y implies grown[x]
        != grown[y] by {
        let px = if x < at {
            x
        } else {
            x - 1
        };
        let py = if y < at {
            y
        } else {
            y - 1
        };
        if x == at {
            assert(grown[y] == all[py]);
            assert(all.contains(all[py]));
        } else if y == at {
            assert(grown[x] == all[px]);
            assert(all.contains(all[px]));
        } else {
            assert(all[px] != all[py]);
        }
    }
    assert forall|p: u64| #[trigger] grown.contains(p) implies all.contains(p) || p == added.0 by {
        let x = choose|x: int| 0 <= x < grown.len() && grown[x] == p;
        if x != at {
            let px = if x < at {
                x
            } else {
                x - 1
            };
            assert(all[px] == p);
        }
    }
    assert(grown[at] == added.0);
    assert forall|w: u64| #[trigger] t.windows.dom().contains(w) implies tidy_window(t, w) by {
        if w != window.0 {
            assert(s.windows.dom().contains(w));
            assert(tidy_window(s, w));
        }
    }
    assert forall|v: u64, w: u64, p: u64|
        t.windows.dom().contains(v) && t.windows.dom().contains(w) && v != w
            && #[trigger] t.windows[v].layout.leaves().contains(p) implies !(
    #[trigger] t.windows[w].layout.leaves().contains(p)) by {
        assert(s.windows.dom().contains(v) && s.windows.dom().contains(w));
        assert(tidy_window(s, v) && tidy_window(s, w));
        if v == window.0 {
            assert(all.contains(p) || p == added.0);
            if p == added.0 {
                if s.windows[w].layout.leaves().contains(p) {
                    assert(s.panes.dom().contains(p));
                }
            } else {
                assert(s.windows[v].layout.leaves().contains(p));
                assert(!s.windows[w].layout.leaves().contains(p));
            }
        } else if w == window.0 {
            assert(s.windows[v].layout.leaves().contains(p));
            assert(s.panes.dom().contains(p));
            assert(!s.windows[w].layout.leaves().contains(p));
            if grown.contains(p) {
                assert(all.contains(p) || p == added.0);
            }
        } else {
            assert(s.windows[v].layout.leaves().contains(p));
            assert(!s.windows[w].layout.leaves().contains(p));
        }
    }
}

/// A session stays tidy when a window goes with its panes, and the window in
/// front is one that is left.
pub proof fn lemma_closed_window_stays_tidy(s: TearSessionView, window: WindowId)
    requires
        tidy(s),
        s.windows.dom().contains(window.0),
    ensures
        tidy(
            inproc_model::without_window(
                s,
                window,
                s.windows[window.0].layout.leaves(),
            ),
        ),
{
    let panes = s.windows[window.0].layout.leaves();
    let t = inproc_model::without_window(s, window, panes);
    assert forall|w: u64| #[trigger] t.windows.dom().contains(w) implies tidy_window(t, w) by {
        assert(s.windows.dom().contains(w));
        assert(tidy_window(s, w));
        assert forall|p: u64| #[trigger] t.windows[w].layout.leaves().contains(
            p,
        ) implies t.panes.dom().contains(p) by {
            assert(s.windows[w].layout.leaves().contains(p));
            if panes.to_set().contains(p) {
                assert(s.windows[window.0].layout.leaves().contains(p));
                assert(!s.windows[w].layout.leaves().contains(p));
            }
        }
    }
    assert forall|v: u64, w: u64, p: u64|
        t.windows.dom().contains(v) && t.windows.dom().contains(w) && v != w
            && #[trigger] t.windows[v].layout.leaves().contains(p) implies !(
    #[trigger] t.windows[w].layout.leaves().contains(p)) by {
        assert(s.windows.dom().contains(v) && s.windows.dom().contains(w));
        assert(s.windows[v].layout.leaves().contains(p));
        assert(!s.windows[w].layout.leaves().contains(p));
    }
    lemma_front_is_left(s, window);
}

proof fn lemma_front_is_left(s: TearSessionView, window: WindowId)
    requires
        s.windows.dom().finite(),
        s.windows.dom().contains(s.active_window.0),
        s.windows.dom().contains(window.0),
    ensures
        if s.windows.remove(window.0).dom() == Set::<u64>::empty() {
            inproc_model::front_without(s, window) == WindowId(0)
        } else {
            s.windows.remove(window.0).dom().contains(inproc_model::front_without(s, window).0)
        },
{
    let d = s.windows.remove(window.0).dom();
    if d == Set::<u64>::empty() {
        assert(s.active_window == window) by {
            if s.active_window.0 != window.0 {
                assert(d.contains(s.active_window.0));
            }
        }
        lemma_ordered_lists(d);
        let listing = table::ordered(d);
        if listing.len() > 0 {
            assert(listing.contains(listing[0]));
        }
    } else if s.active_window == window {
        lemma_first_is_a_member(d);
    }
}

/// The ordered list of a finite set names each of its numbers once.
pub proof fn lemma_ordered_lists(d: Set<u64>)
    requires
        d.finite(),
    ensures
        table::lists(table::ordered(d), d),
    decreases d.len(),
{
    if d.len() == 0 {
        assert(d =~= Set::<u64>::empty());
        let e = Seq::<u64>::empty();
        assert(table::lists(e, d));
    } else {
        lemma_has_greatest(d);
        let g = choose|g: u64| d.contains(g) && forall|x: u64| d.contains(x) ==> x <= g;
        let rest = d.remove(g);
        lemma_ordered_lists(rest);
        let s = table::ordered(rest).push(g);
        let r = table::ordered(rest);
        assert forall|i: int, j: int| 0 <= i < j < s.len() implies s[i] < s[j] by {
            assert(r.contains(r[i]));
            if j < r.len() {
                assert(r[i] < r[j]);
            }
        }
        assert forall|k: u64| #[trigger] s.contains(k) <==> d.contains(k) by {
            if s.contains(k) {
                let i = choose|i: int| 0 <= i < s.len() && s[i] == k;
                if i < r.len() {
                    assert(r.contains(k));
                }
            }
            if d.contains(k) && k != g {
                assert(r.contains(k));
                let i = choose|i: int| 0 <= i < r.len() && r[i] == k;
                assert(s[i] == k);
            }
            assert(s[r.len() as int] == g);
        }
        assert(table::lists(s, d));
    }
}

proof fn lemma_has_greatest(d: Set<u64>)
    requires
        d.finite(),
        d.len() > 0,
    ensures
        exists|g: u64| d.contains(g) && forall|x: u64| d.contains(x) ==> x <= g,
    decreases d.len(),
{
    let a = d.choose();
    let rest = d.remove(a);
    if rest.len() == 0 {
        assert(rest =~= Set::<u64>::empty());
        assert forall|x: u64| d.contains(x) implies x <= a by {
            if x != a {
                assert(rest.contains(x));
            }
        }
    } else {
        lemma_has_greatest(rest);
        let g = choose|g: u64| rest.contains(g) && forall|x: u64| rest.contains(x) ==> x <= g;
        let best = if a > g {
            a
        } else {
            g
        };
        assert forall|x: u64| d.contains(x) implies x <= best by {
            if x != a {
                assert(rest.contains(x));
            }
        }
        assert(d.contains(best));
    }
}

proof fn lemma_first_is_a_member(d: Set<u64>)
    requires
        d.finite(),
        d != Set::<u64>::empty(),
    ensures
        match table::first_of(d) {
            Some(k) => d.contains(k),
            None => false,
        },
{
    lemma_ordered_lists(d);
    let s = table::ordered(d);
    if s.len() == 0 {
        assert forall|x: u64| !d.contains(x) by {
            assert(!s.contains(x));
        }
        assert(d =~= Set::<u64>::empty());
    } else {
        assert(s.contains(s[0]));
    }
}

/// A session stays tidy when a pane goes from a window that shows others too,
/// and the focus is on a pane that is left.
pub proof fn lemma_closed_pane_stays_tidy(s: TearSessionView, window: WindowId, pane: PaneId)
    requires
        tidy(s),
        s.windows.dom().contains(window.0),
        s.windows[window.0].layout.removal(pane) is Removed,
    ensures
        tidy(inproc_model::without_pane(s, window, pane)),
{
    let t = inproc_model::without_pane(s, window, pane);
    let before = s.windows[window.0].layout;
    let all = before.leaves();
    assert(tidy_window(s, window.0));
    layout::lemma_removal_keeps_the_others(before, pane);
    let tree = before.without(pane);
    let i = choose|i: int|
        0 <= i < all.len() && all[i] == pane.0 && tree.leaves() == #[trigger] all.remove(i);
    let cut = tree.leaves();
    assert forall|x: int, y: int| 0 <= x < cut.len() && 0 <= y < cut.len() && x != y implies cut[x]
        != cut[y] by {
        let px = if x < i {
            x
        } else {
            x + 1
        };
        let py = if y < i {
            y
        } else {
            y + 1
        };
        assert(all[px] != all[py]);
    }
    assert forall|p: u64| #[trigger] cut.contains(p) implies all.contains(p) && p != pane.0 by {
        let x = choose|x: int| 0 <= x < cut.len() && cut[x] == p;
        let px = if x < i {
            x
        } else {
            x + 1
        };
        assert(all[px] == p);
        assert(all[px] != all[i]);
    }
    lemma_a_tree_has_a_leaf(tree);
    assert(cut.contains(cut[0]));
    assert(cut.contains(t.windows[window.0].active_pane.0)) by {
        let f = s.windows[window.0].active_pane;
        if f != pane {
            let x = choose|x: int| 0 <= x < all.len() && all[x] == f.0;
            let px = if x < i {
                x
            } else {
                x - 1
            };
            assert(cut[px] == f.0);
        }
    }
    assert forall|w: u64| #[trigger] t.windows.dom().contains(w) implies tidy_window(t, w) by {
        assert(s.windows.dom().contains(w));
        assert(tidy_window(s, w));
        if w != window.0 {
            assert forall|p: u64| #[trigger] t.windows[w].layout.leaves().contains(
                p,
            ) implies t.panes.dom().contains(p) by {
                assert(s.windows[w].layout.leaves().contains(p));
                if p == pane.0 {
                    assert(s.windows[window.0].layout.leaves().contains(p));
                }
            }
        }
    }
    assert forall|v: u64, w: u64, p: u64|
        t.windows.dom().contains(v) && t.windows.dom().contains(w) && v != w
            && #[trigger] t.windows[v].layout.leaves().contains(p) implies !(
    #[trigger] t.windows[w].layout.leaves().contains(p)) by {
        assert(s.windows.dom().contains(v) && s.windows.dom().contains(w));
        if v == window.0 {
            assert(cut.contains(p));
        }
        assert(s.windows[v].layout.leaves().contains(p));
        assert(!s.windows[w].layout.leaves().contains(p));
        if w == window.0 && cut.contains(p) {
            assert(all.contains(p));
        }
    }
}

proof fn lemma_a_tree_has_a_leaf(t: LayoutNode)
    ensures
        t.leaves().len() >= 1,
    decreases t,
{
    match t {
        LayoutNode::Leaf(_) => {},
        LayoutNode::Split { first, second, .. } => {
            lemma_a_tree_has_a_leaf(*first);
        },
    }
}

/// A session stays tidy when the last pane of a window goes and the window with
/// it.
pub proof fn lemma_closed_last_pane_stays_tidy(s: TearSessionView, window: WindowId, pane: PaneId)
    requires
        tidy(s),
        s.windows.dom().contains(window.0),
        s.windows[window.0].layout == LayoutNode::Leaf(pane),
    ensures
        tidy(
            TearSessionView {
                panes: s.panes.remove(pane.0),
                windows: s.windows.remove(window.0),
                active_window: inproc_model::front_without(s, window),
                ..s
            },
        ),
{
    let leaves = s.windows[window.0].layout.leaves();
    assert(leaves =~= seq![pane.0]);
    lemma_closed_window_stays_tidy(s, window);
    let t = inproc_model::without_window(s, window, leaves);
    assert(leaves.to_set() =~= set![pane.0]) by {
        assert(leaves[0] == pane.0);
    }
    assert(t.panes =~= s.panes.remove(pane.0));
}

/// In a tidy registry a pane that is located is shown by the window it is
/// located in, and the session is filed under the number it is located by.
pub proof fn lemma_located_is_shown(m: MuxView, pane: PaneId)
    requires
        tidy_registry(m.registry),
        m.sessions().dom().finite(),
        m.registry.locate(pane) is Some,
    ensures
        ({
            let (sid, wid) = m.registry.locate(pane)->0;
            &&& m.sessions().dom().contains(sid.0)
            &&& m.shows(sid, wid, pane)
            &&& m.sessions()[sid.0].panes.dom().contains(pane.0)
        }),
{
    let keys = table::ordered(m.sessions().dom());
    lemma_ordered_lists(m.sessions().dom());
    registry::lemma_located_pane_is_shown(m.sessions(), keys, pane);
    let (sid, wid) = m.registry.locate(pane)->0;
    let k = choose|k: u64| #[trigger]
        keys.contains(k) && m.sessions()[k].id == sid && m.sessions()[k].panes.dom().contains(
            pane.0,
        ) && table::ordered(m.sessions()[k].windows.dom()).contains(wid.0)
            && m.sessions()[k].windows[wid.0].layout.leaves().contains(pane.0);
    assert(m.sessions().dom().contains(k));
    assert(m.sessions()[k].id.0 == k);
    lemma_ordered_lists(m.sessions()[k].windows.dom());
}

/// A session that is killed leaves nothing: no record, no terminal, no screen,
/// no reader and no recording of its panes. Other sessions stay as they are.
pub proof fn lemma_killed_session_leaves_nothing(m: MuxView, id: SessionId, pane: u64, other: u64)
    requires
        m.sessions().dom().contains(id.0),
        m.sessions()[id.0].panes.dom().finite(),
        m.sessions()[id.0].panes.dom().contains(pane),
        other != id.0,
    ensures
        ({
            let after = m.kill_session(id);
            &&& !after.sessions().dom().contains(id.0)
            &&& !after.live.contains(pane)
            &&& !after.grids.dom().contains(pane)
            &&& !after.readers.dom().contains(pane)
            &&& !after.recordings.dom().contains(pane)
            &&& m.sessions().dom().contains(other) ==> after.sessions().dom().contains(other)
                && after.sessions()[other] == m.sessions()[other]
        }),
{
    let d = m.sessions()[id.0].panes.dom();
    lemma_ordered_lists(d);
    let panes = table::ordered(d);
    assert(panes.contains(pane));
    assert(panes.to_set().contains(pane));
}

/// The end of a program takes a session away only if every program of it has
/// ended, and then leaves no terminal, screen or reader of its panes.
pub proof fn lemma_exit_reaps_only_the_dead(m: MuxView, pane: PaneId, code: i32, k: u64)
    requires
        m.sessions().dom().contains(k),
        !m.exit(pane, code).sessions().dom().contains(k),
    ensures
        m.marked(pane, code).sessions()[k].dead(),
        m.registry.owner(pane) is Some,
        m.readers_of(pane).senders.len() == 0,
        forall|p: u64| #[trigger]
            m.marked(pane, code).sessions()[k].panes.dom().contains(p)
                && m.marked(pane, code).sessions()[k].panes.dom().finite() ==> !m.exit(
                pane,
                code,
            ).grids.dom().contains(p) && !m.exit(pane, code).live.contains(p) && !m.exit(
                pane,
                code,
            ).readers.dom().contains(p),
{
    let known = m.registry.owner(pane) is Some;
    let marked = m.marked(pane, code);
    let after = marked.closed(pane, code, known);
    assert(after.sessions() == marked.sessions());
    assert(marked.sessions().dom().contains(k));
    let id = m.doomed(pane, code)->0;
    assert(m.doomed(pane, code) is Some);
    assert(after.sessions().dom().contains(id.0) && after.sessions()[id.0].dead());
    assert(id.0 == k);
    let d = after.sessions()[k].panes.dom();
    assert forall|p: u64| #[trigger]
        marked.sessions()[k].panes.dom().contains(p) && d.finite() implies !m.exit(
        pane,
        code,
    ).grids.dom().contains(p) && !m.exit(pane, code).live.contains(p) && !m.exit(
        pane,
        code,
    ).readers.dom().contains(p) by {
        lemma_ordered_lists(d);
        assert(table::ordered(d).contains(p));
        assert(table::ordered(d).to_set().contains(p));
    }
}

/// A pane that someone reads keeps its session when its program ends: the pane
/// is marked, and its readers are told that nothing more comes.
pub proof fn lemma_watched_session_remains(m: MuxView, pane: PaneId, code: i32, k: u64)
    requires
        m.registry.owner(pane) == Some(k),
        m.sessions().dom().contains(k),
        m.readers_of(pane).senders.len() > 0,
    ensures
        m.exit(pane, code).sessions().dom().contains(k),
        m.exit(pane, code).sessions()[k].panes[pane.0].state == (PaneState::Exited { code }),
        m.exit(pane, code).readers_of(pane) == (ReadersView {
            closed: Some(code),
            senders: Seq::empty(),
        }),
        m.exit(pane, code).grids == m.grids,
{
}

/// A session with a program that runs outlives the end of every other program.
pub proof fn lemma_running_program_keeps_its_session(
    m: MuxView,
    pane: PaneId,
    code: i32,
    k: u64,
    p: u64,
)
    requires
        m.sessions().dom().contains(k),
        m.sessions()[k].panes.dom().contains(p),
        p != pane.0,
        !(m.sessions()[k].panes[p].state is Exited),
    ensures
        m.exit(pane, code).sessions().dom().contains(k),
{
    if !m.exit(pane, code).sessions().dom().contains(k) {
        lemma_exit_reaps_only_the_dead(m, pane, code, k);
        let s = m.marked(pane, code).sessions()[k];
        assert(s.panes.dom().contains(p));
        assert(s.panes[p] == m.sessions()[k].panes[p]);
        assert(s.panes[p].state is Exited);
    }
}

/// Bytes of one pane change no other pane, no session and no reader.
pub proof fn lemma_bytes_touch_one_pane(
    m: MuxView,
    pane: PaneId,
    bytes: Seq<u8>,
    now: u64,
    ts_ms: u64,
    other: u64,
)
    requires
        other != pane.0,
    ensures
        ({
            let after = m.bytes(pane, bytes, now, ts_ms);
            &&& after.registry == m.registry
            &&& after.readers == m.readers
            &&& after.live == m.live
            &&& after.grids.dom() == m.grids.dom()
            &&& m.grids.dom().contains(other) ==> after.grids[other] == m.grids[other]
            &&& m.recordings.dom().contains(other) ==> after.recordings[other]
                == m.recordings[other]
        }),
{
    let after = m.bytes(pane, bytes, now, ts_ms);
    assert(after.grids.dom() =~= m.grids.dom());
}

} // verus!
