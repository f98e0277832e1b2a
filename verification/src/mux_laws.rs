//! What the operations of the multiplexer keep. One does not: a new session whose
//! program did not start goes without its screen, which stays behind.
use crate::id::{PaneId, SessionId, WindowId};
use crate::inproc_laws;
use crate::inproc_model;
use crate::inproc_model::{MuxView, ReadersView};
use crate::layout::{Direction, LayoutNode, Rect};
use crate::lookup;
use crate::pane::TearPaneView;
use crate::registry::{RegistryView, SpawnView};
use crate::session::{SourceView, TearSessionView, TearWindowView};
use crate::table;
use vstd::prelude::*;

verus! {

/// Some session has a record of a pane.
pub open spec fn recorded(m: MuxView, p: u64) -> bool {
    exists|k: u64| #[trigger]
        m.sessions().dom().contains(k) && m.sessions()[k].panes.dom().contains(p)
}

/// Sessions, windows and panes fit together, and every screen, every running
/// terminal and every list of readers belongs to a pane that is recorded.
pub open spec fn sound(m: MuxView) -> bool {
    &&& inproc_laws::tidy_registry(m.registry)
    &&& m.sessions().dom().finite()
    &&& forall|k: u64| #[trigger]
        m.sessions().dom().contains(k) ==> m.sessions()[k].panes.dom().finite()
    &&& forall|p: u64| #[trigger] m.grids.dom().contains(p) ==> recorded(m, p)
    &&& forall|p: u64| #[trigger] m.live.contains(p) ==> recorded(m, p)
    &&& forall|p: u64| #[trigger] m.readers.dom().contains(p) ==> recorded(m, p)
}

/// Every pane but those of `gone` that was recorded still is.
spec fn keeps_records(m: MuxView, n: MuxView, gone: Set<u64>) -> bool {
    forall|p: u64| recorded(m, p) && !gone.contains(p) ==> #[trigger] recorded(n, p)
}

proof fn lemma_owner_records(m: MuxView, keys: Seq<u64>, pane: PaneId)
    ensures
        match lookup::holder(m.sessions(), keys, pane) {
            Some(k) => keys.contains(k) && m.sessions()[k].panes.dom().contains(pane.0),
            None => true,
        },
    decreases keys.len(),
{
    if keys.len() > 0 {
        lemma_owner_records(m, keys.drop_first(), pane);
        assert(keys.contains(keys[0]));
        assert forall|k: u64| keys.drop_first().contains(k) implies keys.contains(k) by {
            let i = choose|i: int| 0 <= i < keys.drop_first().len() && keys.drop_first()[i] == k;
            assert(keys[i + 1] == k);
        }
    }
}

/// The session that owns a pane has a record of it.
pub proof fn lemma_owner_has_the_record(m: MuxView, pane: PaneId)
    requires
        m.sessions().dom().finite(),
    ensures
        match m.registry.owner(pane) {
            Some(k) => m.sessions().dom().contains(k) && m.sessions()[k].panes.dom().contains(
                pane.0,
            ) && recorded(m, pane.0),
            None => true,
        },
{
    lemma_owner_records(m, table::ordered(m.sessions().dom()), pane);
    inproc_laws::lemma_ordered_lists(m.sessions().dom());
}

/// A multiplexer that has just started is sound.
pub proof fn lemma_start_is_sound()
    ensures
        sound(MuxView::start()),
{
}

proof fn lemma_session_replaced(m: MuxView, n: MuxView, k: u64, gone: Set<u64>)
    requires
        sound(m),
        n.sessions() == m.sessions().insert(k, n.sessions()[k]),
        n.sessions()[k].id.0 == k,
        inproc_laws::tidy(n.sessions()[k]),
        n.sessions()[k].panes.dom().finite(),
        m.sessions().dom().contains(k) ==> forall|p: u64| #[trigger]
            m.sessions()[k].panes.dom().contains(p) && !gone.contains(p)
                ==> n.sessions()[k].panes.dom().contains(p),
    ensures
        inproc_laws::tidy_registry(n.registry),
        n.sessions().dom().finite(),
        forall|j: u64| #[trigger]
            n.sessions().dom().contains(j) ==> n.sessions()[j].panes.dom().finite(),
        keeps_records(m, n, gone),
{
    assert forall|p: u64| recorded(m, p) && !gone.contains(p) implies #[trigger] recorded(n, p) by {
        let j = choose|j: u64| #[trigger]
            m.sessions().dom().contains(j) && m.sessions()[j].panes.dom().contains(p);
        assert(n.sessions().dom().contains(j));
    }
}

proof fn lemma_pane_begins(m: MuxView, n: MuxView, k: u64, pane: PaneId)
    requires
        sound(m),
        n.sessions() == m.sessions().insert(k, n.sessions()[k]),
        n.sessions()[k].id.0 == k,
        inproc_laws::tidy(n.sessions()[k]),
        n.sessions()[k].panes.dom().finite(),
        m.sessions().dom().contains(k) ==> forall|p: u64| #[trigger]
            m.sessions()[k].panes.dom().contains(p) ==> n.sessions()[k].panes.dom().contains(p),
        n.sessions()[k].panes.dom().contains(pane.0),
        n.grids.dom() == m.grids.dom().insert(pane.0),
        n.live == m.live,
        n.readers == m.readers,
    ensures
        sound(n),
{
    lemma_session_replaced(m, n, k, Set::empty());
    assert(n.sessions().dom().contains(k));
    assert(recorded(n, pane.0));
    assert forall|p: u64| #[trigger] n.grids.dom().contains(p) implies recorded(n, p) by {
        if p != pane.0 {
            assert(m.grids.dom().contains(p));
        }
    }
    assert forall|p: u64| #[trigger] n.live.contains(p) implies recorded(n, p) by {
        assert(m.live.contains(p));
    }
    assert forall|p: u64| #[trigger] n.readers.dom().contains(p) implies recorded(n, p) by {
        assert(m.readers.dom().contains(p));
    }
}

/// A new session keeps the multiplexer sound, where its number is not taken.
pub proof fn lemma_new_session_stays_sound(
    m: MuxView,
    name: Seq<char>,
    spawn: SpawnView,
    source: SourceView,
    now: u64,
)
    requires
        sound(m),
        !m.sessions().dom().contains(m.registry.fresh_session(name, now).id.0),
    ensures
        sound(m.new_session(name, spawn, source, now)),
{
    let n = m.new_session(name, spawn, source, now);
    let fresh = TearSessionView { source, ..m.registry.fresh_session(name, now) };
    let sid = fresh.id;
    let r = m.opened(name, source, now);
    let window = r.next_window(sid, "main"@, now);
    let pane = r.first_pane(sid, "main"@, spawn.shell, now);
    assert(fresh.windows.dom() =~= Set::<u64>::empty());
    inproc_laws::lemma_new_window_stays_tidy(fresh, window, pane, "main"@, spawn);
    let s = RegistryView::with_window(fresh, window, pane, "main"@, spawn);
    assert(n.sessions() =~= m.sessions().insert(sid.0, s));
    assert(n.grids.dom() =~= m.grids.dom().insert(pane.0));
    lemma_pane_begins(m, n, sid.0, pane);
}

/// A new window keeps the multiplexer sound, where neither its number nor that
/// of its pane is taken in the session.
pub proof fn lemma_new_window_stays_sound(
    m: MuxView,
    session: SessionId,
    name: Seq<char>,
    spawn: SpawnView,
    now: u64,
)
    requires
        sound(m),
        m.sessions().dom().contains(session.0),
        !m.sessions()[session.0].windows.dom().contains(
            m.registry.next_window(session, name, now).0,
        ),
        !m.sessions()[session.0].panes.dom().contains(
            m.registry.first_pane(session, name, spawn.shell, now).0,
        ),
        m.sessions()[session.0].active_window == WindowId(0) ==> !m.sessions()[
            session.0
        ].windows.dom().contains(0),
    ensures
        sound(m.new_window(session, name, spawn, now)),
{
    let n = m.new_window(session, name, spawn, now);
    let before = m.sessions()[session.0];
    let window = m.registry.next_window(session, name, now);
    let pane = m.registry.first_pane(session, name, spawn.shell, now);
    inproc_laws::lemma_new_window_stays_tidy(before, window, pane, name, spawn);
    let s = RegistryView::with_window(before, window, pane, name, spawn);
    assert(n.sessions() =~= m.sessions().insert(session.0, s));
    assert(n.grids.dom() =~= m.grids.dom().insert(pane.0));
    lemma_pane_begins(m, n, session.0, pane);
}

/// Splitting a pane keeps the multiplexer sound, where the number of the new
/// pane is not taken in the session.
pub proof fn lemma_split_stays_sound(
    m: MuxView,
    sid: SessionId,
    window: WindowId,
    origin: PaneId,
    direction: Direction,
    ratio: u32,
    spawn: SpawnView,
    now: u64,
)
    requires
        sound(m),
        m.sessions().dom().contains(sid.0),
        m.shows(sid, window, origin),
        !m.sessions()[sid.0].panes.dom().contains(m.split_pane_id(window, spawn.shell, now).0),
    ensures
        sound(m.split_pane(sid, window, origin, direction, ratio, spawn, now)),
{
    let n = m.split_pane(sid, window, origin, direction, ratio, spawn, now);
    let before = m.sessions()[sid.0];
    let added = m.split_pane_id(window, spawn.shell, now);
    inproc_laws::lemma_split_stays_tidy(before, window, origin, added, direction, ratio, spawn);
    let s = inproc_model::with_split(before, window, origin, added, direction, ratio, spawn);
    assert(n.sessions() =~= m.sessions().insert(sid.0, s));
    assert(n.grids.dom() =~= m.grids.dom().insert(added.0));
    lemma_pane_begins(m, n, sid.0, added);
}

/// What is left after panes went with everything that belonged to them.
proof fn lemma_panes_end(m: MuxView, n: MuxView, gone: Set<u64>)
    requires
        sound(m),
        keeps_records(m, n, gone),
        n.grids == m.grids.remove_keys(gone),
        n.live == m.live.difference(gone),
        n.readers == m.readers.remove_keys(gone),
    ensures
        forall|p: u64| #[trigger] n.grids.dom().contains(p) ==> recorded(n, p),
        forall|p: u64| #[trigger] n.live.contains(p) ==> recorded(n, p),
        forall|p: u64| #[trigger] n.readers.dom().contains(p) ==> recorded(n, p),
{
    assert forall|p: u64| #[trigger] n.grids.dom().contains(p) implies recorded(n, p) by {
        assert(m.grids.dom().contains(p));
    }
    assert forall|p: u64| #[trigger] n.live.contains(p) implies recorded(n, p) by {
        assert(m.live.contains(p));
    }
    assert forall|p: u64| #[trigger] n.readers.dom().contains(p) implies recorded(n, p) by {
        assert(m.readers.dom().contains(p));
    }
}

/// Closing a window keeps the multiplexer sound.
pub proof fn lemma_kill_window_stays_sound(m: MuxView, k: u64, window: WindowId)
    requires
        sound(m),
        m.sessions().dom().contains(k),
        m.sessions()[k].windows.dom().contains(window.0),
    ensures
        sound(m.kill_window(k, window)),
{
    let n = m.kill_window(k, window);
    let before = m.sessions()[k];
    let panes = before.windows[window.0].layout.leaves();
    inproc_laws::lemma_closed_window_stays_tidy(before, window);
    let s = inproc_model::without_window(before, window, panes);
    assert(n.sessions() =~= m.sessions().insert(k, s));
    assert(s.panes.dom() =~= before.panes.dom().difference(panes.to_set()));
    lemma_session_replaced(m, n, k, panes.to_set());
    lemma_panes_end(m, n, panes.to_set());
}

/// Closing a pane keeps the multiplexer sound.
pub proof fn lemma_close_pane_stays_sound(
    m: MuxView,
    sid: SessionId,
    window: WindowId,
    pane: PaneId,
)
    requires
        sound(m),
        m.sessions().dom().contains(sid.0),
        m.shows(sid, window, pane),
    ensures
        sound(m.close_pane(sid, window, pane)),
{
    let n = m.close_pane(sid, window, pane);
    let before = m.sessions()[sid.0];
    let gone = seq![pane.0].to_set();
    assert(seq![pane.0][0] == pane.0);
    let s = if before.windows[window.0].layout == LayoutNode::Leaf(pane) {
        inproc_laws::lemma_closed_last_pane_stays_tidy(before, window, pane);
        TearSessionView {
            panes: before.panes.remove(pane.0),
            windows: before.windows.remove(window.0),
            active_window: inproc_model::front_without(before, window),
            ..before
        }
    } else {
        inproc_laws::lemma_closed_pane_stays_tidy(before, window, pane);
        inproc_model::without_pane(before, window, pane)
    };
    assert(n.sessions() =~= m.sessions().insert(sid.0, s));
    lemma_session_replaced(m, n, sid.0, gone);
    lemma_panes_end(m, n, gone);
}

proof fn lemma_session_ends(m: MuxView, n: MuxView, id: SessionId)
    requires
        sound(m),
        m.sessions().dom().contains(id.0),
        n.sessions() == m.sessions().remove(id.0),
        n.grids == m.grids.remove_keys(
            table::ordered(m.sessions()[id.0].panes.dom()).to_set(),
        ),
        n.live == m.live.difference(table::ordered(m.sessions()[id.0].panes.dom()).to_set()),
        n.readers == m.readers.remove_keys(
            table::ordered(m.sessions()[id.0].panes.dom()).to_set(),
        ),
    ensures
        sound(n),
{
    let d = m.sessions()[id.0].panes.dom();
    let gone = table::ordered(d).to_set();
    inproc_laws::lemma_ordered_lists(d);
    assert(keeps_records(m, n, gone)) by {
        assert forall|p: u64| recorded(m, p) && !gone.contains(p) implies #[trigger] recorded(
            n,
            p,
        ) by {
            let j = choose|j: u64| #[trigger]
                m.sessions().dom().contains(j) && m.sessions()[j].panes.dom().contains(p);
            if j == id.0 {
                assert(table::ordered(d).contains(p));
            }
            assert(n.sessions().dom().contains(j));
        }
    }
    lemma_panes_end(m, n, gone);
    assert forall|k: u64| #[trigger] n.sessions().dom().contains(k) implies n.sessions()[k].id.0
        == k && inproc_laws::tidy(n.sessions()[k]) && n.sessions()[k].panes.dom().finite() by {
        assert(m.sessions().dom().contains(k));
    }
}

/// Killing a session keeps the multiplexer sound.
pub proof fn lemma_kill_session_stays_sound(m: MuxView, id: SessionId)
    requires
        sound(m),
        m.sessions().dom().contains(id.0),
    ensures
        sound(m.kill_session(id)),
{
    lemma_session_ends(m, m.kill_session(id), id);
}

/// A session whose program did not start leaves the multiplexer sound: no screen
/// stays without a pane.
pub proof fn lemma_failed_session_stays_sound(m: MuxView, id: SessionId)
    requires
        sound(m),
    ensures
        sound(m.session_failed(id)),
{
    if m.sessions().dom().contains(id.0) {
        lemma_kill_session_stays_sound(m, id);
    }
}

/// A terminal that has started keeps the multiplexer sound.
pub proof fn lemma_spawned_stays_sound(m: MuxView, pane: PaneId)
    requires
        sound(m),
    ensures
        sound(m.spawned(pane)),
{
    let n = m.spawned(pane);
    lemma_owner_has_the_record(m, pane);
    assert forall|p: u64| recorded(m, p) implies #[trigger] recorded(n, p) by {
        let j = choose|j: u64| #[trigger]
            m.sessions().dom().contains(j) && m.sessions()[j].panes.dom().contains(p);
        assert(n.sessions().dom().contains(j));
    }
    assert forall|p: u64| #[trigger] n.live.contains(p) implies recorded(n, p) by {
        if p != pane.0 {
            assert(m.live.contains(p));
        }
    }
    assert forall|p: u64| #[trigger] n.grids.dom().contains(p) implies recorded(n, p) by {
        assert(m.grids.dom().contains(p));
    }
    assert forall|p: u64| #[trigger] n.readers.dom().contains(p) implies recorded(n, p) by {
        assert(m.readers.dom().contains(p));
    }
}

/// Bytes of a program keep the multiplexer sound.
pub proof fn lemma_bytes_stay_sound(
    m: MuxView,
    pane: PaneId,
    bytes: Seq<u8>,
    now: u64,
    ts_ms: u64,
)
    requires
        sound(m),
    ensures
        sound(m.bytes(pane, bytes, now, ts_ms)),
{
    let n = m.bytes(pane, bytes, now, ts_ms);
    assert(n.grids.dom() =~= m.grids.dom());
    assert forall|p: u64| recorded(m, p) implies #[trigger] recorded(n, p) by {
        let j = choose|j: u64| #[trigger]
            m.sessions().dom().contains(j) && m.sessions()[j].panes.dom().contains(p);
        assert(n.sessions().dom().contains(j));
    }
    assert forall|p: u64| #[trigger] n.grids.dom().contains(p) implies recorded(n, p) by {
        assert(m.grids.dom().contains(p));
    }
    assert forall|p: u64| #[trigger] n.live.contains(p) implies recorded(n, p) by {
        assert(m.live.contains(p));
    }
    assert forall|p: u64| #[trigger] n.readers.dom().contains(p) implies recorded(n, p) by {
        assert(m.readers.dom().contains(p));
    }
}

proof fn lemma_marked_stays_sound(m: MuxView, pane: PaneId, code: i32)
    requires
        sound(m),
    ensures
        sound(m.marked(pane, code).closed(pane, code, m.registry.owner(pane) is Some)),
{
    let known = m.registry.owner(pane) is Some;
    let n = m.marked(pane, code).closed(pane, code, known);
    lemma_owner_has_the_record(m, pane);
    match m.registry.owner(pane) {
        Some(k) => {
            let before = m.sessions()[k];
            let s = n.sessions()[k];
            assert(s.panes.dom() =~= before.panes.dom());
            assert(n.sessions() =~= m.sessions().insert(k, s));
            assert(s.windows == before.windows);
            assert forall|w: u64| #[trigger] s.windows.dom().contains(
                w,
            ) implies inproc_laws::tidy_window(s, w) by {
                assert(inproc_laws::tidy_window(before, w));
            }
            assert(inproc_laws::tidy(s));
            lemma_session_replaced(m, n, k, Set::empty());
            assert(recorded(n, pane.0)) by {
                assert(recorded(m, pane.0));
            }
        },
        None => {
            assert(keeps_records(m, n, Set::empty())) by {
                assert forall|p: u64| recorded(m, p) implies #[trigger] recorded(n, p) by {
                    let j = choose|j: u64| #[trigger]
                        m.sessions().dom().contains(j) && m.sessions()[j].panes.dom().contains(p);
                    assert(n.sessions().dom().contains(j));
                }
            }
        },
    }
    assert forall|p: u64| #[trigger] n.grids.dom().contains(p) implies recorded(n, p) by {
        assert(m.grids.dom().contains(p));
    }
    assert forall|p: u64| #[trigger] n.live.contains(p) implies recorded(n, p) by {
        assert(m.live.contains(p));
    }
    assert forall|p: u64| #[trigger] n.readers.dom().contains(p) implies recorded(n, p) by {
        if p != pane.0 {
            assert(m.readers.dom().contains(p));
        }
    }
}

/// The end of a program keeps the multiplexer sound.
pub proof fn lemma_exit_stays_sound(m: MuxView, pane: PaneId, code: i32)
    requires
        sound(m),
    ensures
        sound(m.exit(pane, code)),
{
    let known = m.registry.owner(pane) is Some;
    let after = m.marked(pane, code).closed(pane, code, known);
    lemma_marked_stays_sound(m, pane, code);
    if let Some(id) = m.doomed(pane, code) {
        if after.sessions().dom().contains(id.0) && after.sessions()[id.0].dead() {
            lemma_session_ends(after, m.exit(pane, code), id);
        }
    }
}

/// A new reader of a running terminal keeps the multiplexer sound.
pub proof fn lemma_reader_stays_sound(m: MuxView, pane: PaneId, readers: ReadersView, token: u64)
    requires
        sound(m),
        m.live.contains(pane.0),
    ensures
        sound(MuxView { token, readers: m.readers.insert(pane.0, readers), ..m }),
{
    let n = MuxView { token, readers: m.readers.insert(pane.0, readers), ..m };
    assert forall|p: u64| recorded(m, p) implies #[trigger] recorded(n, p) by {
        let j = choose|j: u64| #[trigger]
            m.sessions().dom().contains(j) && m.sessions()[j].panes.dom().contains(p);
        assert(n.sessions().dom().contains(j));
    }
    assert forall|p: u64| #[trigger] n.grids.dom().contains(p) implies recorded(n, p) by {
        assert(m.grids.dom().contains(p));
    }
    assert forall|p: u64| #[trigger] n.live.contains(p) implies recorded(n, p) by {
        assert(m.live.contains(p));
    }
    assert forall|p: u64| #[trigger] n.readers.dom().contains(p) implies recorded(n, p) by {
        if p != pane.0 {
            assert(m.readers.dom().contains(p));
        }
    }
}

/// The same windows show the same panes, and what is focused or in front is
/// there.
pub open spec fn same_places(a: TearSessionView, b: TearSessionView) -> bool {
    &&& b.id == a.id
    &&& b.panes.dom() == a.panes.dom()
    &&& forall|p: u64| #[trigger] b.panes.dom().contains(p) ==> b.panes[p].id == a.panes[p].id
    &&& b.windows.dom() == a.windows.dom()
    &&& forall|w: u64| #[trigger]
        b.windows.dom().contains(w) ==> b.windows[w].id == a.windows[w].id
            && b.windows[w].layout.leaves() == a.windows[w].layout.leaves()
            && b.windows[w].layout.leaves().contains(b.windows[w].active_pane.0)
    &&& b.active_window == a.active_window || b.windows.dom().contains(b.active_window.0)
}

/// A change that leaves every pane where it is keeps the multiplexer sound.
pub proof fn lemma_edit_stays_sound(m: MuxView, k: u64, s: TearSessionView)
    requires
        sound(m),
        m.sessions().dom().contains(k),
        same_places(m.sessions()[k], s),
    ensures
        sound(m.with_session(k, s)),
{
    let a = m.sessions()[k];
    let n = m.with_session(k, s);
    assert forall|w: u64| #[trigger] s.windows.dom().contains(w) implies inproc_laws::tidy_window(
        s,
        w,
    ) by {
        assert(inproc_laws::tidy_window(a, w));
        assert forall|p: u64| #[trigger] s.windows[w].layout.leaves().contains(
            p,
        ) implies s.panes.dom().contains(p) by {
            assert(a.windows[w].layout.leaves().contains(p));
        }
    }
    assert forall|v: u64, w: u64, p: u64|
        s.windows.dom().contains(v) && s.windows.dom().contains(w) && v != w
            && #[trigger] s.windows[v].layout.leaves().contains(p) implies !(
    #[trigger] s.windows[w].layout.leaves().contains(p)) by {
        assert(a.windows[v].layout.leaves().contains(p));
        assert(!a.windows[w].layout.leaves().contains(p));
    }
    assert(inproc_laws::tidy(s));
    lemma_session_replaced(m, n, k, Set::empty());
    assert forall|p: u64| #[trigger] n.grids.dom().contains(p) implies recorded(n, p) by {
        assert(m.grids.dom().contains(p));
    }
    assert forall|p: u64| #[trigger] n.live.contains(p) implies recorded(n, p) by {
        assert(m.live.contains(p));
    }
    assert forall|p: u64| #[trigger] n.readers.dom().contains(p) implies recorded(n, p) by {
        assert(m.readers.dom().contains(p));
    }
}

/// Focusing a pane that a window shows keeps the multiplexer sound.
pub proof fn lemma_focus_stays_sound(m: MuxView, sid: SessionId, window: WindowId, pane: PaneId)
    requires
        sound(m),
        m.sessions().dom().contains(sid.0),
        m.shows(sid, window, pane),
    ensures
        ({
            let s = m.sessions()[sid.0];
            sound(
                m.with_session(
                    sid.0,
                    TearSessionView {
                        windows: s.windows.insert(
                            window.0,
                            TearWindowView { active_pane: pane, ..s.windows[window.0] },
                        ),
                        ..s
                    },
                ),
            )
        }),
{
    let s = m.sessions()[sid.0];
    let t = TearSessionView {
        windows: s.windows.insert(
            window.0,
            TearWindowView { active_pane: pane, ..s.windows[window.0] },
        ),
        ..s
    };
    assert(t.windows.dom() =~= s.windows.dom());
    assert forall|w: u64| #[trigger] t.windows.dom().contains(w) implies t.windows[w].id
        == s.windows[w].id && t.windows[w].layout.leaves() == s.windows[w].layout.leaves()
        && t.windows[w].layout.leaves().contains(t.windows[w].active_pane.0) by {
        assert(inproc_laws::tidy_window(s, w));
    }
    lemma_edit_stays_sound(m, sid.0, t);
}

/// Bringing a window to the front keeps the multiplexer sound; so does another
/// name.
pub proof fn lemma_front_and_name_stay_sound(
    m: MuxView,
    k: u64,
    window: WindowId,
    name: Seq<char>,
)
    requires
        sound(m),
        m.sessions().dom().contains(k),
    ensures
        m.sessions()[k].windows.dom().contains(window.0) ==> sound(
            m.with_session(k, TearSessionView { active_window: window, ..m.sessions()[k] }),
        ),
        sound(m.with_session(k, TearSessionView { name, ..m.sessions()[k] })),
{
    let s = m.sessions()[k];
    assert forall|w: u64| #[trigger]
        s.windows.dom().contains(w) implies inproc_laws::tidy_window(s, w) by {}
    lemma_edit_stays_sound(m, k, TearSessionView { name, ..s });
    if s.windows.dom().contains(window.0) {
        lemma_edit_stays_sound(m, k, TearSessionView { active_window: window, ..s });
    }
}

proof fn lemma_stamp_keeps_the_records(panes: Map<u64, TearPaneView>, rects: Seq<(PaneId, Rect)>)
    ensures
        inproc_model::stamped(panes, rects).dom() == panes.dom(),
        forall|p: u64| #[trigger]
            panes.dom().contains(p) ==> inproc_model::stamped(panes, rects)[p].id == panes[p].id,
    decreases rects.len(),
{
    if rects.len() > 0 {
        lemma_stamp_keeps_the_records(panes, rects.drop_last());
        assert(inproc_model::stamped(panes, rects).dom() =~= panes.dom());
    }
}

/// Arranging a window by a tree of the panes it shows keeps the multiplexer
/// sound; so does writing rectangles onto the records of panes.
pub proof fn lemma_arrangement_stays_sound(
    m: MuxView,
    k: u64,
    window: WindowId,
    tree: LayoutNode,
    rects: Seq<(PaneId, Rect)>,
)
    requires
        sound(m),
        m.sessions().dom().contains(k),
        m.sessions()[k].windows.dom().contains(window.0),
        tree.leaves() == m.sessions()[k].windows[window.0].layout.leaves(),
    ensures
        sound(m.set_layout(k, window, tree)),
        sound(
            m.with_session(
                k,
                TearSessionView {
                    panes: inproc_model::stamped(m.sessions()[k].panes, rects),
                    ..m.sessions()[k]
                },
            ),
        ),
{
    let s = m.sessions()[k];
    assert forall|w: u64| #[trigger]
        s.windows.dom().contains(w) implies inproc_laws::tidy_window(s, w) by {}
    lemma_stamp_keeps_the_records(s.panes, rects);
    lemma_edit_stays_sound(
        m,
        k,
        TearSessionView { panes: inproc_model::stamped(s.panes, rects), ..s },
    );
    let t = TearSessionView {
        windows: s.windows.insert(
            window.0,
            TearWindowView { layout: tree, ..s.windows[window.0] },
        ),
        ..s
    };
    assert(t.windows.dom() =~= s.windows.dom());
    lemma_edit_stays_sound(m, k, t);
}

} // verus!
