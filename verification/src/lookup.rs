//! Which session a pane or a window belongs to.
use crate::id::{PaneId, WindowId};
use crate::registry::{Registry, RegistryView};
use crate::session::TearSessionView;
use crate::table;
use vstd::prelude::*;

verus! {

/// The first of these sessions that has a record of a pane.
pub open spec fn holder(
    sessions: Map<u64, TearSessionView>,
    keys: Seq<u64>,
    pane: PaneId,
) -> Option<u64>
    decreases keys.len(),
{
    if keys.len() == 0 {
        None
    } else if sessions[keys[0]].panes.dom().contains(pane.0) {
        Some(keys[0])
    } else {
        holder(sessions, keys.drop_first(), pane)
    }
}

/// The first of these sessions that has a window.
pub open spec fn window_holder(
    sessions: Map<u64, TearSessionView>,
    keys: Seq<u64>,
    window: WindowId,
) -> Option<u64>
    decreases keys.len(),
{
    if keys.len() == 0 {
        None
    } else if sessions[keys[0]].windows.dom().contains(window.0) {
        Some(keys[0])
    } else {
        window_holder(sessions, keys.drop_first(), window)
    }
}

impl RegistryView {
    /// The session that has a record of a pane.
    pub open spec fn owner(self, pane: PaneId) -> Option<u64> {
        holder(self.sessions, table::ordered(self.sessions.dom()), pane)
    }

    /// The session that has a window.
    pub open spec fn window_owner(self, window: WindowId) -> Option<u64> {
        window_holder(self.sessions, table::ordered(self.sessions.dom()), window)
    }
}

/// The same map, with a value taken out and put back changed.
pub proof fn lemma_put_back<V>(m: Map<u64, V>, k: u64, v: V)
    ensures
        m.remove(k).insert(k, v) == m.insert(k, v),
{
    assert(m.remove(k).insert(k, v) =~= m.insert(k, v));
}

impl Registry {
    /// The number of the session that has a record of a pane.
    pub fn owner_of_pane(&self, pane: PaneId) -> (r: Option<u64>)
        ensures
            r == self@.owner(pane),
            match r {
                Some(k) => self@.sessions.dom().contains(k) && self@.sessions[k].panes.dom().contains(
                    pane.0,
                ),
                None => forall|k: u64|
                    self@.sessions.dom().contains(k) ==> !(
                    #[trigger] self@.sessions[k]).panes.dom().contains(pane.0),
            },
    {
        let keys = self.sessions.keys();
        let mut i: usize = 0;
        let ghost m = self@.sessions;
        assert(keys@.skip(0) =~= keys@);
        while i < keys.len()
            invariant
                i <= keys@.len(),
                m == self@.sessions,
                keys@ == table::ordered(m.dom()),
                table::lists(keys@, m.dom()),
                self@.owner(pane) == holder(m, keys@.skip(i as int), pane),
                forall|j: int| 0 <= j < i ==> !m[#[trigger] keys@[j]].panes.dom().contains(pane.0),
            decreases keys@.len() - i,
        {
            assert(keys@.contains(keys@[i as int]));
            assert(keys@.skip(i as int)[0] == keys@[i as int]);
            assert(keys@.skip(i as int).drop_first() =~= keys@.skip(i as int + 1));
            match self.sessions.get(keys[i]) {
                Some(s) => {
                    if s.panes.contains_key(pane.0) {
                        return Some(keys[i]);
                    }
                },
                None => {},
            }
            i = i + 1;
        }
        proof {
            assert forall|k: u64| self@.sessions.dom().contains(k) implies !(
            #[trigger] self@.sessions[k]).panes.dom().contains(pane.0) by {
                assert(keys@.contains(k));
                let j = choose|j: int| 0 <= j < keys@.len() && keys@[j] == k;
                assert(!m[keys@[j]].panes.dom().contains(pane.0));
            }
        }
        None
    }

    /// The number of the session that has a window.
    pub fn owner_of_window(&self, window: WindowId) -> (r: Option<u64>)
        ensures
            r == self@.window_owner(window),
            match r {
                Some(k) => self@.sessions.dom().contains(k)
                    && self@.sessions[k].windows.dom().contains(window.0),
                None => forall|k: u64|
                    self@.sessions.dom().contains(k) ==> !(
                    #[trigger] self@.sessions[k]).windows.dom().contains(window.0),
            },
    {
        let keys = self.sessions.keys();
        let mut i: usize = 0;
        let ghost m = self@.sessions;
        assert(keys@.skip(0) =~= keys@);
        while i < keys.len()
            invariant
                i <= keys@.len(),
                m == self@.sessions,
                keys@ == table::ordered(m.dom()),
                table::lists(keys@, m.dom()),
                self@.window_owner(window) == window_holder(m, keys@.skip(i as int), window),
                forall|j: int|
                    0 <= j < i ==> !m[#[trigger] keys@[j]].windows.dom().contains(window.0),
            decreases keys@.len() - i,
        {
            assert(keys@.contains(keys@[i as int]));
            assert(keys@.skip(i as int)[0] == keys@[i as int]);
            assert(keys@.skip(i as int).drop_first() =~= keys@.skip(i as int + 1));
            match self.sessions.get(keys[i]) {
                Some(s) => {
                    if s.windows.contains_key(window.0) {
                        return Some(keys[i]);
                    }
                },
                None => {},
            }
            i = i + 1;
        }
        proof {
            assert forall|k: u64| self@.sessions.dom().contains(k) implies !(
            #[trigger] self@.sessions[k]).windows.dom().contains(window.0) by {
                assert(keys@.contains(k));
                let j = choose|j: int| 0 <= j < keys@.len() && keys@[j] == k;
                assert(!m[keys@[j]].windows.dom().contains(window.0));
            }
        }
        None
    }
}

} // verus!
