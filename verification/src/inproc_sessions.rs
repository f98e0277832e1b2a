//! The multiplexer's sessions and windows.
use crate::control::{ControlError, ControlErrorView, ControlResult};
use crate::genesis;
use crate::id::{PaneId, SessionId, WindowId};
use crate::inproc::{InProcess, SpawnPlan};
use crate::inproc_model;
use crate::inproc_model::MuxView;
use crate::layout;
use crate::lookup;
use crate::inproc::GridSlot;
use crate::pane;
use crate::pane::{clone_texts, TearPane};
use crate::registry;
use crate::registry::{Spawn, SpawnView};
use crate::session::{SessionSource, SourceView, TearSession, TearSessionView, TearWindow};
use crate::spawn_env::build_env;
use crate::table;
use crate::yurai::{clone_opt, Yurai, YuraiView};
use vstd::prelude::*;
use vstd::string::StringExecFns;

verus! {

proof fn lemma_remove_keys_step<V>(m: Map<u64, V>, done: Seq<u64>, k: u64)
    ensures
        m.remove_keys(done.to_set()).remove(k) == m.remove_keys(done.push(k).to_set()),
{
    lemma_push_set(done, k);
    assert(m.remove_keys(done.to_set()).remove(k) =~= m.remove_keys(done.push(k).to_set()));
}

proof fn lemma_push_set(s: Seq<u64>, k: u64)
    ensures
        s.push(k).to_set() == s.to_set().insert(k),
{
    let t = s.push(k);
    assert forall|x: u64| t.to_set().contains(x) <==> s.to_set().insert(k).contains(x) by {
        if t.contains(x) {
            let i = choose|i: int| 0 <= i < t.len() && t[i] == x;
            if i < s.len() {
                assert(s[i] == x);
            }
        }
        if s.contains(x) {
            let i = choose|i: int| 0 <= i < s.len() && s[i] == x;
            assert(t[i] == x);
        }
        assert(t[s.len() as int] == k);
    }
    assert(t.to_set() =~= s.to_set().insert(k));
}

proof fn lemma_nothing_removed<V>(m: Map<u64, V>)
    ensures
        m.remove_keys(Seq::<u64>::empty().to_set()) == m,
{
    assert(m.remove_keys(Seq::<u64>::empty().to_set()) =~= m);
}

/// The numbers of a list of panes.
fn pane_list(panes: &Vec<PaneId>) -> (r: Vec<u64>)
    ensures
        r@ == layout::pane_numbers(panes@),
{
    let mut r: Vec<u64> = Vec::new();
    let mut i: usize = 0;
    while i < panes.len()
        invariant
            i <= panes@.len(),
            r@.len() == i,
            forall|j: int| 0 <= j < i ==> #[trigger] r@[j] == panes@[j].0,
        decreases panes@.len() - i,
    {
        r.push(panes[i].0);
        i = i + 1;
    }
    assert(r@ =~= layout::pane_numbers(panes@));
    r
}

impl InProcess {
    /// Lets panes go: their screens and readers are forgotten, and those that
    /// have a terminal are returned, for it to be closed.
    pub(crate) fn detach_panes(&mut self, panes: &Vec<u64>) -> (r: Vec<PaneId>)
        ensures
            final(self)@ == old(self)@.detach(panes@),
            layout::pane_numbers(r@) == inproc_model::let_go(panes@, old(self)@.live),
    {
        let ghost start = self@;
        let ghost all = panes@;
        let mut r: Vec<PaneId> = Vec::new();
        let mut i: usize = 0;
        proof {
            let none = Seq::<u64>::empty();
            assert(all.take(0) =~= none);
            assert(all.skip(0) =~= all);
            lemma_nothing_removed(start.grids);
            lemma_nothing_removed(start.readers);
            assert(start.live.difference(none.to_set()) =~= start.live);
            assert(layout::pane_numbers(r@) =~= none);
            assert(inproc_model::let_go(all, start.live) =~= none + inproc_model::let_go(
                all,
                start.live,
            ));
            assert(self@ =~= start.detach(all.take(0)));
        }
        while i < panes.len()
            invariant
                i <= panes@.len(),
                all == panes@,
                self@ == start.detach(all.take(i as int)),
                inproc_model::let_go(all, start.live) == layout::pane_numbers(r@)
                    + inproc_model::let_go(all.skip(i as int), self@.live),
            decreases panes@.len() - i,
        {
            let k = panes[i];
            let ghost held = self@;
            let ghost before = r@;
            proof {
                assert(all.skip(i as int)[0] == k);
                assert(all.skip(i as int).drop_first() =~= all.skip(i as int + 1));
                assert(all.take(i as int + 1) =~= all.take(i as int).push(k));
                lemma_remove_keys_step(start.grids, all.take(i as int), k);
                lemma_remove_keys_step(start.readers, all.take(i as int), k);
                lemma_push_set(all.take(i as int), k);
                assert(start.live.difference(all.take(i as int).to_set()).remove(k)
                    =~= start.live.difference(all.take(i as int + 1).to_set()));
            }
            match self.live.remove(k) {
                Some(_) => {
                    r.push(PaneId(k));
                    assert(layout::pane_numbers(r@) =~= layout::pane_numbers(before).push(k));
                },
                None => {
                    assert(held.live.remove(k) =~= held.live);
                },
            }
            let _ = self.grids.remove(k);
            let _ = self.readers.remove(k);
            proof {
                assert(self@ =~= start.detach(all.take(i as int + 1)));
                let rest = inproc_model::let_go(all.skip(i as int + 1), self@.live);
                if held.live.contains(k) {
                    assert(layout::pane_numbers(before) + (seq![k] + rest)
                        =~= layout::pane_numbers(r@) + rest);
                }
            }
            i = i + 1;
        }
        proof {
            assert(all.take(i as int) =~= all);
            assert(all.skip(i as int) =~= Seq::empty());
            assert(layout::pane_numbers(r@) + Seq::<u64>::empty() =~= layout::pane_numbers(r@));
        }
        r
    }

    /// Lets panes go with what was recorded of them.
    pub(crate) fn drop_panes(&mut self, panes: &Vec<u64>) -> (r: Vec<PaneId>)
        ensures
            final(self)@ == old(self)@.drop_panes(panes@),
            layout::pane_numbers(r@) == inproc_model::let_go(panes@, old(self)@.live),
    {
        let ghost start = self@;
        let ghost all = panes@;
        let r = self.detach_panes(panes);
        let ghost mid = self@;
        let mut i: usize = 0;
        proof {
            assert(all.take(0) =~= Seq::<u64>::empty());
            lemma_nothing_removed(start.recordings);
        }
        while i < panes.len()
            invariant
                i <= panes@.len(),
                all == panes@,
                mid == start.detach(all),
                self@ == (MuxView {
                    recordings: start.recordings.remove_keys(all.take(i as int).to_set()),
                    ..mid
                }),
            decreases panes@.len() - i,
        {
            proof {
                assert(all.take(i as int + 1) =~= all.take(i as int).push(all[i as int]));
                lemma_remove_keys_step(start.recordings, all.take(i as int), all[i as int]);
            }
            let _ = self.recordings.remove(panes[i]);
            i = i + 1;
        }
        assert(all.take(i as int) =~= all);
        r
    }

    /// Prepares the start of the program of a pane.
    pub(crate) fn begin_spawn(
        &mut self,
        pane: PaneId,
        shell: &str,
        args: &Vec<String>,
        size: (u16, u16),
        inherited: Vec<(String, String)>,
    ) -> (plan: SpawnPlan)
        ensures
            final(self)@ == old(self)@.begin_spawn(pane, size),
            plan@ == old(self)@.plan(
                pane,
                shell@,
                genesis::texts(args@),
                size,
                pane::pairs(inherited@),
            ),
    {
        let mut session_id = String::new();
        let mut session_name = String::new();
        let mut slot = GridSlot::new(size);
        proof {
            assert(session_id@ =~= Seq::<char>::empty());
            assert(session_name@ =~= Seq::<char>::empty());
        }
        match self.registry.owner_of_pane(pane) {
            Some(k) => match self.registry.sessions.get(k) {
                Some(s) => {
                    session_id = s.id.to_string();
                    session_name = s.name.clone();
                    match s.panes.get(pane.0) {
                        Some(p) => {
                            slot = slot.stamped(p.yurai.clone());
                        },
                        None => {},
                    }
                },
                None => {},
            },
            None => {},
        }
        let env = build_env(
            inherited,
            session_id.as_str(),
            session_name.as_str(),
            pane,
            &self.socket,
            &self.env,
        );
        self.grids.insert(pane.0, slot);
        SpawnPlan {
            pane,
            shell: String::from_str(shell),
            args: clone_texts(args),
            cwd: clone_opt(&self.env.cwd),
            env,
            size,
        }
    }

    // ── looking up ──

    /// Every session, the oldest first.
    pub fn list_sessions(&self) -> (r: Vec<TearSession>)
        ensures
            exists|keys: Seq<u64>| #[trigger]
                registry::oldest_first(self@.sessions(), keys) && registry::sessions_view(r@)
                    == registry::listing(self@.sessions(), keys),
    {
        assert(self@.sessions() == self.registry@.sessions);
        self.registry.sessions_in_order()
    }

    pub fn get_session(&self, id: SessionId) -> (r: ControlResult<TearSession>)
        ensures
            match r {
                Ok(s) => self@.sessions().dom().contains(id.0) && s@ == self@.sessions()[id.0],
                Err(e) => !self@.sessions().dom().contains(id.0) && e@
                    == ControlErrorView::NoSuchSession(id),
            },
    {
        match self.registry.sessions.get(id.0) {
            Some(s) => Ok(s.clone()),
            None => Err(ControlError::NoSuchSession(id)),
        }
    }

    /// A window, with the session it belongs to.
    pub fn get_window(&self, id: WindowId) -> (r: ControlResult<(SessionId, TearWindow)>)
        ensures
            match r {
                Ok((sid, w)) => match self@.registry.window_owner(id) {
                    Some(k) => sid == self@.sessions()[k].id && w@
                        == self@.sessions()[k].windows[id.0],
                    None => false,
                },
                Err(e) => self@.registry.window_owner(id) is None && e@
                    == ControlErrorView::NoSuchWindow(id),
            },
    {
        match self.registry.owner_of_window(id) {
            Some(k) => match self.registry.sessions.get(k) {
                Some(s) => match s.windows.get(id.0) {
                    Some(w) => Ok((s.id, w.clone())),
                    None => Err(ControlError::NoSuchWindow(id)),
                },
                None => Err(ControlError::NoSuchWindow(id)),
            },
            None => Err(ControlError::NoSuchWindow(id)),
        }
    }

    pub fn get_pane(&self, id: PaneId) -> (r: ControlResult<TearPane>)
        ensures
            match r {
                Ok(p) => match self@.registry.owner(id) {
                    Some(k) => p@ == self@.sessions()[k].panes[id.0],
                    None => false,
                },
                Err(e) => self@.registry.owner(id) is None && e@ == ControlErrorView::NoSuchPane(
                    id,
                ),
            },
    {
        match self.registry.owner_of_pane(id) {
            Some(k) => match self.registry.sessions.get(k) {
                Some(s) => match s.panes.get(id.0) {
                    Some(p) => Ok(p.clone()),
                    None => Err(ControlError::NoSuchPane(id)),
                },
                None => Err(ControlError::NoSuchPane(id)),
            },
            None => Err(ControlError::NoSuchPane(id)),
        }
    }

    // ── sessions ──

    /// A session of eighty columns and twenty-four rows that an operator starts.
    pub fn new_session(
        &mut self,
        name: &str,
        shell: &str,
        inherited: Vec<(String, String)>,
        now: u64,
    ) -> (r: (SessionId, SpawnPlan))
        ensures
            session_started(
                old(self)@,
                final(self)@,
                name@,
                SpawnView {
                    shell: shell@,
                    args: Seq::empty(),
                    cwd: old(self)@.env.cwd,
                    env: Seq::empty(),
                    yurai: YuraiView::Unknown,
                    size: (80, 24),
                },
                SourceView::Human,
                pane::pairs(inherited@),
                now,
                r,
            ),
    {
        let args: Vec<String> = Vec::new();
        assert(genesis::texts(args@) =~= Seq::empty());
        self.new_session_yurai(
            name,
            shell,
            &args,
            SessionSource::Human,
            (80, 24),
            Yurai::Unknown,
            inherited,
            now,
        )
    }

    /// A session with one window, whose pane is about to start.
    pub fn new_session_with_source_and_size(
        &mut self,
        name: &str,
        shell: &str,
        args: &Vec<String>,
        source: SessionSource,
        size_cells: (u16, u16),
        inherited: Vec<(String, String)>,
        now: u64,
    ) -> (r: (SessionId, SpawnPlan))
        ensures
            session_started(
                old(self)@,
                final(self)@,
                name@,
                SpawnView {
                    shell: shell@,
                    args: genesis::texts(args@),
                    cwd: old(self)@.env.cwd,
                    env: Seq::empty(),
                    yurai: YuraiView::Unknown,
                    size: inproc_model::at_least_one(size_cells),
                },
                source@,
                pane::pairs(inherited@),
                now,
                r,
            ),
    {
        self.new_session_yurai(
            name,
            shell,
            args,
            source,
            size_cells,
            Yurai::Unknown,
            inherited,
            now,
        )
    }

    /// A session with one window, whose pane is about to start and has a
    /// provenance.
    pub fn new_session_yurai(
        &mut self,
        name: &str,
        shell: &str,
        args: &Vec<String>,
        source: SessionSource,
        size_cells: (u16, u16),
        yurai: Yurai,
        inherited: Vec<(String, String)>,
        now: u64,
    ) -> (r: (SessionId, SpawnPlan))
        ensures
            session_started(
                old(self)@,
                final(self)@,
                name@,
                SpawnView {
                    shell: shell@,
                    args: genesis::texts(args@),
                    cwd: old(self)@.env.cwd,
                    env: Seq::empty(),
                    yurai: yurai@,
                    size: inproc_model::at_least_one(size_cells),
                },
                source@,
                pane::pairs(inherited@),
                now,
                r,
            ),
    {
        let size: (u16, u16) = (
            if size_cells.0 == 0 {
                1
            } else {
                size_cells.0
            },
            if size_cells.1 == 0 {
                1
            } else {
                size_cells.1
            },
        );
        let ghost start = self@;
        let env: Vec<(String, String)> = Vec::new();
        assert(pane::pairs(env@) =~= Seq::empty());
        let spawn = Spawn {
            shell: String::from_str(shell),
            args: clone_texts(args),
            cwd: clone_opt(&self.env.cwd),
            env,
            yurai,
            size,
        };
        let sid = self.registry.create_session_at(name, now);
        let ghost created = self@.sessions();
        match self.registry.sessions.remove(sid.0) {
            Some(s) => {
                let mut s = s;
                s.source = source;
                self.registry.sessions.insert(sid.0, s);
            },
            None => {},
        }
        proof {
            let fresh = start.registry.fresh_session(name@, now);
            lookup::lemma_put_back(
                created,
                sid.0,
                TearSessionView { source: source@, ..fresh },
            );
            assert(self@.sessions() =~= start.opened(name@, source@, now).sessions);
        }
        let pane = match self.registry.add_window_at(sid, "main", &spawn, now) {
            Some((_, pane)) => pane,
            None => PaneId(0),
        };
        let plan = self.begin_spawn(pane, shell, args, size, inherited);
        (sid, plan)
    }

    /// The program of a new session did not start: the session is gone, and so
    /// are the screens of its panes. The panes whose terminals are to be closed
    /// are returned.
    pub fn new_session_failed(&mut self, id: SessionId) -> (r: Vec<PaneId>)
        ensures
            final(self)@ == old(self)@.session_failed(id),
            layout::pane_numbers(r@) == old(self)@.closed_with(id),
    {
        match self.kill_session(id) {
            Ok(gone) => gone,
            Err(_) => {
                let none: Vec<PaneId> = Vec::new();
                assert(layout::pane_numbers(none@) =~= Seq::<u64>::empty());
                none
            },
        }
    }

    pub fn rename_session(&mut self, id: SessionId, new_name: &str) -> (r: ControlResult<()>)
        ensures
            match r {
                Ok(()) => old(self)@.sessions().dom().contains(id.0) && final(self)@ == old(self)@.with_session(
                    id.0,
                    TearSessionView { name: new_name@, ..old(self)@.sessions()[id.0] },
                ),
                Err(e) => !old(self)@.sessions().dom().contains(id.0) && e@
                    == ControlErrorView::NoSuchSession(id) && final(self)@ == old(self)@,
            },
    {
        let ghost before = self@.sessions();
        match self.registry.sessions.remove(id.0) {
            Some(s) => {
                let mut s = s;
                s.name = String::from_str(new_name);
                self.registry.sessions.insert(id.0, s);
                proof {
                    lookup::lemma_put_back(before, id.0, s@);
                }
                Ok(())
            },
            None => Err(ControlError::NoSuchSession(id)),
        }
    }

    /// Ends a session; the panes whose terminals are to be closed are returned.
    pub fn kill_session(&mut self, id: SessionId) -> (r: ControlResult<Vec<PaneId>>)
        ensures
            match r {
                Ok(gone) => old(self)@.sessions().dom().contains(id.0) && final(self)@ == old(self)@.kill_session(id) && layout::pane_numbers(gone@) == old(self)@.closed_with(id),
                Err(e) => !old(self)@.sessions().dom().contains(id.0) && e@
                    == ControlErrorView::NoSuchSession(id) && final(self)@ == old(self)@,
            },
    {
        let panes = match self.registry.sessions.get(id.0) {
            Some(s) => s.panes.keys(),
            None => {
                return Err(ControlError::NoSuchSession(id));
            },
        };
        let gone = self.drop_panes(&panes);
        let _ = self.registry.sessions.remove(id.0);
        Ok(gone)
    }

    // ── windows ──

    /// A window of a session, whose pane is about to start.
    pub fn new_window(
        &mut self,
        session: SessionId,
        name: &str,
        shell: &str,
        args: &Vec<String>,
        inherited: Vec<(String, String)>,
        now: u64,
    ) -> (r: ControlResult<(WindowId, SpawnPlan)>)
        ensures
            window_started(
                old(self)@,
                final(self)@,
                session,
                name@,
                SpawnView {
                    shell: shell@,
                    args: genesis::texts(args@),
                    cwd: old(self)@.env.cwd,
                    env: Seq::empty(),
                    yurai: YuraiView::Unknown,
                    size: (80, 24),
                },
                pane::pairs(inherited@),
                now,
                r,
            ),
    {
        let env: Vec<(String, String)> = Vec::new();
        assert(pane::pairs(env@) =~= Seq::empty());
        let spawn = Spawn {
            shell: String::from_str(shell),
            args: clone_texts(args),
            cwd: clone_opt(&self.env.cwd),
            env,
            yurai: Yurai::Unknown,
            size: (80, 24),
        };
        match self.registry.add_window_at(session, name, &spawn, now) {
            Some((window, pane)) => {
                let plan = self.begin_spawn(pane, shell, args, (80, 24), inherited);
                Ok((window, plan))
            },
            None => Err(ControlError::NoSuchSession(session)),
        }
    }

    /// Closes a window with the panes it shows; those whose terminals are to be
    /// closed are returned.
    pub fn kill_window(&mut self, id: WindowId) -> (r: ControlResult<Vec<PaneId>>)
        ensures
            match r {
                Ok(gone) => match old(self)@.registry.window_owner(id) {
                    Some(k) => final(self)@ == old(self)@.kill_window(k, id)
                        && layout::pane_numbers(gone@) == inproc_model::let_go(
                        old(self)@.sessions()[k].windows[id.0].layout.leaves(),
                        old(self)@.live,
                    ),
                    None => false,
                },
                Err(e) => old(self)@.registry.window_owner(id) is None && e@
                    == ControlErrorView::NoSuchWindow(id) && final(self)@ == old(self)@,
            },
    {
        let k = match self.registry.owner_of_window(id) {
            Some(k) => k,
            None => {
                return Err(ControlError::NoSuchWindow(id));
            },
        };
        let ghost start = self@;
        let panes = match self.registry.sessions.get(k) {
            Some(s) => match s.windows.get(id.0) {
                Some(w) => pane_list(&w.layout.panes()),
                None => {
                    return Err(ControlError::NoSuchWindow(id));
                },
            },
            None => {
                return Err(ControlError::NoSuchWindow(id));
            },
        };
        let gone = self.drop_panes(&panes);
        match self.registry.sessions.remove(k) {
            Some(s) => {
                let s = close_window(s, id, &panes);
                self.registry.sessions.insert(k, s);
                proof {
                    lookup::lemma_put_back(start.sessions(), k, s@);
                }
            },
            None => {},
        }
        Ok(gone)
    }

    /// Brings a window to the front of its session.
    pub fn select_window(&mut self, id: WindowId) -> (r: ControlResult<()>)
        ensures
            match r {
                Ok(()) => match old(self)@.registry.window_owner(id) {
                    Some(k) => final(self)@ == old(self)@.with_session(
                        k,
                        TearSessionView { active_window: id, ..old(self)@.sessions()[k] },
                    ),
                    None => false,
                },
                Err(e) => old(self)@.registry.window_owner(id) is None && e@
                    == ControlErrorView::NoSuchWindow(id) && final(self)@ == old(self)@,
            },
    {
        let ghost before = self@.sessions();
        let k = match self.registry.owner_of_window(id) {
            Some(k) => k,
            None => {
                return Err(ControlError::NoSuchWindow(id));
            },
        };
        match self.registry.sessions.remove(k) {
            Some(s) => {
                let mut s = s;
                s.active_window = id;
                self.registry.sessions.insert(k, s);
                proof {
                    lookup::lemma_put_back(before, k, s@);
                }
            },
            None => {},
        }
        Ok(())
    }
}

fn close_window(s: TearSession, window: WindowId, panes: &Vec<u64>) -> (r: TearSession)
    ensures
        r@ == inproc_model::without_window(s@, window, panes@),
{
    let ghost start = s@;
    let ghost all = panes@;
    let mut s = s;
    let _ = s.windows.remove(window.0);
    if s.active_window.0 == window.0 {
        s.active_window =
        match s.windows.first_key() {
            Some(w) => WindowId(w),
            None => WindowId(0),
        };
    }
    let ghost mid = s@;
    let mut i: usize = 0;
    proof {
        assert(all.take(0) =~= Seq::<u64>::empty());
        lemma_nothing_removed(start.panes);
    }
    while i < panes.len()
        invariant
            i <= panes@.len(),
            all == panes@,
            mid.panes == start.panes,
            s@ == (TearSessionView {
                panes: start.panes.remove_keys(all.take(i as int).to_set()),
                ..mid
            }),
        decreases panes@.len() - i,
    {
        proof {
            assert(all.take(i as int + 1) =~= all.take(i as int).push(all[i as int]));
            lemma_remove_keys_step(start.panes, all.take(i as int), all[i as int]);
        }
        let _ = s.panes.remove(panes[i]);
        i = i + 1;
    }
    assert(all.take(i as int) =~= all);
    s
}

/// What starting a session comes to.
pub open spec fn session_started(
    before: MuxView,
    after: MuxView,
    name: Seq<char>,
    spawn: SpawnView,
    source: SourceView,
    inherited: Seq<(Seq<char>, Seq<char>)>,
    now: u64,
    r: (SessionId, SpawnPlan),
) -> bool {
    &&& after == before.new_session(name, spawn, source, now)
    &&& r.0 == before.registry.fresh_session(name, now).id
    &&& r.1@ == after.plan(
        before.new_session_pane(name, spawn.shell, source, now),
        spawn.shell,
        spawn.args,
        spawn.size,
        inherited,
    )
}

/// What starting a window comes to.
pub open spec fn window_started(
    before: MuxView,
    after: MuxView,
    session: SessionId,
    name: Seq<char>,
    spawn: SpawnView,
    inherited: Seq<(Seq<char>, Seq<char>)>,
    now: u64,
    r: ControlResult<(WindowId, SpawnPlan)>,
) -> bool {
    match r {
        Ok((window, plan)) => {
            &&& before.sessions().dom().contains(session.0)
            &&& after == before.new_window(session, name, spawn, now)
            &&& window == before.registry.next_window(session, name, now)
            &&& plan@ == after.plan(
                before.registry.first_pane(session, name, spawn.shell, now),
                spawn.shell,
                spawn.args,
                spawn.size,
                inherited,
            )
        },
        Err(e) => {
            &&& !before.sessions().dom().contains(session.0)
            &&& after == before
            &&& e@ == ControlErrorView::NoSuchSession(session)
        },
    }
}

} // verus!
