//! What happens to the multiplexer: programs start, write and end; the operator
//! brakes.
use crate::clock;
use crate::freio::Freio;
use crate::id::{PaneId, SessionId};
use crate::inproc::{InProcess, PaneSubscribers};
use crate::inproc_model;
use crate::inproc_model::{MuxView, ReadersView};
use crate::layout;
use crate::lookup;
use crate::pane::PaneState;
use crate::reap::AllPanesExited;
use crate::session::{TearSession, TearSessionView};
use crate::table;
use vstd::prelude::*;

verus! {

/// What the end of a program comes to.
#[derive(Debug, PartialEq, Eq)]
pub struct ExitOutcome {
    /// The readers to whom nothing more will come.
    pub closed: Vec<u64>,
    /// The session that went with it.
    pub reaped: Option<SessionId>,
    /// The panes whose terminals are to be closed.
    pub gone: Vec<PaneId>,
}

/// The readers that did not fail.
pub open spec fn still_reading(senders: Seq<u64>, failed: Seq<u64>) -> Seq<u64>
    decreases senders.len(),
{
    if senders.len() == 0 {
        Seq::empty()
    } else if failed.contains(senders.last()) {
        still_reading(senders.drop_last(), failed)
    } else {
        still_reading(senders.drop_last(), failed).push(senders.last())
    }
}

fn is_in(v: &Vec<u64>, x: u64) -> (b: bool)
    ensures
        b == v@.contains(x),
{
    let mut i: usize = 0;
    while i < v.len()
        invariant
            i <= v@.len(),
            forall|j: int| 0 <= j < i ==> v@[j] != x,
        decreases v@.len() - i,
    {
        if v[i] == x {
            return true;
        }
        i = i + 1;
    }
    false
}

impl InProcess {
    /// The program of a pane has started. False if its session is gone
    /// meanwhile: the terminal is to be closed at once.
    pub fn spawned(&mut self, pane: PaneId) -> (kept: bool)
        ensures
            final(self)@ == old(self)@.spawned(pane),
            kept == (old(self)@.registry.owner(pane) is Some),
    {
        match self.registry.owner_of_pane(pane) {
            Some(_) => {
                self.live.insert(pane.0, pane.0);
                assert(self@ =~= old(self)@.spawned(pane));
                true
            },
            None => {
                let _ = self.live.remove(pane.0);
                let _ = self.grids.remove(pane.0);
                let _ = self.readers.remove(pane.0);
                assert(self@ =~= old(self)@.spawned(pane));
                false
            },
        }
    }

    /// Bytes of a pane's program; who is to get them is returned. A recording of
    /// the pane that runs takes them at the time since it began.
    pub fn on_bytes(&mut self, pane: PaneId, bytes: &[u8]) -> (r: Vec<u64>)
        ensures
            exists|t: std::time::SystemTime, at: std::time::Instant|
                final(self)@ == #[trigger] old(self)@.bytes_when(pane, bytes@, t, at),
            r@ == old(self)@.readers_of(pane).senders,
    {
        let ghost start = self@;
        let t = std::time::SystemTime::now();
        let at = std::time::Instant::now();
        let r = self.on_bytes_when(pane, bytes, t, at);
        assert(self@ == start.bytes_when(pane, bytes@, t, at));
        r
    }

    /// Bytes of a pane's program, at a time by the wall clock and a point of the
    /// steady clock.
    pub fn on_bytes_when(
        &mut self,
        pane: PaneId,
        bytes: &[u8],
        t: std::time::SystemTime,
        at: std::time::Instant,
    ) -> (r: Vec<u64>)
        ensures
            final(self)@ == old(self)@.bytes_when(pane, bytes@, t, at),
            r@ == old(self)@.readers_of(pane).senders,
    {
        let ts_ms: u64 = match self.recordings.get(pane.0) {
            Some(rec) => rec.stamp(at),
            None => 0,
        };
        let r = self.on_bytes_at(pane, bytes, clock::millis_at(t), ts_ms);
        assert(self@ =~= old(self)@.bytes_when(pane, bytes@, t, at));
        r
    }

    /// Bytes of a pane's program, at a time by the wall clock and a time of the
    /// recording.
    pub fn on_bytes_at(&mut self, pane: PaneId, bytes: &[u8], now: u64, ts_ms: u64) -> (r: Vec<u64>)
        ensures
            final(self)@ == old(self)@.bytes(pane, bytes@, now, ts_ms),
            r@ == old(self)@.readers_of(pane).senders,
    {
        let ghost start = self@;
        self.feed_pane(pane, bytes, now);
        let ghost fed = self@;
        match self.recordings.remove(pane.0) {
            Some(rec) => {
                let mut rec = rec;
                rec.push_at(bytes, ts_ms);
                self.recordings.insert(pane.0, rec);
                proof {
                    lookup::lemma_put_back(fed.recordings, pane.0, rec@);
                }
            },
            None => {},
        }
        assert(self@ =~= start.bytes(pane, bytes@, now, ts_ms));
        self.senders_of(pane)
    }

    fn feed_pane(&mut self, pane: PaneId, bytes: &[u8], now: u64)
        ensures
            final(self)@ == (MuxView {
                grids: if old(self)@.grids.dom().contains(pane.0) {
                    old(self)@.grids.insert(
                        pane.0,
                        old(self)@.grids[pane.0].feed(bytes@, now),
                    )
                } else {
                    old(self)@.grids
                },
                ..old(self)@
            }),
    {
        let ghost before = self@.grids;
        match self.grids.remove(pane.0) {
            Some(slot) => {
                let slot = slot.fed(bytes, now);
                self.grids.insert(pane.0, slot);
                proof {
                    lookup::lemma_put_back(before, pane.0, slot@);
                }
            },
            None => {},
        }
    }

    fn senders_of(&self, pane: PaneId) -> (r: Vec<u64>)
        ensures
            r@ == self@.readers_of(pane).senders,
    {
        match self.readers.get(pane.0) {
            Some(rs) => crate::seqops::copied(&rs.senders),
            None => {
                let r: Vec<u64> = Vec::new();
                assert(r@ =~= ReadersView::start().senders);
                r
            },
        }
    }

    /// Readers of a pane could not be reached and are forgotten.
    pub fn prune_readers(&mut self, pane: PaneId, failed: &Vec<u64>)
        ensures
            final(self)@ == (MuxView {
                readers: if old(self)@.readers.dom().contains(pane.0) {
                    let rs = old(self)@.readers[pane.0];
                    old(self)@.readers.insert(
                        pane.0,
                        ReadersView { senders: still_reading(rs.senders, failed@), ..rs },
                    )
                } else {
                    old(self)@.readers
                },
                ..old(self)@
            }),
    {
        let ghost before = self@.readers;
        match self.readers.remove(pane.0) {
            Some(rs) => {
                let ghost all = rs.senders@;
                let mut kept: Vec<u64> = Vec::new();
                let mut i: usize = 0;
                assert(all.take(0) =~= Seq::<u64>::empty());
                assert(kept@ =~= still_reading(all.take(0), failed@));
                while i < rs.senders.len()
                    invariant
                        i <= rs.senders@.len(),
                        all == rs.senders@,
                        kept@ == still_reading(all.take(i as int), failed@),
                    decreases rs.senders@.len() - i,
                {
                    assert(all.take(i as int + 1).drop_last() =~= all.take(i as int));
                    if !is_in(failed, rs.senders[i]) {
                        kept.push(rs.senders[i]);
                    }
                    i = i + 1;
                }
                assert(all.take(i as int) =~= all);
                let rs = PaneSubscribers { closed: rs.closed, senders: kept };
                self.readers.insert(pane.0, rs);
                proof {
                    lookup::lemma_put_back(before, pane.0, rs@);
                }
            },
            None => {},
        }
    }

    /// Ends a session that is proven dead. The proof is taken again: a session
    /// that has come back to life meanwhile stays.
    pub fn reap_proven_dead_session(&mut self, proof_of: AllPanesExited) -> (r: (bool, Vec<PaneId>))
        ensures
            final(self)@ == old(self)@.reap(proof_of@),
            r.0 == (old(self)@.sessions().dom().contains(proof_of@.0) && old(self)@.sessions()[proof_of@.0].dead()),
            layout::pane_numbers(r.1@) == if r.0 {
                inproc_model::let_go(
                    table::ordered(old(self)@.sessions()[proof_of@.0].panes.dom()),
                    old(self)@.live,
                )
            } else {
                Seq::empty()
            },
    {
        self.reap(proof_of.session())
    }

    fn reap(&mut self, id: SessionId) -> (r: (bool, Vec<PaneId>))
        ensures
            final(self)@ == old(self)@.reap(id),
            r.0 == (old(self)@.sessions().dom().contains(id.0) && old(self)@.sessions()[id.0].dead()),
            layout::pane_numbers(r.1@) == if r.0 {
                inproc_model::let_go(
                    table::ordered(old(self)@.sessions()[id.0].panes.dom()),
                    old(self)@.live,
                )
            } else {
                Seq::empty()
            },
    {
        let panes = match self.registry.sessions.get(id.0) {
            Some(s) => match AllPanesExited::witness(s) {
                Some(_) => s.panes.keys(),
                None => {
                    let none: Vec<PaneId> = Vec::new();
                    assert(layout::pane_numbers(none@) =~= Seq::empty());
                    return (false, none);
                },
            },
            None => {
                let none: Vec<PaneId> = Vec::new();
                assert(layout::pane_numbers(none@) =~= Seq::empty());
                return (false, none);
            },
        };
        let gone = self.detach_panes(&panes);
        let _ = self.registry.sessions.remove(id.0);
        (true, gone)
    }

    fn mark_exited(&mut self, pane: PaneId, k: u64, code: i32) -> (r: (SessionId, bool))
        requires
            old(self)@.registry.owner(pane) == Some(k),
            old(self)@.sessions().dom().contains(k),
            old(self)@.sessions()[k].panes.dom().contains(pane.0),
        ensures
            final(self)@ == old(self)@.marked(pane, code),
            r.0 == old(self)@.sessions()[k].id,
            r.1 == final(self)@.sessions()[k].all_exited(),
            final(self)@.sessions().dom().contains(k),
    {
        let ghost start = self@;
        match self.registry.sessions.remove(k) {
            Some(s) => {
                let mut s = s;
                let ghost sv = s@;
                match s.panes.remove(pane.0) {
                    Some(p) => {
                        let mut p = p;
                        p.state = PaneState::Exited { code };
                        s.panes.insert(pane.0, p);
                        proof {
                            lookup::lemma_put_back(sv.panes, pane.0, p@);
                        }
                    },
                    None => {},
                }
                let id = s.id;
                let all = s.all_exited();
                self.registry.sessions.insert(k, s);
                proof {
                    lookup::lemma_put_back(start.sessions(), k, s@);
                    assert(self@ =~= start.marked(pane, code));
                }
                (id, all)
            },
            None => (SessionId(0), false),
        }
    }

    fn read_elsewhere(&self, id: SessionId, pane: PaneId) -> (b: bool)
        ensures
            b == self@.read_elsewhere(id, pane),
    {
        let s = match self.registry.sessions.get(id.0) {
            Some(s) => s,
            None => {
                return false;
            },
        };
        let keys = s.panes.keys();
        let mut i: usize = 0;
        while i < keys.len()
            invariant
                i <= keys@.len(),
                table::lists(keys@, s@.panes.dom()),
                self@.sessions().dom().contains(id.0),
                s@ == self@.sessions()[id.0],
                forall|j: int|
                    0 <= j < i ==> #[trigger] keys@[j] == pane.0 || !(
                    self@.readers.dom().contains(keys@[j])
                        && self@.readers[keys@[j]].senders.len() > 0),
            decreases keys@.len() - i,
        {
            let k = keys[i];
            assert(keys@.contains(k));
            if k != pane.0 {
                match self.readers.get(k) {
                    Some(rs) => {
                        if rs.senders.len() > 0 {
                            assert(self@.sessions()[id.0].panes.dom().contains(k));
                            return true;
                        }
                    },
                    None => {},
                }
            }
            i = i + 1;
        }
        proof {
            assert forall|p: u64|
                p != pane.0 && #[trigger] self@.sessions()[id.0].panes.dom().contains(
                    p,
                ) implies !(self@.readers.dom().contains(p) && self@.readers[p].senders.len()
                > 0) by {
                assert(keys@.contains(p));
                let j = choose|j: int| 0 <= j < keys@.len() && keys@[j] == p;
                assert(keys@[j] == p);
            }
        }
        false
    }

    /// The program of a pane has ended, with a code if it is known. The pane
    /// stays, and so does its session, unless no program is left in it and
    /// nobody was reading it.
    pub fn on_exit(&mut self, pane: PaneId, code: Option<i32>) -> (r: ExitOutcome)
        ensures
            ({
                let c = match code {
                    Some(c) => c,
                    None => -1i32,
                };
                let doomed = old(self)@.doomed(pane, c);
                let middle = old(self)@.marked(pane, c).closed(
                    pane,
                    c,
                    old(self)@.registry.owner(pane) is Some,
                );
                &&& final(self)@ == old(self)@.exit(pane, c)
                &&& r.closed@ == old(self)@.readers_of(pane).senders
                &&& r.reaped == match doomed {
                    Some(id) => if middle.sessions().dom().contains(id.0)
                        && middle.sessions()[id.0].dead() {
                        Some(id)
                    } else {
                        None
                    },
                    None => None,
                }
                &&& layout::pane_numbers(r.gone@) == match r.reaped {
                    Some(id) => inproc_model::let_go(
                        table::ordered(middle.sessions()[id.0].panes.dom()),
                        middle.live,
                    ),
                    None => Seq::empty(),
                }
            }),
    {
        let c: i32 = match code {
            Some(c) => c,
            None => -1,
        };
        let ghost start = self@;
        let closed = self.senders_of(pane);
        let none: Vec<PaneId> = Vec::new();
        assert(layout::pane_numbers(none@) =~= Seq::empty());
        let k = match self.registry.owner_of_pane(pane) {
            Some(k) => k,
            None => {
                let _ = self.readers.remove(pane.0);
                assert(self@ =~= start.exit(pane, c));
                return ExitOutcome { closed, reaped: None, gone: none };
            },
        };
        let (id, all) = self.mark_exited(pane, k, c);
        let empty: Vec<u64> = Vec::new();
        let rs = PaneSubscribers { closed: Some(c), senders: empty };
        assert(rs@.senders =~= Seq::empty());
        self.readers.insert(pane.0, rs);
        assert(self@ =~= start.marked(pane, c).closed(pane, c, true));
        if !all || closed.len() > 0 || self.read_elsewhere(id, pane) {
            return ExitOutcome { closed, reaped: None, gone: none };
        }
        let (reaped, gone) = self.reap(id);
        if reaped {
            ExitOutcome { closed, reaped: Some(id), gone }
        } else {
            ExitOutcome { closed, reaped: None, gone: none }
        }
    }

    // ── the brake ──

    /// The brake of every session.
    pub fn freio_state(&self) -> (r: Vec<(SessionId, Freio)>)
        ensures
            r@ == brakes(self@.sessions(), table::ordered(self@.sessions().dom())),
    {
        let keys = self.registry.sessions.keys();
        let ghost m = self@.sessions();
        let mut r: Vec<(SessionId, Freio)> = Vec::new();
        let mut i: usize = 0;
        while i < keys.len()
            invariant
                i <= keys@.len(),
                m == self@.sessions(),
                table::lists(keys@, m.dom()),
                r@.len() == i,
                forall|j: int|
                    0 <= j < i ==> #[trigger] r@[j] == (m[keys@[j]].id, m[keys@[j]].freio),
            decreases keys@.len() - i,
        {
            assert(keys@.contains(keys@[i as int]));
            match self.registry.sessions.get(keys[i]) {
                Some(s) => {
                    r.push((s.id, s.freio));
                },
                None => {},
            }
            i = i + 1;
        }
        assert(r@ =~= brakes(m, keys@));
        r
    }

    /// Sets the brake of one session or of all, and tells which panes it holds
    /// and of which it is not known whether it should; a released brake holds
    /// none.
    pub fn set_freio(&mut self, session: Option<SessionId>, engaged: bool, now: u64) -> (r: (
        Vec<PaneId>,
        Vec<PaneId>,
    ))
        ensures
            ({
                let m = old(self)@.sessions();
                let targets = inproc_model::brake_targets(m, session);
                let brake = if engaged {
                    Freio::Engaged { at_unix: now }
                } else {
                    Freio::Released
                };
                &&& final(self)@.sessions() == inproc_model::with_brake(m, targets, brake)
                &&& final(self)@ == (MuxView {
                    registry: crate::registry::RegistryView {
                        sessions: final(self)@.sessions(),
                        ..old(self)@.registry
                    },
                    ..old(self)@
                })
                &&& layout::pane_numbers(r.0@) == if engaged {
                    inproc_model::braked_panes(m, targets, true)
                } else {
                    Seq::empty()
                }
                &&& layout::pane_numbers(r.1@) == if engaged {
                    inproc_model::braked_panes(m, targets, false)
                } else {
                    Seq::empty()
                }
            }),
    {
        let brake = if engaged {
            Freio::Engaged { at_unix: now }
        } else {
            Freio::Released
        };
        let ghost start = self@;
        let ghost m = start.sessions();
        let targets: Vec<u64> = match session {
            Some(id) => {
                if self.registry.sessions.contains_key(id.0) {
                    let one = vec![id.0];
                    assert(one@ =~= seq![id.0]);
                    one
                } else {
                    let none: Vec<u64> = Vec::new();
                    assert(none@ =~= Seq::empty());
                    none
                }
            },
            None => self.registry.sessions.keys(),
        };
        let ghost ts = targets@;
        assert(ts == inproc_model::brake_targets(m, session));
        proof {
            assert forall|j: int| 0 <= j < ts.len() implies m.dom().contains(#[trigger] ts[j]) by {
                assert(ts.contains(ts[j]));
            }
            assert forall|a: int, b: int| 0 <= a < b < ts.len() implies ts[a] != ts[b] by {}
        }
        let mut braked: Vec<PaneId> = Vec::new();
        let mut unknown: Vec<PaneId> = Vec::new();
        let mut i: usize = 0;
        proof {
            assert(ts.take(0) =~= Seq::<u64>::empty());
            assert(layout::pane_numbers(braked@) =~= Seq::empty());
            assert(layout::pane_numbers(unknown@) =~= Seq::empty());
        }
        while i < targets.len()
            invariant
                i <= targets@.len(),
                ts == targets@,
                m == start.sessions(),
                forall|j: int| 0 <= j < ts.len() ==> m.dom().contains(#[trigger] ts[j]),
                forall|a: int, b: int| 0 <= a < b < ts.len() ==> ts[a] != ts[b],
                self@ == (MuxView {
                    registry: crate::registry::RegistryView {
                        sessions: inproc_model::with_brake(m, ts.take(i as int), brake),
                        ..start.registry
                    },
                    ..start
                }),
                forall|j: int|
                    i <= j < ts.len() ==> self@.sessions().dom().contains(#[trigger] ts[j])
                        && self@.sessions()[ts[j]] == m[ts[j]],
                layout::pane_numbers(braked@) == if engaged {
                    inproc_model::braked_panes(m, ts.take(i as int), true)
                } else {
                    Seq::empty()
                },
                layout::pane_numbers(unknown@) == if engaged {
                    inproc_model::braked_panes(m, ts.take(i as int), false)
                } else {
                    Seq::empty()
                },
            decreases targets@.len() - i,
        {
            let k = targets[i];
            let ghost held = self@.sessions();
            proof {
                let longer = ts.take(i as int + 1);
                assert(longer.drop_last() =~= ts.take(i as int));
                assert(longer.last() == k);
                assert(m.dom().contains(ts[i as int]));
            }
            match self.registry.sessions.remove(k) {
                Some(s) => {
                    let mut s = s;
                    if engaged {
                        collect(&s, &mut braked, true);
                        collect(&s, &mut unknown, false);
                    }
                    s.freio = brake;
                    self.registry.sessions.insert(k, s);
                    proof {
                        lookup::lemma_put_back(held, k, s@);
                        assert(s@ == TearSessionView { freio: brake, ..held[k] });
                    }
                },
                None => {},
            }
            i = i + 1;
            proof {
                assert forall|j: int| i <= j < ts.len() implies self@.sessions().dom().contains(
                    #[trigger] ts[j],
                ) && self@.sessions()[ts[j]] == m[ts[j]] by {
                    assert(ts[j] != k);
                    assert(held.dom().contains(ts[j]));
                }
            }
        }
        assert(ts.take(i as int) =~= ts);
        (braked, unknown)
    }
}

fn collect(s: &TearSession, out: &mut Vec<PaneId>, held: bool)
    ensures
        layout::pane_numbers(final(out)@) == layout::pane_numbers(old(out)@)
            + inproc_model::panes_by_origin(s@.panes, table::ordered(s@.panes.dom()), held),
{
    let keys = s.panes.keys();
    let ghost start = layout::pane_numbers(out@);
    let ghost m = s@.panes;
    let mut i: usize = 0;
    proof {
        assert(keys@.take(0) =~= Seq::<u64>::empty());
        assert(start + Seq::<u64>::empty() =~= start);
    }
    while i < keys.len()
        invariant
            i <= keys@.len(),
            m == s@.panes,
            table::lists(keys@, m.dom()),
            layout::pane_numbers(out@) == start + inproc_model::panes_by_origin(
                m,
                keys@.take(i as int),
                held,
            ),
        decreases keys@.len() - i,
    {
        let k = keys[i];
        let ghost before = layout::pane_numbers(out@);
        proof {
            assert(keys@.contains(k));
            assert(keys@.take(i as int + 1).drop_last() =~= keys@.take(i as int));
        }
        match s.panes.get(k) {
            Some(p) => {
                let wanted = if held {
                    p.yurai.is_automation()
                } else {
                    p.yurai.is_unknown()
                };
                if wanted {
                    out.push(PaneId(k));
                    assert(layout::pane_numbers(out@) =~= before.push(k));
                    assert(before.push(k) =~= start + inproc_model::panes_by_origin(
                        m,
                        keys@.take(i as int + 1),
                        held,
                    ));
                }
            },
            None => {},
        }
        i = i + 1;
    }
    assert(keys@.take(i as int) =~= keys@);
}

/// The brakes of sessions.
pub open spec fn brakes(
    sessions: Map<u64, TearSessionView>,
    keys: Seq<u64>,
) -> Seq<(SessionId, Freio)> {
    Seq::new(keys.len(), |i: int| (sessions[keys[i]].id, sessions[keys[i]].freio))
}

} // verus!
