//! The multiplexer's panes: splitting, closing, arranging, input.
use crate::control::{ControlError, ControlErrorView, ControlResult};
use crate::genesis;
use crate::id::{PaneId, SessionId, WindowId};
use crate::inproc::{InProcess, SpawnPlan};
use crate::inproc_model;
use crate::inproc_model::MuxView;
use crate::layout;
use crate::layout::{Direction, LayoutNode, LeafRemoval, Rect, SplitOrientation};
use crate::lookup;
use crate::pane;
use crate::pane::{clone_texts, InputPolicy, TearPaneView};
use crate::registry;
use crate::registry::{Spawn, SpawnView};
use crate::session::{TearSessionView, TearWindowView};
use crate::yurai::{clone_opt, Yurai, YuraiView};
use vstd::prelude::*;
use vstd::string::StringExecFns;

verus! {

/// What splitting a pane comes to.
pub open spec fn pane_split(
    before: MuxView,
    after: MuxView,
    origin: PaneId,
    direction: Direction,
    ratio: u32,
    spawn: SpawnView,
    inherited: Seq<(Seq<char>, Seq<char>)>,
    now: u64,
    r: ControlResult<(SessionId, WindowId, SpawnPlan)>,
) -> bool {
    match before.registry.locate(origin) {
        None => r matches Err(e) && e@ == ControlErrorView::NoSuchPane(origin) && after == before,
        Some((sid, wid)) => if !before.sessions().dom().contains(sid.0) {
            r matches Err(e) && e@ == ControlErrorView::NoSuchSession(sid) && after == before
        } else if !before.shows(sid, wid, origin) {
            r matches Err(e) && e@ == ControlErrorView::NoSuchPane(origin) && after
                == before.split_failed(sid, wid, spawn.shell, now)
        } else {
            r matches Ok(s) && s.0 == sid && s.1 == wid && after == before.split_pane(
                sid,
                wid,
                origin,
                direction,
                ratio,
                spawn,
                now,
            ) && s.2@ == after.plan(
                before.split_pane_id(wid, spawn.shell, now),
                spawn.shell,
                spawn.args,
                spawn.size,
                inherited,
            )
        },
    }
}

/// A pane that was closed.
#[derive(Debug, PartialEq, Eq)]
pub struct PaneKilled {
    /// The panes whose terminals are to be closed.
    pub gone: Vec<PaneId>,
    /// The window that is to be arranged anew; none if it closed too.
    pub reflow: Option<(SessionId, WindowId)>,
}

/// What closing a pane comes to.
pub open spec fn pane_killed(
    before: MuxView,
    after: MuxView,
    pane: PaneId,
    r: ControlResult<PaneKilled>,
) -> bool {
    match before.registry.locate(pane) {
        None => r matches Err(e) && e@ == ControlErrorView::NoSuchPane(pane) && after == before,
        Some((sid, wid)) => if !before.sessions().dom().contains(sid.0) {
            r matches Err(e) && e@ == ControlErrorView::NoSuchSession(sid) && after
                == before.drop_panes(seq![pane.0])
        } else if !before.shows(sid, wid, pane) {
            r matches Err(e) && e@ == ControlErrorView::NoSuchPane(pane) && after
                == before.drop_panes(seq![pane.0])
        } else {
            r matches Ok(k) && after == before.close_pane(sid, wid, pane)
                && layout::pane_numbers(k.gone@) == inproc_model::let_go(
                seq![pane.0],
                before.live,
            ) && k.reflow == if before.sessions()[sid.0].windows[wid.0].layout == LayoutNode::Leaf(
                pane,
            ) {
                None::<(SessionId, WindowId)>
            } else {
                Some((sid, wid))
            }
        },
    }
}

impl InProcess {
    /// Splits a pane; the new one is about to start. The share of the first half
    /// is given by its bits.
    pub fn split_pane(
        &mut self,
        origin: PaneId,
        direction: Direction,
        ratio: u32,
        shell: &str,
        args: &Vec<String>,
        inherited: Vec<(String, String)>,
        now: u64,
    ) -> (r: ControlResult<(SessionId, WindowId, SpawnPlan)>)
        ensures
            pane_split(
                old(self)@,
                final(self)@,
                origin,
                direction,
                ratio,
                SpawnView {
                    shell: shell@,
                    args: genesis::texts(args@),
                    cwd: old(self)@.env.cwd,
                    env: Seq::empty(),
                    yurai: YuraiView::Unknown,
                    size: (80, 12),
                },
                pane::pairs(inherited@),
                now,
                r,
            ),
    {
        let ghost start = self@;
        let (sid, wid) = match self.registry.locate_pane(origin) {
            Some(place) => place,
            None => {
                return Err(ControlError::NoSuchPane(origin));
            },
        };
        let env: Vec<(String, String)> = Vec::new();
        assert(pane::pairs(env@) =~= Seq::empty());
        let spawn = Spawn {
            shell: String::from_str(shell),
            args: clone_texts(args),
            cwd: clone_opt(&self.env.cwd),
            env,
            yurai: Yurai::Unknown,
            size: (80, 12),
        };
        let mut s = match self.registry.sessions.remove(sid.0) {
            Some(s) => s,
            None => {
                return Err(ControlError::NoSuchSession(sid));
            },
        };
        let ghost sv = s@;
        let count: u64 = self.registry.count;
        self.registry.count = if count == u64::MAX {
            0
        } else {
            count + 1
        };
        let added = registry::mint_pane_id(wid, shell, now, count);
        let done = match s.windows.remove(wid.0) {
            Some(w) => {
                let mut w = w;
                let ghost wv = w@;
                let done = w.layout.split_leaf(origin, added, direction, ratio);
                if done {
                    w.active_pane = added;
                }
                s.windows.insert(wid.0, w);
                proof {
                    lookup::lemma_put_back(sv.windows, wid.0, w@);
                    if !done {
                        assert(w@ == wv);
                        assert(sv.windows.insert(wid.0, wv) =~= sv.windows);
                    }
                }
                done
            },
            None => false,
        };
        if !done {
            let _ = s.panes.remove(added.0);
            self.registry.sessions.insert(sid.0, s);
            proof {
                lookup::lemma_put_back(start.sessions(), sid.0, s@);
                assert(s@ =~= TearSessionView { panes: sv.panes.remove(added.0), ..sv });
                assert(self@ =~= start.split_failed(sid, wid, shell@, now));
            }
            return Err(ControlError::NoSuchPane(origin));
        }
        s.panes.insert(added.0, spawn.record(added));
        self.registry.sessions.insert(sid.0, s);
        proof {
            lookup::lemma_put_back(start.sessions(), sid.0, s@);
            assert(s@ =~= inproc_model::with_split(
                sv,
                wid,
                origin,
                added,
                direction,
                ratio,
                spawn@,
            ));
        }
        let plan = self.begin_spawn(added, shell, args, (80, 12), inherited);
        Ok((sid, wid, plan))
    }

    /// Closes a pane.
    pub fn kill_pane(&mut self, id: PaneId) -> (r: ControlResult<PaneKilled>)
        ensures
            pane_killed(old(self)@, final(self)@, id, r),
    {
        let ghost start = self@;
        let (sid, wid) = match self.registry.locate_pane(id) {
            Some(place) => place,
            None => {
                return Err(ControlError::NoSuchPane(id));
            },
        };
        let one = vec![id.0];
        assert(one@ =~= seq![id.0]);
        let gone = self.drop_panes(&one);
        let mut s = match self.registry.sessions.remove(sid.0) {
            Some(s) => s,
            None => {
                assert(self@ == start.drop_panes(seq![id.0]));
                return Err(ControlError::NoSuchSession(sid));
            },
        };
        let ghost sv = s@;
        let mut w = match s.windows.remove(wid.0) {
            Some(w) => w,
            None => {
                self.registry.sessions.insert(sid.0, s);
                proof {
                    lookup::lemma_put_back(start.sessions(), sid.0, sv);
                    assert(start.sessions().insert(sid.0, sv) =~= start.sessions());
                    assert(self@ =~= start.drop_panes(seq![id.0]));
                }
                return Err(ControlError::NoSuchPane(id));
            },
        };
        let ghost wv = w@;
        match w.layout.remove_leaf(id) {
            LeafRemoval::NotFound => {
                s.windows.insert(wid.0, w);
                self.registry.sessions.insert(sid.0, s);
                proof {
                    lookup::lemma_put_back(sv.windows, wid.0, wv);
                    assert(sv.windows.insert(wid.0, wv) =~= sv.windows);
                    assert(s@ =~= sv);
                    lookup::lemma_put_back(start.sessions(), sid.0, sv);
                    assert(start.sessions().insert(sid.0, sv) =~= start.sessions());
                    assert(self@ =~= start.drop_panes(seq![id.0]));
                }
                Err(ControlError::NoSuchPane(id))
            },
            LeafRemoval::Removed => {
                if w.active_pane.0 == id.0 {
                    let rest = w.layout.panes();
                    proof {
                        assert(layout::pane_numbers(rest@)[0] == rest@[0].0);
                    }
                    w.active_pane = rest[0];
                }
                let _ = s.panes.remove(id.0);
                s.windows.insert(wid.0, w);
                self.registry.sessions.insert(sid.0, s);
                proof {
                    lookup::lemma_put_back(sv.windows, wid.0, w@);
                    assert(s@ =~= inproc_model::without_pane(sv, wid, id));
                    lookup::lemma_put_back(start.sessions(), sid.0, s@);
                    assert(self@ =~= start.close_pane(sid, wid, id));
                }
                Ok(PaneKilled { gone, reflow: Some((sid, wid)) })
            },
            LeafRemoval::WasRoot => {
                let _ = s.panes.remove(id.0);
                if s.active_window.0 == wid.0 {
                    s.active_window =
                    match s.windows.first_key() {
                        Some(k) => WindowId(k),
                        None => WindowId(0),
                    };
                }
                self.registry.sessions.insert(sid.0, s);
                proof {
                    assert(seq![id.0][0] == id.0);
                    assert(wv.layout.leaves().contains(id.0));
                    lookup::lemma_put_back(start.sessions(), sid.0, s@);
                    assert(self@ =~= start.close_pane(sid, wid, id));
                }
                Ok(PaneKilled { gone, reflow: None })
            },
        }
    }

    /// Focuses a pane in its window.
    pub fn select_pane(&mut self, id: PaneId) -> (r: ControlResult<()>)
        ensures
            match old(self)@.registry.locate(id) {
                None => r matches Err(e) && e@ == ControlErrorView::NoSuchPane(id) && final(self)@
                    == old(self)@,
                Some((sid, wid)) => r is Ok && final(self)@ == if old(self)@.sessions().dom().contains(sid.0) && old(self)@.sessions()[sid.0].windows.dom().contains(wid.0) {
                    let s = old(self)@.sessions()[sid.0];
                    old(self)@.with_session(
                        sid.0,
                        TearSessionView {
                            windows: s.windows.insert(
                                wid.0,
                                TearWindowView { active_pane: id, ..s.windows[wid.0] },
                            ),
                            ..s
                        },
                    )
                } else {
                    old(self)@
                },
            },
    {
        let ghost start = self@;
        let (sid, wid) = match self.registry.locate_pane(id) {
            Some(place) => place,
            None => {
                return Err(ControlError::NoSuchPane(id));
            },
        };
        match self.registry.sessions.remove(sid.0) {
            Some(s) => {
                let mut s = s;
                let ghost sv = s@;
                match s.windows.remove(wid.0) {
                    Some(w) => {
                        let mut w = w;
                        w.active_pane = id;
                        s.windows.insert(wid.0, w);
                        proof {
                            lookup::lemma_put_back(sv.windows, wid.0, w@);
                        }
                    },
                    None => {},
                }
                self.registry.sessions.insert(sid.0, s);
                proof {
                    lookup::lemma_put_back(start.sessions(), sid.0, s@);
                    if !sv.windows.dom().contains(wid.0) {
                        assert(s@ =~= sv);
                        assert(start.sessions().insert(sid.0, sv) =~= start.sessions());
                    }
                }
            },
            None => {},
        }
        Ok(())
    }

    /// What moving the divider next to a pane needs: the window, and its cells
    /// along the direction.
    pub fn resize_pane(&self, id: PaneId, direction: Direction) -> (r: ControlResult<
        (SessionId, WindowId, u16),
    >)
        ensures
            match self@.registry.locate(id) {
                None => r matches Err(e) && e@ == ControlErrorView::NoSuchPane(id),
                Some((sid, wid)) => if !self@.sessions().dom().contains(sid.0) {
                    r matches Err(e) && e@ == ControlErrorView::NoSuchSession(sid)
                } else if !self@.sessions()[sid.0].windows.dom().contains(wid.0) {
                    r matches Err(e) && e@ == ControlErrorView::NoSuchWindow(wid)
                } else {
                    let size = self@.sessions()[sid.0].windows[wid.0].size_cells;
                    r matches Ok(p) && p.0 == sid && p.1 == wid && p.2
                        == if direction.spec_orientation() is Vertical {
                        size.0
                    } else {
                        size.1
                    }
                },
            },
    {
        let (sid, wid) = match self.registry.locate_pane(id) {
            Some(place) => place,
            None => {
                return Err(ControlError::NoSuchPane(id));
            },
        };
        match self.registry.sessions.get(sid.0) {
            None => Err(ControlError::NoSuchSession(sid)),
            Some(s) => match s.windows.get(wid.0) {
                None => Err(ControlError::NoSuchWindow(wid)),
                Some(w) => match direction.orientation() {
                    SplitOrientation::Vertical => Ok((sid, wid, w.size_cells.0)),
                    SplitOrientation::Horizontal => Ok((sid, wid, w.size_cells.1)),
                },
            },
        }
    }

    /// Arranges a window by another tree; without one it stays as it is.
    pub fn apply_layout(&mut self, window: WindowId, tree: Option<LayoutNode>) -> (r: ControlResult<
        Option<u64>,
    >)
        ensures
            match old(self)@.registry.window_owner(window) {
                None => r matches Err(e) && e@ == ControlErrorView::NoSuchWindow(window) && final(self)@ == old(self)@,
                Some(k) => match tree {
                    Some(t) => r == Ok::<Option<u64>, ControlError>(Some(k)) && final(self)@ == old(self)@.set_layout(k, window, t),
                    None => r == Ok::<Option<u64>, ControlError>(None) && final(self)@ == old(self)@,
                },
            },
    {
        let k = match self.registry.owner_of_window(window) {
            Some(k) => k,
            None => {
                return Err(ControlError::NoSuchWindow(window));
            },
        };
        match tree {
            Some(t) => {
                let _ = self.set_layout(SessionId(k), window, t);
                Ok(Some(k))
            },
            None => Ok(None),
        }
    }

    /// Arranges a window of a session by another tree.
    pub fn set_layout(&mut self, sid: SessionId, window: WindowId, tree: LayoutNode) -> (done: bool)
        ensures
            done == (old(self)@.sessions().dom().contains(sid.0) && old(self)@.sessions()[sid.0].windows.dom().contains(window.0)),
            final(self)@ == if done {
                old(self)@.set_layout(sid.0, window, tree)
            } else {
                old(self)@
            },
    {
        let ghost start = self@;
        let mut s = match self.registry.sessions.remove(sid.0) {
            Some(s) => s,
            None => {
                return false;
            },
        };
        let ghost sv = s@;
        let done = match s.windows.remove(window.0) {
            Some(w) => {
                let mut w = w;
                w.layout = tree;
                s.windows.insert(window.0, w);
                proof {
                    lookup::lemma_put_back(sv.windows, window.0, w@);
                }
                true
            },
            None => false,
        };
        self.registry.sessions.insert(sid.0, s);
        proof {
            lookup::lemma_put_back(start.sessions(), sid.0, s@);
            if !done {
                assert(s@ =~= sv);
                assert(start.sessions().insert(sid.0, sv) =~= start.sessions());
            }
        }
        done
    }

    /// The arrangement of a window and its cells.
    pub fn window_layout(&self, sid: SessionId, window: WindowId) -> (r: Option<
        (LayoutNode, (u16, u16)),
    >)
        ensures
            match r {
                Some((t, size)) => self@.sessions().dom().contains(sid.0)
                    && self@.sessions()[sid.0].windows.dom().contains(window.0) && t
                    == self@.sessions()[sid.0].windows[window.0].layout && size
                    == self@.sessions()[sid.0].windows[window.0].size_cells,
                None => !(self@.sessions().dom().contains(sid.0)
                    && self@.sessions()[sid.0].windows.dom().contains(window.0)),
            },
    {
        match self.registry.sessions.get(sid.0) {
            Some(s) => match s.windows.get(window.0) {
                Some(w) => Some((w.layout.clone(), w.size_cells)),
                None => None,
            },
            None => None,
        }
    }

    /// Writes the rectangles of the panes of a window onto their records, and
    /// tells which terminals are to be resized.
    pub fn apply_layout_geometry(
        &mut self,
        sid: SessionId,
        window: WindowId,
        rects: &Vec<(PaneId, Rect)>,
    ) -> (r: Vec<(PaneId, u16, u16)>)
        ensures
            if old(self)@.sessions().dom().contains(sid.0) && old(self)@.sessions()[sid.0].windows.dom().contains(window.0) {
                &&& r@ == inproc_model::to_resize(rects@)
                &&& final(self)@ == old(self)@.with_session(
                    sid.0,
                    TearSessionView {
                        panes: inproc_model::stamped(
                            old(self)@.sessions()[sid.0].panes,
                            rects@,
                        ),
                        ..old(self)@.sessions()[sid.0]
                    },
                )
            } else {
                r@.len() == 0 && final(self)@ == old(self)@
            },
    {
        let ghost start = self@;
        let mut out: Vec<(PaneId, u16, u16)> = Vec::new();
        let shown = match self.registry.sessions.get(sid.0) {
            Some(s) => s.windows.contains_key(window.0),
            None => false,
        };
        if !shown {
            return out;
        }
        let mut s = match self.registry.sessions.remove(sid.0) {
            Some(s) => s,
            None => {
                return out;
            },
        };
        let ghost sv = s@;
        let ghost all = rects@;
        let mut i: usize = 0;
        assert(all.take(0) =~= Seq::empty());
        assert(out@ =~= inproc_model::to_resize(all.take(0)));
        while i < rects.len()
            invariant
                i <= rects@.len(),
                all == rects@,
                s@ == (TearSessionView {
                    panes: inproc_model::stamped(sv.panes, all.take(i as int)),
                    ..sv
                }),
                out@ == inproc_model::to_resize(all.take(i as int)),
            decreases rects@.len() - i,
        {
            let (pane, rect) = rects[i];
            let ghost held = s@.panes;
            proof {
                let longer = all.take(i as int + 1);
                assert(longer.drop_last() =~= all.take(i as int));
                assert(longer.last() == (pane, rect));
            }
            match s.panes.remove(pane.0) {
                Some(p) => {
                    let mut p = p;
                    p.size_cells = (
                        if rect.w == 0 {
                            1
                        } else {
                            rect.w
                        },
                        if rect.h == 0 {
                            1
                        } else {
                            rect.h
                        },
                    );
                    p.origin_cells = (rect.x, rect.y);
                    s.panes.insert(pane.0, p);
                    proof {
                        lookup::lemma_put_back(held, pane.0, p@);
                    }
                },
                None => {},
            }
            if rect.w != 0 && rect.h != 0 {
                out.push((pane, rect.w, rect.h));
            }
            i = i + 1;
        }
        assert(all.take(i as int) =~= all);
        self.registry.sessions.insert(sid.0, s);
        proof {
            lookup::lemma_put_back(start.sessions(), sid.0, s@);
        }
        out
    }

    /// Whether bytes may be written to a pane.
    pub fn send_keys(&self, id: PaneId) -> (r: ControlResult<()>)
        ensures
            match self@.shown_pane(id) {
                None => r matches Err(e) && e@ == ControlErrorView::NoSuchPane(id),
                Some(p) => if p.input_policy is Locked {
                    r matches Err(e) && e@ == ControlErrorView::Rejected(
                        inproc_model::locked_text(id),
                    )
                } else if !self@.live.contains(id.0) {
                    r matches Err(e) && e@ == ControlErrorView::NoSuchPane(id)
                } else {
                    r is Ok
                },
            },
    {
        match self.registry.locate_pane(id) {
            Some((sid, _)) => match self.registry.sessions.get(sid.0) {
                Some(s) => match s.panes.get(id.0) {
                    Some(p) => {
                        match p.input_policy {
                            InputPolicy::Locked => {
                                let mut text = String::from_str("pane ");
                                text.append(id.to_string().as_str());
                                text.append(" input_policy=locked \u{2014} send_keys rejected");
                                return Err(ControlError::Rejected(text));
                            },
                            _ => {},
                        }
                        if self.live.contains_key(id.0) {
                            Ok(())
                        } else {
                            Err(ControlError::NoSuchPane(id))
                        }
                    },
                    None => Err(ControlError::NoSuchPane(id)),
                },
                None => Err(ControlError::NoSuchPane(id)),
            },
            None => Err(ControlError::NoSuchPane(id)),
        }
    }

    /// Sets whose input a pane takes.
    pub fn set_input_policy(&mut self, id: PaneId, policy: InputPolicy) -> (r: ControlResult<()>)
        ensures
            match old(self)@.registry.owner(id) {
                None => r matches Err(e) && e@ == ControlErrorView::NoSuchPane(id) && final(self)@
                    == old(self)@,
                Some(k) => {
                    let s = old(self)@.sessions()[k];
                    &&& r is Ok
                    &&& final(self)@ == old(self)@.with_session(
                        k,
                        TearSessionView {
                            panes: s.panes.insert(
                                id.0,
                                TearPaneView { input_policy: policy, ..s.panes[id.0] },
                            ),
                            ..s
                        },
                    )
                },
            },
    {
        let ghost start = self@;
        let k = match self.registry.owner_of_pane(id) {
            Some(k) => k,
            None => {
                return Err(ControlError::NoSuchPane(id));
            },
        };
        match self.registry.sessions.remove(k) {
            Some(s) => {
                let mut s = s;
                let ghost sv = s@;
                match s.panes.remove(id.0) {
                    Some(p) => {
                        let mut p = p;
                        p.input_policy = policy;
                        s.panes.insert(id.0, p);
                        proof {
                            lookup::lemma_put_back(sv.panes, id.0, p@);
                        }
                    },
                    None => {},
                }
                self.registry.sessions.insert(k, s);
                proof {
                    lookup::lemma_put_back(start.sessions(), k, s@);
                }
            },
            None => {},
        }
        Ok(())
    }

    /// Whether a pane has a terminal whose size can be set.
    pub fn pane_resize_absolute(&self, id: PaneId) -> (r: ControlResult<()>)
        ensures
            if self@.live.contains(id.0) {
                r is Ok
            } else {
                r matches Err(e) && e@ == ControlErrorView::NoSuchPane(id)
            },
    {
        if self.live.contains_key(id.0) {
            Ok(())
        } else {
            Err(ControlError::NoSuchPane(id))
        }
    }

    /// Writes the size of a terminal into the record of its pane.
    fn record_size(&mut self, id: PaneId, cols: u16, rows: u16)
        ensures
            final(self)@ == match old(self)@.registry.owner(id) {
                Some(k) => {
                    let s = old(self)@.sessions()[k];
                    old(self)@.with_session(
                        k,
                        TearSessionView {
                            panes: s.panes.insert(
                                id.0,
                                TearPaneView { size_cells: (cols, rows), ..s.panes[id.0] },
                            ),
                            ..s
                        },
                    )
                },
                None => old(self)@,
            },
    {
        let ghost start = self@;
        let k = match self.registry.owner_of_pane(id) {
            Some(k) => k,
            None => {
                return;
            },
        };
        match self.registry.sessions.remove(k) {
            Some(s) => {
                let mut s = s;
                let ghost sv = s@;
                match s.panes.remove(id.0) {
                    Some(p) => {
                        let mut p = p;
                        p.size_cells = (cols, rows);
                        s.panes.insert(id.0, p);
                        proof {
                            lookup::lemma_put_back(sv.panes, id.0, p@);
                        }
                    },
                    None => {},
                }
                self.registry.sessions.insert(k, s);
                proof {
                    lookup::lemma_put_back(start.sessions(), k, s@);
                }
            },
            None => {},
        }
    }

    /// The terminal of a pane has another size; so have its record and its
    /// screen.
    pub fn pane_resized(&mut self, id: PaneId, cols: u16, rows: u16)
        ensures
            final(self)@ == old(self)@.resized(id, cols, rows),
    {
        self.record_size(id, cols, rows);
        let ghost before = self@.grids;
        match self.grids.remove(id.0) {
            Some(slot) => {
                let slot = slot.resized(cols, rows);
                self.grids.insert(id.0, slot);
                proof {
                    lookup::lemma_put_back(before, id.0, slot@);
                }
            },
            None => {},
        }
    }
}

} // verus!
