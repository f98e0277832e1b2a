//! The state of the multiplexer, and what each operation does to it.
use crate::block::BlockView;
use crate::clock;
use crate::digest;
use crate::freio::Freio;
use crate::id::{PaneId, SessionId, WindowId};
use crate::layout::{Direction, LayoutNode, Rect};
use crate::pane::{PaneState, TearPaneView};
use crate::pane_grid;
use crate::pane_grid::PaneView;
use crate::recording::RecordingView;
use crate::registry;
use crate::registry::{RegistryView, SpawnView};
use crate::session::{SourceView, TearSessionView, TearWindowView};
use crate::spawn_env;
use crate::spawn_env::SpawnEnvView;
use crate::table;
use crate::yurai::YuraiView;
use vstd::prelude::*;

verus! {

/// Who reads the bytes of a pane, and whether there will be more.
#[verifier::ext_equal]
pub struct ReadersView {
    /// The code that the program ended with, once it has.
    pub closed: Option<i32>,
    /// The readers, by number.
    pub senders: Seq<u64>,
}

impl ReadersView {
    pub open spec fn start() -> ReadersView {
        ReadersView { closed: None, senders: Seq::empty() }
    }
}

/// The panes of `keys` that a brake holds, or those of which it is not known
/// whether it should.
pub open spec fn panes_by_origin(
    panes: Map<u64, TearPaneView>,
    keys: Seq<u64>,
    held: bool,
) -> Seq<u64>
    decreases keys.len(),
{
    if keys.len() == 0 {
        Seq::empty()
    } else {
        let rest = panes_by_origin(panes, keys.drop_last(), held);
        let y = panes[keys.last()].yurai;
        if (held && y.is_automation()) || (!held && y == YuraiView::Unknown) {
            rest.push(keys.last())
        } else {
            rest
        }
    }
}

/// The same over several sessions.
pub open spec fn braked_panes(
    sessions: Map<u64, TearSessionView>,
    keys: Seq<u64>,
    held: bool,
) -> Seq<u64>
    decreases keys.len(),
{
    if keys.len() == 0 {
        Seq::empty()
    } else {
        let s = sessions[keys.last()];
        braked_panes(sessions, keys.drop_last(), held) + panes_by_origin(
            s.panes,
            table::ordered(s.panes.dom()),
            held,
        )
    }
}

/// Sessions with the brake of some of them set.
pub open spec fn with_brake(
    sessions: Map<u64, TearSessionView>,
    keys: Seq<u64>,
    brake: Freio,
) -> Map<u64, TearSessionView>
    decreases keys.len(),
{
    if keys.len() == 0 {
        sessions
    } else {
        let before = with_brake(sessions, keys.drop_last(), brake);
        before.insert(
            keys.last(),
            TearSessionView { freio: brake, ..before[keys.last()] },
        )
    }
}

/// The sessions that a brake is meant for: one, or all.
pub open spec fn brake_targets(
    sessions: Map<u64, TearSessionView>,
    session: Option<SessionId>,
) -> Seq<u64> {
    match session {
        Some(id) => if sessions.dom().contains(id.0) {
            seq![id.0]
        } else {
            Seq::empty()
        },
        None => table::ordered(sessions.dom()),
    }
}

/// The state of the multiplexer.
#[verifier::ext_equal]
pub struct MuxView {
    pub registry: RegistryView,
    /// The panes whose programs have a terminal.
    pub live: Set<u64>,
    pub grids: Map<u64, PaneView>,
    pub readers: Map<u64, ReadersView>,
    pub recordings: Map<u64, RecordingView>,
    pub socket: Option<Seq<char>>,
    pub env: SpawnEnvView,
    /// The number of the next reader.
    pub token: u64,
}

/// The text under which a locked pane refuses input.
pub open spec fn locked_text(pane: PaneId) -> Seq<char> {
    "pane "@ + digest::hex(pane.0 as nat, 16)
        + " input_policy=locked \u{2014} send_keys rejected"@
}

/// The text under which a block that is not there is refused.
pub open spec fn no_block_text(index: u64) -> Seq<char> {
    "no block at index "@ + crate::text::decimal(index as nat)
        + " (oldest evicted or never existed)"@
}

/// The panes of `panes` whose terminals go when all of them are let go.
pub open spec fn let_go(panes: Seq<u64>, live: Set<u64>) -> Seq<u64>
    decreases panes.len(),
{
    if panes.len() == 0 {
        Seq::empty()
    } else if live.contains(panes[0]) {
        seq![panes[0]] + let_go(panes.drop_first(), live.remove(panes[0]))
    } else {
        let_go(panes.drop_first(), live)
    }
}

/// Blocks from an index on.
pub open spec fn blocks_from(s: Seq<BlockView>, since: u64) -> Seq<BlockView>
    decreases s.len(),
{
    if s.len() == 0 {
        Seq::empty()
    } else if s.last().index >= since {
        blocks_from(s.drop_last(), since).push(s.last())
    } else {
        blocks_from(s.drop_last(), since)
    }
}

/// A size of one cell at least either way.
pub open spec fn at_least_one(size: (u16, u16)) -> (u16, u16) {
    (
        if size.0 == 0 {
            1u16
        } else {
            size.0
        },
        if size.1 == 0 {
            1u16
        } else {
            size.1
        },
    )
}

/// The window that is in front once another is gone.
pub open spec fn front_without(s: TearSessionView, window: WindowId) -> WindowId {
    if s.active_window == window {
        match table::first_of(s.windows.remove(window.0).dom()) {
            Some(w) => WindowId(w),
            None => WindowId(0),
        }
    } else {
        s.active_window
    }
}

/// A session without a window and without the panes it showed.
pub open spec fn without_window(
    s: TearSessionView,
    window: WindowId,
    panes: Seq<u64>,
) -> TearSessionView {
    TearSessionView {
        windows: s.windows.remove(window.0),
        panes: s.panes.remove_keys(panes.to_set()),
        active_window: front_without(s, window),
        ..s
    }
}

/// A session with a pane taken out of a window.
pub open spec fn without_pane(s: TearSessionView, window: WindowId, pane: PaneId) -> TearSessionView {
    let w = s.windows[window.0];
    let layout = w.layout.without(pane);
    TearSessionView {
        panes: s.panes.remove(pane.0),
        windows: s.windows.insert(
            window.0,
            TearWindowView {
                layout,
                active_pane: if w.active_pane == pane {
                    PaneId(layout.leaves()[0])
                } else {
                    w.active_pane
                },
                ..w
            },
        ),
        ..s
    }
}

/// A session with a pane split off another.
pub open spec fn with_split(
    s: TearSessionView,
    window: WindowId,
    origin: PaneId,
    added: PaneId,
    direction: Direction,
    ratio: u32,
    spawn: SpawnView,
) -> TearSessionView {
    let w = s.windows[window.0];
    TearSessionView {
        panes: s.panes.insert(added.0, spawn.record(added)),
        windows: s.windows.insert(
            window.0,
            TearWindowView {
                layout: w.layout.split(origin, added, direction, ratio),
                active_pane: added,
                ..w
            },
        ),
        ..s
    }
}

/// A session with rectangles stamped on the records of its panes.
pub open spec fn stamped(
    panes: Map<u64, TearPaneView>,
    rects: Seq<(PaneId, Rect)>,
) -> Map<u64, TearPaneView>
    decreases rects.len(),
{
    if rects.len() == 0 {
        panes
    } else {
        let before = stamped(panes, rects.drop_last());
        let (pane, rect) = rects.last();
        if before.dom().contains(pane.0) {
            before.insert(
                pane.0,
                TearPaneView {
                    size_cells: at_least_one((rect.w, rect.h)),
                    origin_cells: (rect.x, rect.y),
                    ..before[pane.0]
                },
            )
        } else {
            before
        }
    }
}

/// The panes whose terminals are to be told their new size.
pub open spec fn to_resize(rects: Seq<(PaneId, Rect)>) -> Seq<(PaneId, u16, u16)>
    decreases rects.len(),
{
    if rects.len() == 0 {
        Seq::empty()
    } else {
        let (pane, rect) = rects.last();
        if rect.w == 0 || rect.h == 0 {
            to_resize(rects.drop_last())
        } else {
            to_resize(rects.drop_last()).push((pane, rect.w, rect.h))
        }
    }
}

/// What starts the program of a pane.
#[verifier::ext_equal]
pub struct PlanView {
    pub pane: PaneId,
    pub shell: Seq<char>,
    pub args: Seq<Seq<char>>,
    pub cwd: Option<Seq<char>>,
    pub env: Seq<(Seq<char>, Seq<char>)>,
    pub size: (u16, u16),
}

impl MuxView {
    pub open spec fn start() -> MuxView {
        MuxView {
            registry: RegistryView::start(),
            live: Set::empty(),
            grids: Map::empty(),
            readers: Map::empty(),
            recordings: Map::empty(),
            socket: None,
            env: SpawnEnvView::none(),
            token: 0,
        }
    }

    pub open spec fn sessions(self) -> Map<u64, TearSessionView> {
        self.registry.sessions
    }

    pub open spec fn with_session(self, k: u64, s: TearSessionView) -> MuxView {
        MuxView {
            registry: RegistryView {
                sessions: self.registry.sessions.insert(k, s),
                ..self.registry
            },
            ..self
        }
    }

    /// The terminal of a pane has another size; its record and its screen follow.
    pub open spec fn resized(self, id: PaneId, cols: u16, rows: u16) -> MuxView {
        let shown = MuxView {
            grids: if self.grids.dom().contains(id.0) {
                let g = self.grids[id.0];
                self.grids.insert(
                    id.0,
                    PaneView { grid: g.grid.resize(cols as int, rows as int), ..g },
                )
            } else {
                self.grids
            },
            ..self
        };
        match self.registry.owner(id) {
            Some(k) => {
                let s = self.sessions()[k];
                shown.with_session(
                    k,
                    TearSessionView {
                        panes: s.panes.insert(
                            id.0,
                            TearPaneView { size_cells: (cols, rows), ..s.panes[id.0] },
                        ),
                        ..s
                    },
                )
            },
            None => shown,
        }
    }

    /// The record of a pane that some window shows.
    pub open spec fn shown_pane(self, pane: PaneId) -> Option<TearPaneView> {
        match self.registry.locate(pane) {
            Some((sid, _)) => if self.sessions().dom().contains(sid.0) && self.sessions()[
                sid.0
            ].panes.dom().contains(pane.0) {
                Some(self.sessions()[sid.0].panes[pane.0])
            } else {
                None
            },
            None => None,
        }
    }

    pub open spec fn readers_of(self, pane: PaneId) -> ReadersView {
        if self.readers.dom().contains(pane.0) {
            self.readers[pane.0]
        } else {
            ReadersView::start()
        }
    }

    // ── what a pane runs ──

    /// What is put on the screen of a pane before its program starts: nothing.
    pub open spec fn fresh_grid(self, pane: PaneId, size: (u16, u16)) -> PaneView {
        let g = PaneView::start(
            size.0 as int,
            size.1 as int,
            pane_grid::DEFAULT_SCROLLBACK_ROWS as int,
        );
        match self.registry.owner(pane) {
            Some(k) => PaneView {
                grid: crate::grid_model::GridView {
                    blocks: g.grid.blocks.stamp(self.sessions()[k].panes[pane.0].yurai),
                    ..g.grid
                },
                ..g
            },
            None => g,
        }
    }

    pub open spec fn begin_spawn(self, pane: PaneId, size: (u16, u16)) -> MuxView {
        MuxView { grids: self.grids.insert(pane.0, self.fresh_grid(pane, size)), ..self }
    }

    /// The environment of the program of a pane.
    pub open spec fn pane_env(
        self,
        pane: PaneId,
        inherited: Seq<(Seq<char>, Seq<char>)>,
    ) -> Seq<(Seq<char>, Seq<char>)> {
        let (sid, name) = match self.registry.owner(pane) {
            Some(k) => (
                digest::hex(self.sessions()[k].id.0 as nat, 16),
                self.sessions()[k].name,
            ),
            None => (Seq::empty(), Seq::empty()),
        };
        spawn_env::child_env(
            inherited,
            spawn_env::pane_vars(sid, name, pane, self.socket),
            self.env,
        )
    }

    pub open spec fn plan(
        self,
        pane: PaneId,
        shell: Seq<char>,
        args: Seq<Seq<char>>,
        size: (u16, u16),
        inherited: Seq<(Seq<char>, Seq<char>)>,
    ) -> PlanView {
        PlanView {
            pane,
            shell,
            args,
            cwd: self.env.cwd,
            env: self.pane_env(pane, inherited),
            size,
        }
    }

    /// The program of a pane has started; a pane whose session is already gone is
    /// let go at once.
    pub open spec fn spawned(self, pane: PaneId) -> MuxView {
        if self.registry.owner(pane) is Some {
            MuxView { live: self.live.insert(pane.0), ..self }
        } else {
            MuxView {
                live: self.live.remove(pane.0),
                grids: self.grids.remove(pane.0),
                readers: self.readers.remove(pane.0),
                ..self
            }
        }
    }

    /// Terminals, screens and readers of panes are gone.
    pub open spec fn detach(self, panes: Seq<u64>) -> MuxView {
        MuxView {
            live: self.live.difference(panes.to_set()),
            grids: self.grids.remove_keys(panes.to_set()),
            readers: self.readers.remove_keys(panes.to_set()),
            ..self
        }
    }

    /// Panes are gone with what was recorded of them.
    pub open spec fn drop_panes(self, panes: Seq<u64>) -> MuxView {
        MuxView {
            recordings: self.recordings.remove_keys(panes.to_set()),
            ..self.detach(panes)
        }
    }

    // ── sessions ──

    /// A new session, before its first window.
    pub open spec fn opened(self, name: Seq<char>, source: SourceView, now: u64) -> RegistryView {
        let s = self.registry.fresh_session(name, now);
        RegistryView {
            sessions: self.sessions().insert(s.id.0, TearSessionView { source, ..s }),
            count: registry::bump(self.registry.count),
        }
    }

    /// A new session with its first window, whose pane is about to start.
    pub open spec fn new_session(
        self,
        name: Seq<char>,
        spawn: SpawnView,
        source: SourceView,
        now: u64,
    ) -> MuxView {
        let sid = self.registry.fresh_session(name, now).id;
        let r = self.opened(name, source, now);
        let pane = r.first_pane(sid, "main"@, spawn.shell, now);
        (MuxView { registry: r.add_window(sid, "main"@, spawn, now), ..self }).begin_spawn(
            pane,
            spawn.size,
        )
    }

    /// The first pane of the session that [`MuxView::new_session`] makes.
    pub open spec fn new_session_pane(
        self,
        name: Seq<char>,
        shell: Seq<char>,
        source: SourceView,
        now: u64,
    ) -> PaneId {
        let sid = self.registry.fresh_session(name, now).id;
        self.opened(name, source, now).first_pane(sid, "main"@, shell, now)
    }

    pub open spec fn remove_session(self, id: SessionId) -> MuxView {
        MuxView {
            registry: RegistryView {
                sessions: self.registry.sessions.remove(id.0),
                ..self.registry
            },
            ..self
        }
    }

    pub open spec fn kill_session(self, id: SessionId) -> MuxView {
        self.drop_panes(table::ordered(self.sessions()[id.0].panes.dom())).remove_session(id)
    }

    /// A session whose program did not start is gone, with what its panes had.
    pub open spec fn session_failed(self, id: SessionId) -> MuxView {
        if self.sessions().dom().contains(id.0) {
            self.kill_session(id)
        } else {
            self
        }
    }

    /// The panes whose terminals are to be closed when a session goes.
    pub open spec fn closed_with(self, id: SessionId) -> Seq<u64> {
        if self.sessions().dom().contains(id.0) {
            let_go(table::ordered(self.sessions()[id.0].panes.dom()), self.live)
        } else {
            Seq::empty()
        }
    }

    // ── windows ──

    pub open spec fn new_window(
        self,
        session: SessionId,
        name: Seq<char>,
        spawn: SpawnView,
        now: u64,
    ) -> MuxView {
        let pane = self.registry.first_pane(session, name, spawn.shell, now);
        (MuxView {
            registry: self.registry.add_window(session, name, spawn, now),
            ..self
        }).begin_spawn(pane, spawn.size)
    }

    /// A window is closed, with the panes it shows.
    pub open spec fn kill_window(self, k: u64, window: WindowId) -> MuxView {
        let panes = self.sessions()[k].windows[window.0].layout.leaves();
        self.drop_panes(panes).with_session(
            k,
            without_window(self.sessions()[k], window, panes),
        )
    }

    // ── panes ──

    /// The pane that splitting makes.
    pub open spec fn split_pane_id(self, window: WindowId, shell: Seq<char>, now: u64) -> PaneId {
        self.registry.next_pane(window, shell, now)
    }

    pub open spec fn split_pane(
        self,
        sid: SessionId,
        window: WindowId,
        origin: PaneId,
        direction: Direction,
        ratio: u32,
        spawn: SpawnView,
        now: u64,
    ) -> MuxView {
        let added = self.split_pane_id(window, spawn.shell, now);
        (MuxView {
            registry: RegistryView {
                sessions: self.sessions().insert(
                    sid.0,
                    with_split(
                        self.sessions()[sid.0],
                        window,
                        origin,
                        added,
                        direction,
                        ratio,
                        spawn,
                    ),
                ),
                count: registry::bump(self.registry.count),
            },
            ..self
        }).begin_spawn(added, spawn.size)
    }

    /// What is left of a split whose window does not show the pane.
    pub open spec fn split_failed(
        self,
        sid: SessionId,
        window: WindowId,
        shell: Seq<char>,
        now: u64,
    ) -> MuxView {
        let s = self.sessions()[sid.0];
        MuxView {
            registry: RegistryView {
                sessions: self.sessions().insert(
                    sid.0,
                    TearSessionView {
                        panes: s.panes.remove(self.split_pane_id(window, shell, now).0),
                        ..s
                    },
                ),
                count: registry::bump(self.registry.count),
            },
            ..self
        }
    }

    /// A window of a session shows a pane.
    pub open spec fn shows(self, sid: SessionId, window: WindowId, pane: PaneId) -> bool {
        let s = self.sessions()[sid.0];
        s.windows.dom().contains(window.0) && s.windows[window.0].layout.leaves().contains(pane.0)
    }

    /// The arrangement of a window is another.
    pub open spec fn set_layout(self, k: u64, window: WindowId, tree: LayoutNode) -> MuxView {
        let s = self.sessions()[k];
        self.with_session(
            k,
            TearSessionView {
                windows: s.windows.insert(
                    window.0,
                    TearWindowView { layout: tree, ..s.windows[window.0] },
                ),
                ..s
            },
        )
    }

    /// A pane is closed in a window of a session; a window that showed nothing
    /// else closes with it.
    pub open spec fn close_pane(self, sid: SessionId, window: WindowId, pane: PaneId) -> MuxView {
        let s = self.sessions()[sid.0];
        let gone = self.drop_panes(seq![pane.0]);
        if s.windows[window.0].layout == LayoutNode::Leaf(pane) {
            gone.with_session(
                sid.0,
                TearSessionView {
                    panes: s.panes.remove(pane.0),
                    windows: s.windows.remove(window.0),
                    active_window: front_without(s, window),
                    ..s
                },
            )
        } else {
            gone.with_session(sid.0, without_pane(s, window, pane))
        }
    }

    // ── what happens ──

    /// Bytes of a pane's program: onto its screen and into its recording.
    pub open spec fn bytes(self, pane: PaneId, bytes: Seq<u8>, now: u64, ts_ms: u64) -> MuxView {
        MuxView {
            grids: if self.grids.dom().contains(pane.0) {
                self.grids.insert(pane.0, self.grids[pane.0].feed(bytes, now))
            } else {
                self.grids
            },
            recordings: if self.recordings.dom().contains(pane.0) {
                self.recordings.insert(pane.0, self.recordings[pane.0].push(bytes, ts_ms))
            } else {
                self.recordings
            },
            ..self
        }
    }

    /// Bytes of a pane's program, at a time by the wall clock and a point of the
    /// steady clock: a recording that runs takes them at the milliseconds since it
    /// began.
    pub open spec fn bytes_when(
        self,
        pane: PaneId,
        bytes: Seq<u8>,
        t: std::time::SystemTime,
        at: std::time::Instant,
    ) -> MuxView {
        self.bytes(pane, bytes, clock::millis_of(t), self.recordings[pane.0].stamp(at))
    }

    /// A session that is dead is gone with the panes it had.
    pub open spec fn reap(self, id: SessionId) -> MuxView {
        if self.sessions().dom().contains(id.0) && self.sessions()[id.0].dead() {
            self.detach(table::ordered(self.sessions()[id.0].panes.dom())).remove_session(id)
        } else {
            self
        }
    }

    /// The record of a pane says that its program has ended.
    pub open spec fn marked(self, pane: PaneId, code: i32) -> MuxView {
        match self.registry.owner(pane) {
            Some(k) => {
                let s = self.sessions()[k];
                self.with_session(
                    k,
                    TearSessionView {
                        panes: s.panes.insert(
                            pane.0,
                            TearPaneView { state: PaneState::Exited { code }, ..s.panes[pane.0] },
                        ),
                        ..s
                    },
                )
            },
            None => self,
        }
    }

    /// There will be no more bytes of a pane; one that is not known any more has
    /// no readers either.
    pub open spec fn closed(self, pane: PaneId, code: i32, known: bool) -> MuxView {
        MuxView {
            readers: if known {
                self.readers.insert(
                    pane.0,
                    ReadersView { closed: Some(code), senders: Seq::empty() },
                )
            } else {
                self.readers.remove(pane.0)
            },
            ..self
        }
    }

    /// Some other pane of a session is read.
    pub open spec fn read_elsewhere(self, id: SessionId, pane: PaneId) -> bool {
        self.sessions().dom().contains(id.0) && exists|p: u64|
            p != pane.0 && #[trigger] self.sessions()[id.0].panes.dom().contains(p)
                && self.readers.dom().contains(p) && self.readers[p].senders.len() > 0
    }

    /// The session that the end of a pane's program leaves without any program,
    /// unless someone reads it.
    pub open spec fn doomed(self, pane: PaneId, code: i32) -> Option<SessionId> {
        match self.registry.owner(pane) {
            Some(k) => {
                let after = self.marked(pane, code);
                let id = self.sessions()[k].id;
                if after.sessions()[k].all_exited() && self.readers_of(pane).senders.len() == 0
                    && !after.closed(pane, code, true).read_elsewhere(id, pane) {
                    Some(id)
                } else {
                    None
                }
            },
            None => None,
        }
    }

    /// The program of a pane has ended.
    pub open spec fn exit(self, pane: PaneId, code: i32) -> MuxView {
        let known = self.registry.owner(pane) is Some;
        let after = self.marked(pane, code).closed(pane, code, known);
        match self.doomed(pane, code) {
            Some(id) => after.reap(id),
            None => after,
        }
    }
}

} // verus!
