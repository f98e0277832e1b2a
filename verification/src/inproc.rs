//! The multiplexer: sessions, screens, readers and recordings.
//!
//! Terminals are not held here. An operation that needs one says so in what it
//! returns, and is told later what came of it.
use crate::block;
use crate::block::Block;
use crate::blocks;
use crate::clock;
use crate::control::{ControlError, ControlErrorView, ControlResult};
use crate::genesis;
use crate::id::PaneId;
use crate::inproc_model;
use crate::inproc_model::{MuxView, PlanView, ReadersView};
use crate::pane;
use crate::pane_grid;
use crate::pane_grid::{PaneGrid, PaneView};
use crate::recording::PaneRecording;
use crate::registry::Registry;
use crate::snapshot::PaneSnapshot;
use crate::spawn_env::SpawnEnv;
use crate::table::Table;
use crate::text::push_decimal;
use crate::yurai;
use crate::yurai::Yurai;
use vstd::prelude::*;
use vstd::string::StringExecFns;

verus! {

/// The screen of a pane, always in order.
pub struct GridSlot {
    grid: PaneGrid,
}

impl View for GridSlot {
    type V = PaneView;

    closed spec fn view(&self) -> PaneView {
        self.grid@
    }
}

impl GridSlot {
    #[verifier::type_invariant]
    spec fn in_order(self) -> bool {
        self.grid@.wf()
    }

    /// An empty screen of a size.
    pub fn new(size: (u16, u16)) -> (r: GridSlot)
        ensures
            r@ == PaneView::start(
                size.0 as int,
                size.1 as int,
                pane_grid::DEFAULT_SCROLLBACK_ROWS as int,
            ),
    {
        GridSlot { grid: PaneGrid::new(size.0 as usize, size.1 as usize) }
    }

    /// The screen with a provenance for what it shows.
    pub fn stamped(self, y: Yurai) -> (r: GridSlot)
        ensures
            r@ == (PaneView {
                grid: crate::grid_model::GridView {
                    blocks: self@.grid.blocks.stamp(y@),
                    ..self@.grid
                },
                ..self@
            }),
    {
        proof {
            use_type_invariant(&self);
        }
        let mut g = self.grid;
        let _ = g.stamp_yurai(y);
        GridSlot { grid: g }
    }

    /// The screen after bytes at a time.
    pub fn fed(self, bytes: &[u8], now: u64) -> (r: GridSlot)
        ensures
            r@ == self@.feed(bytes@, now),
    {
        proof {
            use_type_invariant(&self);
        }
        let mut g = self.grid;
        g.feed_at(bytes, now);
        GridSlot { grid: g }
    }

    /// The screen at a new size.
    pub fn resized(self, cols: u16, rows: u16) -> (r: GridSlot)
        ensures
            r@ == (PaneView { grid: self@.grid.resize(cols as int, rows as int), ..self@ }),
    {
        proof {
            use_type_invariant(&self);
        }
        let mut g = self.grid;
        g.resize(cols as usize, rows as usize);
        GridSlot { grid: g }
    }

    /// The screen.
    pub fn grid(&self) -> (r: &PaneGrid)
        ensures
            r@ == self@,
            r.wf(),
    {
        proof {
            use_type_invariant(self);
        }
        &self.grid
    }
}

/// Who reads the bytes of a pane.
#[derive(Debug, PartialEq, Eq)]
pub struct PaneSubscribers {
    pub closed: Option<i32>,
    pub senders: Vec<u64>,
}

impl View for PaneSubscribers {
    type V = ReadersView;

    open spec fn view(&self) -> ReadersView {
        ReadersView { closed: self.closed, senders: self.senders@ }
    }
}

impl PaneSubscribers {
    pub fn new() -> (r: PaneSubscribers)
        ensures
            r@ == ReadersView::start(),
    {
        let r = PaneSubscribers { closed: None, senders: Vec::new() };
        assert(r@.senders =~= Seq::empty());
        r
    }
}

/// A reader of the bytes of a pane.
#[derive(Debug, Clone, Copy, PartialEq, Eq, Structural)]
pub struct Subscription {
    /// The number of the reader.
    pub token: u64,
    /// False for a pane whose program has ended: nothing will come.
    pub open: bool,
}

/// What starts the program of a pane.
#[derive(Debug, PartialEq, Eq)]
pub struct SpawnPlan {
    pub pane: PaneId,
    pub shell: String,
    pub args: Vec<String>,
    pub cwd: Option<String>,
    pub env: Vec<(String, String)>,
    pub size: (u16, u16),
}

impl View for SpawnPlan {
    type V = PlanView;

    open spec fn view(&self) -> PlanView {
        PlanView {
            pane: self.pane,
            shell: self.shell@,
            args: genesis::texts(self.args@),
            cwd: yurai::opt_text(self.cwd),
            env: pane::pairs(self.env@),
            size: self.size,
        }
    }
}

/// The multiplexer.
pub struct InProcess {
    pub registry: Registry,
    pub live: Table<u64>,
    pub grids: Table<GridSlot>,
    pub readers: Table<PaneSubscribers>,
    pub recordings: Table<PaneRecording>,
    pub socket: Option<String>,
    pub env: SpawnEnv,
    pub token: u64,
}

impl View for InProcess {
    type V = MuxView;

    open spec fn view(&self) -> MuxView {
        MuxView {
            registry: self.registry@,
            live: self.live@.dom(),
            grids: self.grids@,
            readers: self.readers@,
            recordings: self.recordings@,
            socket: yurai::opt_text(self.socket),
            env: self.env@,
            token: self.token,
        }
    }
}

impl InProcess {
    /// A multiplexer without sessions.
    pub fn new() -> (r: InProcess)
        ensures
            r@ == MuxView::start(),
    {
        let r = InProcess {
            registry: Registry::new(),
            live: Table::new(),
            grids: Table::new(),
            readers: Table::new(),
            recordings: Table::new(),
            socket: None,
            env: SpawnEnv::none(),
            token: 0,
        };
        assert(r@.live =~= Set::empty());
        r
    }

    /// What goes on top of every program's environment from now on.
    pub fn set_spawn_env(&mut self, env: SpawnEnv)
        ensures
            final(self)@ == (MuxView { env: env@, ..old(self)@ }),
    {
        self.env = env;
    }

    /// Where programs are started.
    pub fn spawn_cwd(&self) -> (r: Option<String>)
        ensures
            yurai::opt_text(r) == self@.env.cwd,
    {
        yurai::clone_opt(&self.env.cwd)
    }

    /// The socket that programs find the daemon at.
    pub fn set_socket_path(&mut self, path: String)
        ensures
            final(self)@ == (MuxView { socket: Some(path@), ..old(self)@ }),
    {
        self.socket = Some(path);
    }

    pub fn socket_path(&self) -> (r: Option<String>)
        ensures
            yurai::opt_text(r) == self@.socket,
    {
        yurai::clone_opt(&self.socket)
    }

    /// The sessions.
    pub fn registry(&self) -> (r: &Registry)
        ensures
            r@ == self@.registry,
    {
        &self.registry
    }

    /// The size of a pane that some window shows.
    fn shown_size(&self, pane: PaneId) -> (r: Option<(u16, u16)>)
        ensures
            match r {
                Some(size) => self@.shown_pane(pane) is Some && size == self@.shown_pane(
                    pane,
                )->0.size_cells,
                None => self@.shown_pane(pane) is None,
            },
    {
        match self.registry.locate_pane(pane) {
            Some((sid, _)) => match self.registry.sessions.get(sid.0) {
                Some(s) => match s.panes.get(pane.0) {
                    Some(p) => Some(p.size_cells),
                    None => None,
                },
                None => None,
            },
            None => None,
        }
    }

    /// Starts recording a pane anew.
    pub fn enable_pane_recording(&mut self, pane: PaneId) -> (r: ControlResult<()>)
        ensures
            match r {
                Ok(()) => old(self)@.shown_pane(pane) is Some && exists|
                    at: std::time::Instant,
                    t: std::time::SystemTime,
                |
                    final(self)@ == #[trigger] recording_on(
                        old(self)@,
                        pane,
                        at,
                        clock::millis_of(t),
                    ),
                Err(e) => old(self)@.shown_pane(pane) is None && e@
                    == ControlErrorView::NoSuchPane(pane) && final(self)@ == old(self)@,
            },
    {
        let (cols, rows) = match self.shown_size(pane) {
            Some(size) => size,
            None => {
                return Err(ControlError::NoSuchPane(pane));
            },
        };
        let ghost before = self@.recordings;
        let mut rec = match self.recordings.remove(pane.0) {
            Some(rec) => rec,
            None => PaneRecording::default(),
        };
        let ghost rv = rec@;
        rec.enable(cols, rows);
        let ghost (at, t) = choose|at: std::time::Instant, t: std::time::SystemTime|
            rec@ == #[trigger] rv.enable(cols, rows, at, clock::millis_of(t));
        self.recordings.insert(pane.0, rec);
        proof {
            crate::lookup::lemma_put_back(before, pane.0, rec@);
            assert(self@ == recording_on(old(self)@, pane, at, clock::millis_of(t)));
        }
        Ok(())
    }

    /// Stops recording a pane; what was recorded stays.
    pub fn disable_pane_recording(&mut self, pane: PaneId) -> (r: ControlResult<()>)
        ensures
            match r {
                Ok(()) => old(self)@.recordings.dom().contains(pane.0) && final(self)@ == (
                MuxView {
                    recordings: old(self)@.recordings.insert(
                        pane.0,
                        old(self)@.recordings[pane.0].disable(),
                    ),
                    ..old(self)@
                }),
                Err(e) => !old(self)@.recordings.dom().contains(pane.0) && e@
                    == ControlErrorView::NoSuchPane(pane) && final(self)@ == old(self)@,
            },
    {
        let ghost before = self@.recordings;
        match self.recordings.remove(pane.0) {
            Some(rec) => {
                let mut rec = rec;
                rec.disable();
                self.recordings.insert(pane.0, rec);
                proof {
                    crate::lookup::lemma_put_back(before, pane.0, rec@);
                }
                Ok(())
            },
            None => Err(ControlError::NoSuchPane(pane)),
        }
    }

    /// The recording of a pane as text, which is empty as long as nothing was
    /// captured.
    pub fn export_pane_recording(&self, pane: PaneId, shell: &str, now: u64) -> (r: ControlResult<
        String,
    >)
        ensures
            match r {
                Ok(s) => exportable(self@, pane) && s@ == exported(self@, pane, shell@, now),
                Err(e) => !exportable(self@, pane) && e@ == ControlErrorView::NoSuchPane(pane),
            },
    {
        match self.recordings.get(pane.0) {
            Some(rec) => if rec.event_count() > 0 {
                Ok(rec.to_cast_json(shell, now))
            } else {
                let none = String::new();
                assert(none@ =~= Seq::empty());
                Ok(none)
            },
            None => if self.shown_size(pane).is_some() {
                let none = String::new();
                assert(none@ =~= Seq::empty());
                Ok(none)
            } else {
                Err(ControlError::NoSuchPane(pane))
            },
        }
    }

    /// Whether a pane is recorded, and how many chunks are held.
    pub fn pane_recording_status(&self, pane: PaneId) -> (r: ControlResult<(bool, u32)>)
        ensures
            r matches Ok((on, n)) && on == (self@.recordings.dom().contains(pane.0)
                && self@.recordings[pane.0].anchor is Some) && n
                == if self@.recordings.dom().contains(pane.0) {
                self@.recordings[pane.0].events.len() % 0x1_0000_0000
            } else {
                0
            },
    {
        match self.recordings.get(pane.0) {
            Some(rec) => Ok((rec.is_enabled(), low_u32(rec.event_count()))),
            None => Ok((false, 0)),
        }
    }

    /// Up to `limit` finished blocks of a pane from an index on, oldest first.
    pub fn pane_blocks_list(&self, pane: PaneId, since_index: u64, limit: u32) -> (r: ControlResult<
        Vec<Block>,
    >)
        ensures
            match r {
                Ok(v) => self@.grids.dom().contains(pane.0) && block::blocks_view(v@)
                    == listed_blocks(self@.grids[pane.0], since_index, limit),
                Err(e) => !self@.grids.dom().contains(pane.0) && e@
                    == ControlErrorView::NoSuchPane(pane),
            },
    {
        let slot = match self.grids.get(pane.0) {
            Some(slot) => slot,
            None => {
                return Err(ControlError::NoSuchPane(pane));
            },
        };
        let all = slot.grid().blocks().iter();
        let ghost views = slot@.grid.blocks.blocks;
        let mut out: Vec<Block> = Vec::new();
        let mut i: usize = 0;
        assert(views.take(0) =~= Seq::<crate::block::BlockView>::empty());
        assert(block::blocks_view(out@) =~= listed(views.take(0), since_index, limit as int));
        while i < all.len()
            invariant
                i <= all@.len() == views.len(),
                forall|j: int| 0 <= j < all@.len() ==> (#[trigger] all@[j])@ == views[j],
                block::blocks_view(out@) == listed(views.take(i as int), since_index, limit as int),
            decreases all@.len() - i,
        {
            let b = all[i];
            let ghost before = out@;
            proof {
                let longer = views.take(i as int + 1);
                assert(longer.drop_last() =~= views.take(i as int));
                assert(longer.last() == b@);
                lemma_listed_step(views.take(i as int), b@, since_index, limit as int);
                assert(longer =~= views.take(i as int).push(b@));
            }
            if b.index >= since_index && out.len() < limit as usize {
                let copy = b.clone();
                out.push(copy);
                assert(block::blocks_view(out@) =~= block::blocks_view(before).push(copy@));
            }
            i = i + 1;
        }
        assert(views.take(i as int) =~= views);
        Ok(out)
    }

    /// The oldest kept block of a pane with the given index.
    pub fn pane_block_at(&self, pane: PaneId, index: u64) -> (r: ControlResult<Block>)
        ensures
            match r {
                Ok(b) => self@.grids.dom().contains(pane.0) && blocks::is_oldest(
                    self@.grids[pane.0].grid.blocks.blocks,
                    index,
                    b@,
                ),
                Err(e) => if self@.grids.dom().contains(pane.0) {
                    &&& e@ == ControlErrorView::Rejected(inproc_model::no_block_text(index))
                    &&& forall|i: int|
                        0 <= i < self@.grids[pane.0].grid.blocks.blocks.len() ==> (
                        #[trigger] self@.grids[pane.0].grid.blocks.blocks[i]).index != index
                } else {
                    e@ == ControlErrorView::NoSuchPane(pane)
                },
            },
    {
        match self.grids.get(pane.0) {
            Some(slot) => match slot.grid().blocks().get(index) {
                Some(b) => Ok(b.clone()),
                None => {
                    let mut s = String::from_str("no block at index ");
                    push_decimal(&mut s, index as u128);
                    s.append(" (oldest evicted or never existed)");
                    assert(s@ =~= inproc_model::no_block_text(index));
                    Err(ControlError::Rejected(s))
                },
            },
            None => Err(ControlError::NoSuchPane(pane)),
        }
    }

    /// How many blocks a pane has finished, and whether one is open.
    pub fn pane_blocks_status(&self, pane: PaneId) -> (r: ControlResult<(u32, bool)>)
        ensures
            match r {
                Ok((n, open)) => self@.grids.dom().contains(pane.0) && n
                    == self@.grids[pane.0].grid.blocks.blocks.len() % 0x1_0000_0000 && open == (
                self@.grids[pane.0].grid.blocks.current is Some),
                Err(e) => !self@.grids.dom().contains(pane.0) && e@
                    == ControlErrorView::NoSuchPane(pane),
            },
    {
        match self.grids.get(pane.0) {
            Some(slot) => {
                let b = slot.grid().blocks();
                Ok((low_u32(b.len()), b.current().is_some()))
            },
            None => Err(ControlError::NoSuchPane(pane)),
        }
    }

    /// A new reader of the bytes of a pane. One whose program has ended gets a
    /// reader to whom nothing will come, and who is not kept.
    pub fn subscribe_pane_bytes(&mut self, pane: PaneId) -> (r: ControlResult<Subscription>)
        ensures
            match r {
                Ok(sub) => {
                    let rs = old(self)@.readers_of(pane);
                    &&& old(self)@.live.contains(pane.0)
                    &&& sub.token == old(self)@.token
                    &&& sub.open == (rs.closed is None)
                    &&& final(self)@ == subscribed(old(self)@, pane)
                },
                Err(e) => !old(self)@.live.contains(pane.0) && e@
                    == ControlErrorView::NoSuchPane(pane) && final(self)@ == old(self)@,
            },
    {
        if !self.live.contains_key(pane.0) {
            return Err(ControlError::NoSuchPane(pane));
        }
        let ghost before = self@.readers;
        let mut rs = match self.readers.remove(pane.0) {
            Some(rs) => rs,
            None => PaneSubscribers::new(),
        };
        let token: u64 = self.token;
        self.token = if token == u64::MAX {
            0
        } else {
            token + 1
        };
        let open = rs.closed.is_none();
        if open {
            rs.senders.push(token);
        }
        self.readers.insert(pane.0, rs);
        proof {
            crate::lookup::lemma_put_back(before, pane.0, rs@);
        }
        Ok(Subscription { token, open })
    }

    /// How many readers a pane has.
    pub fn pane_subscriber_count(&self, pane: PaneId) -> (r: ControlResult<u32>)
        ensures
            r matches Ok(n) && n == self@.readers_of(pane).senders.len() % 0x1_0000_0000,
    {
        match self.readers.get(pane.0) {
            Some(rs) => Ok(low_u32(rs.senders.len())),
            None => Ok(0),
        }
    }

    /// What a pane shows.
    pub fn pane_snapshot(&self, pane: PaneId) -> (r: ControlResult<PaneSnapshot>)
        ensures
            match r {
                Ok(s) => self@.grids.dom().contains(pane.0) && s@
                    == self@.grids[pane.0].grid.snapshot(),
                Err(e) => !self@.grids.dom().contains(pane.0) && e@
                    == ControlErrorView::NoSuchPane(pane),
            },
    {
        match self.grids.get(pane.0) {
            Some(slot) => Ok(slot.grid().snapshot()),
            None => Err(ControlError::NoSuchPane(pane)),
        }
    }

    /// Whether a pane wants arrow keys in their application form.
    pub fn pane_cursor_keys_mode(&self, pane: PaneId) -> (r: ControlResult<bool>)
        ensures
            match r {
                Ok(b) => self@.grids.dom().contains(pane.0) && b
                    == self@.grids[pane.0].grid.cursor_keys_mode,
                Err(e) => !self@.grids.dom().contains(pane.0) && e@
                    == ControlErrorView::NoSuchPane(pane),
            },
    {
        match self.grids.get(pane.0) {
            Some(slot) => Ok(slot.grid().cursor_keys_mode()),
            None => Err(ControlError::NoSuchPane(pane)),
        }
    }
}

/// The low 32 bits of a count.
fn low_u32(n: usize) -> (r: u32)
    ensures
        r == n as nat % 0x1_0000_0000,
{
    ((n as u64) % 0x1_0000_0000) as u32
}

/// Whether a pane was recorded, or is there to be.
pub open spec fn exportable(m: MuxView, pane: PaneId) -> bool {
    m.recordings.dom().contains(pane.0) || m.shown_pane(pane) is Some
}

/// What was captured of a pane, as text; empty where nothing was.
pub open spec fn exported(m: MuxView, pane: PaneId, shell: Seq<char>, now: u64) -> Seq<char> {
    if m.recordings.dom().contains(pane.0) && m.recordings[pane.0].events.len() > 0 {
        m.recordings[pane.0].cast(shell, now)
    } else {
        Seq::empty()
    }
}

/// The state with one more reader of a pane, who is kept unless the program of
/// the pane has ended.
pub open spec fn subscribed(m: MuxView, pane: PaneId) -> MuxView {
    let rs = m.readers_of(pane);
    MuxView {
        token: crate::registry::bump(m.token),
        readers: m.readers.insert(
            pane.0,
            if rs.closed is None {
                ReadersView { senders: rs.senders.push(m.token), ..rs }
            } else {
                rs
            },
        ),
        ..m
    }
}

/// The state with a pane recorded anew since a time.
pub open spec fn recording_on(
    m: MuxView,
    pane: PaneId,
    at: std::time::Instant,
    unix_ms: u64,
) -> MuxView {
    let size = m.shown_pane(pane)->0.size_cells;
    let rec = if m.recordings.dom().contains(pane.0) {
        m.recordings[pane.0]
    } else {
        crate::recording::RecordingView::start(crate::recording::DEFAULT_MAX_EVENTS as int)
    };
    MuxView {
        recordings: m.recordings.insert(pane.0, rec.enable(size.0, size.1, at, unix_ms)),
        ..m
    }
}

/// The first `limit` blocks from an index on.
pub open spec fn listed(
    s: Seq<crate::block::BlockView>,
    since: u64,
    limit: int,
) -> Seq<crate::block::BlockView> {
    let all = inproc_model::blocks_from(s, since);
    if all.len() <= limit {
        all
    } else {
        all.take(limit)
    }
}

/// The blocks of a screen that a listing shows.
pub open spec fn listed_blocks(g: PaneView, since: u64, limit: u32) -> Seq<crate::block::BlockView> {
    listed(g.grid.blocks.blocks, since, limit as int)
}

proof fn lemma_listed_step(
    s: Seq<crate::block::BlockView>,
    b: crate::block::BlockView,
    since: u64,
    limit: int,
)
    requires
        limit >= 0,
    ensures
        listed(s.push(b), since, limit) == if b.index >= since && listed(s, since, limit).len()
            < limit {
            listed(s, since, limit).push(b)
        } else {
            listed(s, since, limit)
        },
{
    let longer = s.push(b);
    assert(longer.drop_last() =~= s);
    let all = inproc_model::blocks_from(s, since);
    if b.index >= since {
        let more = all.push(b);
        if all.len() > limit {
            assert(more.take(limit) =~= all.take(limit));
        } else if all.len() == limit {
            assert(more.take(limit) =~= all);
        }
    }
}

impl Default for InProcess {
    fn default() -> (r: InProcess)
        ensures
            r@ == MuxView::start(),
    {
        InProcess::new()
    }
}

} // verus!
