//! A pane's terminal: bytes in, snapshots out.
use crate::apc::{ApcScanner, ApcView};
use crate::blocks::BlockExtractor;
use crate::clock;
use crate::graphics;
use crate::grid::GridState;
use crate::grid_laws;
use crate::grid_model::GridView;
use crate::host_role::HostRole;
use crate::modes::{
    AltScreen, AutoWrap, BracketedPaste, CursorKeys, CursorVisible, FocusReporting, ModeSet,
    MouseSgr, SyncOutput,
};
use crate::pane_snapshot::Cell;
use crate::seqops;
use crate::seqops::{copied, copied_rows};
use crate::snapshot::{clone_graphics, PaneSnapshot, SnapshotView};
use crate::vt;
use crate::vt::VtParser;
use crate::yurai::{clone_opt, Yurai, YuraiView};
use std::collections::VecDeque;
use vstd::prelude::*;

verus! {

/// Rows of history a pane keeps by default: all of them.
pub const DEFAULT_SCROLLBACK_ROWS: usize = usize::MAX;

/// The contents of a [`PaneGrid`].
pub struct PaneView {
    /// What the parser has read, slice by slice.
    pub fed: Seq<Seq<u8>>,
    /// Where the scan for application program commands stands.
    pub apc: ApcView,
    /// The screen.
    pub grid: GridView,
}

impl GridView {
    /// Every mode of the pane.
    pub open spec fn modes(self) -> ModeSet {
        ModeSet {
            bracketed_paste: BracketedPaste { on: self.bracketed_paste },
            cursor_keys: CursorKeys { on: self.cursor_keys_mode },
            focus_reporting: FocusReporting { on: self.focus_reporting },
            sync_output: SyncOutput { on: self.sync_output },
            mouse: self.mouse,
            mouse_sgr: MouseSgr { on: self.mouse_sgr },
            cursor_visible: CursorVisible { on: self.cursor_visible },
            autowrap: AutoWrap { on: self.autowrap },
            alt_screen: AltScreen { on: self.alt_active },
        }
    }

    /// What a snapshot shows. The history goes with the primary screen only.
    pub open spec fn snapshot(self) -> SnapshotView {
        SnapshotView {
            rows: self.rows,
            cols: self.cols,
            cells: self.active(),
            cursor_row: self.cursor_row,
            cursor_col: self.cursor_col,
            alt_screen_active: self.alt_active,
            cursor_visible: self.cursor_visible,
            title: self.title,
            cursor_keys_mode: self.cursor_keys_mode,
            scrollback: if self.alt_active {
                Seq::empty()
            } else {
                self.scrollback
            },
            combining: self.combining,
            modes: self.modes(),
            graphics: self.graphics,
        }
    }
}

impl PaneView {
    /// A fresh pane.
    pub open spec fn start(cols: int, rows: int, cap: int) -> PaneView {
        PaneView {
            fed: Seq::empty(),
            apc: ApcView::start(),
            grid: GridView::start(cols, rows, cap),
        }
    }

    pub open spec fn wf(self) -> bool {
        self.grid.wf() && self.apc.bounded()
    }

    /// What the parser makes of `bytes`; nothing of none.
    pub open spec fn parse(self, bytes: Seq<u8>, now: u64) -> PaneView {
        if bytes.len() == 0 {
            self
        } else {
            PaneView {
                fed: self.fed.push(bytes),
                grid: self.grid.run(vt::vt_events(self.fed, bytes), now),
                ..self
            }
        }
    }

    /// What bytes do that end no application program command before the last
    /// of them: what belongs to no command is parsed and carried out, and then a
    /// command that ended is taken in.
    pub open spec fn feed_piece(self, bytes: Seq<u8>, now: u64) -> PaneView {
        let out = self.apc.output(bytes);
        let parsed = self.parse(out.pass, now);
        PaneView {
            apc: self.apc.after(bytes),
            grid: parsed.grid.ingest_all(out.done),
            ..parsed
        }
    }

    /// What `bytes` read at `now` do: application program commands are lifted
    /// out, each is taken in where it ends, and the rest is parsed and carried
    /// out.
    pub open spec fn feed(self, bytes: Seq<u8>, now: u64) -> PaneView
        decreases bytes.len(),
    {
        if bytes.len() == 0 {
            self
        } else {
            let p = self.apc.state.piece(bytes);
            let n = if 0 < p <= bytes.len() {
                p
            } else {
                bytes.len() as int
            };
            self.feed_piece(bytes.take(n), now).feed(bytes.skip(n), now)
        }
    }
}

/// A pane's terminal: the parser, and the screen it drives.
pub struct PaneGrid {
    parser: VtParser,
    state: GridState,
    apc: ApcScanner,
}

fn rows_of(d: &VecDeque<Vec<Cell>>) -> (r: Vec<Vec<Cell>>)
    ensures
        seqops::views(r@) == seqops::views(d@),
{
    let mut r: Vec<Vec<Cell>> = Vec::with_capacity(d.len());
    let mut i: usize = 0;
    while i < d.len()
        invariant
            i <= d@.len(),
            r@.len() == i,
            forall|j: int| 0 <= j < i ==> (#[trigger] r@[j])@ == d@[j]@,
        decreases d@.len() - i,
    {
        r.push(copied(&d[i]));
        i = i + 1;
    }
    assert(seqops::views(r@) =~= seqops::views(d@));
    r
}

impl PaneGrid {
    pub closed spec fn view(self) -> PaneView {
        PaneView { fed: self.parser@, apc: self.apc@, grid: self.state@ }
    }

    pub open spec fn wf(self) -> bool {
        self@.wf()
    }

    /// A pane that keeps its whole history.
    pub fn new(cols: usize, rows: usize) -> (g: PaneGrid)
        ensures
            g@ == PaneView::start(cols as int, rows as int, DEFAULT_SCROLLBACK_ROWS as int),
            g.wf(),
    {
        PaneGrid::with_scrollback(cols, rows, DEFAULT_SCROLLBACK_ROWS)
    }

    /// A pane that keeps at most `scrollback_cap` rows of history.
    pub fn with_scrollback(cols: usize, rows: usize, scrollback_cap: usize) -> (g: PaneGrid)
        ensures
            g@ == PaneView::start(cols as int, rows as int, scrollback_cap as int),
            g.wf(),
    {
        PaneGrid {
            parser: VtParser::new(),
            state: GridState::new(cols, rows, scrollback_cap),
            apc: ApcScanner::default(),
        }
    }

    /// Advances the terminal by `bytes`, with the clock read for the time
    /// stamps of prompt marks.
    pub fn feed(&mut self, bytes: &[u8])
        requires
            old(self).wf(),
        ensures
            exists|t: std::time::SystemTime|
                final(self)@ == #[trigger] old(self)@.feed(bytes@, clock::millis_of(t)),
            final(self).wf(),
    {
        let ghost before = self@;
        let t = std::time::SystemTime::now();
        self.feed_at(bytes, clock::millis_at(t));
        assert(self@ == before.feed(bytes@, clock::millis_of(t)));
    }

    /// Advances the terminal by `bytes` read at `now`.
    pub fn feed_at(&mut self, bytes: &[u8], now: u64)
        requires
            old(self).wf(),
        ensures
            final(self)@ == old(self)@.feed(bytes@, now),
            final(self).wf(),
            grid_laws::same_frame(old(self)@.grid, final(self)@.grid),
    {
        let ghost start = self@;
        let mut i: usize = 0;
        assert(bytes@.skip(0) =~= bytes@);
        while i < bytes.len()
            invariant
                i <= bytes@.len(),
                self.wf(),
                grid_laws::same_frame(start.grid, self@.grid),
                start.feed(bytes@, now) == self@.feed(bytes@.skip(i as int), now),
            decreases bytes@.len() - i,
        {
            let ghost rest = bytes@.skip(i as int);
            let n: usize = self.apc.piece(bytes, i);
            let part = vstd::slice::slice_subrange(bytes, i, i + n);
            proof {
                assert(part@ =~= rest.take(n as int));
                assert(rest.skip(n as int) =~= bytes@.skip(i + n));
            }
            self.feed_piece(part, now);
            i = i + n;
        }
    }

    fn feed_piece(&mut self, bytes: &[u8], now: u64)
        requires
            old(self).wf(),
        ensures
            final(self)@ == old(self)@.feed_piece(bytes@, now),
            final(self).wf(),
            grid_laws::same_frame(old(self)@.grid, final(self)@.grid),
    {
        proof {
            let out = self.apc@.output(bytes@);
            let evs = vt::vt_events(self.parser@, out.pass);
            grid_laws::lemma_run_wf(self.state@, evs, now);
            grid_laws::lemma_ingest_all_wf(self@.parse(out.pass, now).grid, out.done);
        }
        let (passthrough, apcs) = self.apc.split(bytes);
        if passthrough.len() > 0 {
            let events = self.parser.advance(passthrough.as_slice());
            self.state.perform_all(&events, now);
        }
        self.state.ingest_all(&apcs);
    }

    /// Every mode of the pane at one instant.
    pub fn modes(&self) -> (m: ModeSet)
        ensures
            m == self@.grid.modes(),
    {
        let s = &self.state;
        ModeSet {
            bracketed_paste: BracketedPaste::new(s.bracketed_paste),
            cursor_keys: CursorKeys::new(s.cursor_keys_mode),
            focus_reporting: FocusReporting::new(s.focus_reporting),
            sync_output: SyncOutput::new(s.sync_output),
            mouse: s.mouse,
            mouse_sgr: MouseSgr::new(s.mouse_sgr),
            cursor_visible: CursorVisible::new(s.cursor_visible),
            autowrap: AutoWrap::new(s.autowrap),
            alt_screen: AltScreen::new(s.alt_active),
        }
    }

    /// Sets who answers queries on this pane.
    pub fn set_host_role(&mut self, role: HostRole)
        ensures
            final(self)@ == (PaneView {
                grid: GridView { role, ..old(self)@.grid },
                ..old(self)@
            }),
            old(self).wf() ==> final(self).wf(),
    {
        self.state.role = role;
    }

    /// Takes the reply bytes owed to the child.
    pub fn take_response(&mut self) -> (r: Option<Vec<u8>>)
        ensures
            match r {
                Some(bytes) => bytes@.len() > 0 && bytes@ == old(self)@.grid.response,
                None => old(self)@.grid.response.len() == 0,
            },
            final(self)@ == (PaneView {
                grid: GridView { response: Seq::empty(), ..old(self)@.grid },
                ..old(self)@
            }),
            old(self).wf() ==> final(self).wf(),
    {
        if self.state.pending_response.len() == 0 {
            assert(self.state.pending_response@ =~= Seq::<u8>::empty());
            None
        } else {
            let mut taken: Vec<u8> = Vec::new();
            std::mem::swap(&mut taken, &mut self.state.pending_response);
            Some(taken)
        }
    }

    /// The pane as a client sees it.
    pub fn snapshot(&self) -> (s: PaneSnapshot)
        ensures
            s@ == self@.grid.snapshot(),
    {
        let cells = copied_rows(self.state.active_rows());
        let scrollback = if self.state.alt_active {
            Vec::new()
        } else {
            rows_of(&self.state.scrollback)
        };
        let s = PaneSnapshot {
            rows: self.state.rows,
            cols: self.state.cols,
            cells,
            cursor_row: self.state.cursor_row,
            cursor_col: self.state.cursor_col,
            alt_screen_active: self.state.alt_active,
            cursor_visible: self.state.cursor_visible,
            title: clone_opt(&self.state.title),
            cursor_keys_mode: self.state.cursor_keys_mode,
            scrollback,
            combining: copied_rows(&self.state.combining),
            modes: self.modes(),
            graphics: clone_graphics(&self.state.graphics),
        };
        assert(self.state.alt_active ==> seqops::views(s.scrollback@) =~= Seq::empty());
        s
    }

    /// The title last set.
    pub fn title(&self) -> (r: Option<&str>)
        ensures
            match r {
                Some(s) => self@.grid.title == Some(s@),
                None => self@.grid.title is None,
            },
    {
        match &self.state.title {
            Some(s) => Some(s.as_str()),
            None => None,
        }
    }

    /// Stamps the pane's provenance on every block it mints, once. Returns
    /// whether this call took effect.
    pub fn stamp_yurai(&mut self, y: Yurai) -> (took: bool)
        ensures
            final(self)@ == (PaneView {
                grid: GridView { blocks: old(self)@.grid.blocks.stamp(y@), ..old(self)@.grid },
                ..old(self)@
            }),
            took == (old(self)@.grid.blocks.yurai == YuraiView::Unknown),
            old(self).wf() ==> final(self).wf(),
    {
        self.state.blocks.stamp_yurai(y)
    }

    /// The provenance every block carries.
    pub fn yurai(&self) -> (r: &Yurai)
        ensures
            r@ == self@.grid.blocks.yurai,
    {
        self.state.blocks.yurai()
    }

    /// The blocks of this pane.
    pub fn blocks(&self) -> (r: &BlockExtractor)
        ensures
            r@ == self@.grid.blocks,
    {
        &self.state.blocks
    }

    /// Whether arrow keys are sent in their application form.
    pub fn cursor_keys_mode(&self) -> (b: bool)
        ensures
            b == self@.grid.cursor_keys_mode,
    {
        self.state.cursor_keys_mode
    }

    /// Rows of history kept.
    pub fn scrollback_len(&self) -> (n: usize)
        ensures
            n == self@.grid.scrollback.len(),
    {
        self.state.scrollback.len()
    }

    /// Brings the pane to a new size.
    pub fn resize(&mut self, cols: usize, rows: usize)
        requires
            old(self).wf(),
        ensures
            final(self)@ == (PaneView {
                grid: old(self)@.grid.resize(cols as int, rows as int),
                ..old(self)@
            }),
            final(self).wf(),
            final(self)@.grid.rows == rows,
            final(self)@.grid.cols == cols,
    {
        proof {
            grid_laws::lemma_resize_wf(self.state@, cols as int, rows as int);
        }
        self.state.resize(cols, rows);
    }
}

} // verus!
