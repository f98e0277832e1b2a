//! Sessions and their windows.
use crate::freio::{Admission, Freio, RefusalReason};
use crate::id::{PaneId, SessionId, WindowId};
use crate::layout::LayoutNode;
use crate::pane::{InputPolicy, PaneState, TearPane, TearPaneView};
use crate::table;
use crate::table::{Duplicate, Table};
use vstd::prelude::*;

verus! {

/// Who started a session.
#[derive(Debug, PartialEq, Eq)]
pub enum SessionSource {
    Human,
    Agent,
    /// An automation that gave its name.
    Named(String),
}

/// The contents of a [`SessionSource`].
#[verifier::ext_equal]
pub enum SourceView {
    Human,
    Agent,
    Named(Seq<char>),
}

impl View for SessionSource {
    type V = SourceView;

    open spec fn view(&self) -> SourceView {
        match self {
            SessionSource::Human => SourceView::Human,
            SessionSource::Agent => SourceView::Agent,
            SessionSource::Named(s) => SourceView::Named(s@),
        }
    }
}

impl Default for SessionSource {
    fn default() -> (r: SessionSource)
        ensures
            r@ == SourceView::Human,
    {
        SessionSource::Human
    }
}

impl Clone for SessionSource {
    fn clone(&self) -> (r: SessionSource)
        ensures
            r@ == self@,
    {
        match self {
            SessionSource::Human => SessionSource::Human,
            SessionSource::Agent => SessionSource::Agent,
            SessionSource::Named(s) => SessionSource::Named(s.clone()),
        }
    }
}

impl SourceView {
    pub open spec fn label(self) -> Seq<char> {
        match self {
            SourceView::Human => "human"@,
            SourceView::Agent => "agent"@,
            SourceView::Named(s) => s,
        }
    }
}

impl SessionSource {
    /// The name under which a session is listed.
    pub fn label(&self) -> (r: &str)
        ensures
            r@ == self@.label(),
    {
        match self {
            SessionSource::Human => "human",
            SessionSource::Agent => "agent",
            SessionSource::Named(s) => s.as_str(),
        }
    }

    pub fn is_human(&self) -> (b: bool)
        ensures
            b == (self@ == SourceView::Human),
    {
        match self {
            SessionSource::Human => true,
            _ => false,
        }
    }
}

#[derive(Debug, Clone, Copy, PartialEq, Eq, Structural)]
pub enum WindowState {
    Active,
}

#[derive(Debug, Clone, Copy, PartialEq, Eq, Structural)]
pub enum SessionState {
    Active,
}

/// One window.
#[derive(Debug, PartialEq, Eq)]
pub struct TearWindow {
    pub id: WindowId,
    pub name: String,
    pub layout: LayoutNode,
    pub active_pane: PaneId,
    /// Columns and rows.
    pub size_cells: (u16, u16),
    pub state: WindowState,
}

/// The contents of a [`TearWindow`].
#[verifier::ext_equal]
pub struct TearWindowView {
    pub id: WindowId,
    pub name: Seq<char>,
    pub layout: LayoutNode,
    pub active_pane: PaneId,
    pub size_cells: (u16, u16),
    pub state: WindowState,
}

impl View for TearWindow {
    type V = TearWindowView;

    open spec fn view(&self) -> TearWindowView {
        TearWindowView {
            id: self.id,
            name: self.name@,
            layout: self.layout,
            active_pane: self.active_pane,
            size_cells: self.size_cells,
            state: self.state,
        }
    }
}

impl Clone for TearWindow {
    fn clone(&self) -> (r: TearWindow)
        ensures
            r@ == self@,
    {
        TearWindow {
            id: self.id,
            name: self.name.clone(),
            layout: self.layout.clone(),
            active_pane: self.active_pane,
            size_cells: self.size_cells,
            state: self.state,
        }
    }
}

impl Duplicate for TearWindow {
    fn duplicate(&self) -> (r: TearWindow) {
        self.clone()
    }
}

/// One session.
#[derive(Debug, PartialEq, Eq)]
pub struct TearSession {
    pub id: SessionId,
    pub name: String,
    pub windows: Table<TearWindow>,
    pub panes: Table<TearPane>,
    pub active_window: WindowId,
    pub state: SessionState,
    pub created_at_unix: u64,
    pub description: String,
    pub source: SessionSource,
    pub freio: Freio,
}

/// The contents of a [`TearSession`].
#[verifier::ext_equal]
pub struct TearSessionView {
    pub id: SessionId,
    pub name: Seq<char>,
    pub windows: Map<u64, TearWindowView>,
    pub panes: Map<u64, TearPaneView>,
    pub active_window: WindowId,
    pub state: SessionState,
    pub created_at_unix: u64,
    pub description: Seq<char>,
    pub source: SourceView,
    pub freio: Freio,
}

impl View for TearSession {
    type V = TearSessionView;

    open spec fn view(&self) -> TearSessionView {
        TearSessionView {
            id: self.id,
            name: self.name@,
            windows: self.windows@,
            panes: self.panes@,
            active_window: self.active_window,
            state: self.state,
            created_at_unix: self.created_at_unix,
            description: self.description@,
            source: self.source@,
            freio: self.freio,
        }
    }
}

impl Clone for TearSession {
    fn clone(&self) -> (r: TearSession)
        ensures
            r@ == self@,
    {
        TearSession {
            id: self.id,
            name: self.name.clone(),
            windows: self.windows.clone(),
            panes: self.panes.clone(),
            active_window: self.active_window,
            state: self.state,
            created_at_unix: self.created_at_unix,
            description: self.description.clone(),
            source: self.source.clone(),
            freio: self.freio,
        }
    }
}

impl Duplicate for TearSession {
    fn duplicate(&self) -> (r: TearSession) {
        self.clone()
    }
}

impl TearSessionView {
    /// What input a pane of this session takes: the brake is asked first, and
    /// holds automation alone; then the policy of the pane.
    pub open spec fn admits(self, pane: PaneId) -> Option<Admission> {
        if !self.panes.dom().contains(pane.0) {
            None
        } else {
            let p = self.panes[pane.0];
            Some(
                if self.freio is Engaged && p.yurai.is_automation() {
                    Admission::Refuse(RefusalReason::Freio)
                } else {
                    match p.input_policy {
                        InputPolicy::Free => Admission::Accept,
                        InputPolicy::Locked => Admission::Refuse(RefusalReason::Policy),
                        InputPolicy::Leader { id } => Admission::OnlyLeader { id },
                    }
                },
            )
        }
    }

    /// Every process of the session has ended, and there was one.
    pub open spec fn dead(self) -> bool {
        &&& self.panes.dom() != Set::<u64>::empty()
        &&& self.all_exited()
    }

    pub open spec fn all_exited(self) -> bool {
        forall|k: u64| self.panes.dom().contains(k) ==> (#[trigger] self.panes[k]).state is Exited
    }
}

impl TearSession {
    /// What input a pane of this session takes.
    pub fn admits(&self, pane: PaneId) -> (r: Option<Admission>)
        ensures
            r == self@.admits(pane),
    {
        match self.panes.get(pane.0) {
            None => None,
            Some(p) => {
                if self.freio.is_engaged() && p.yurai.is_automation() {
                    return Some(Admission::Refuse(RefusalReason::Freio));
                }
                Some(
                    match p.input_policy {
                        InputPolicy::Free => Admission::Accept,
                        InputPolicy::Locked => Admission::Refuse(RefusalReason::Policy),
                        InputPolicy::Leader { id } => Admission::OnlyLeader { id },
                    },
                )
            },
        }
    }

    /// Whether every process of the session has ended.
    pub fn all_exited(&self) -> (b: bool)
        ensures
            b == self@.all_exited(),
    {
        let keys = self.panes.keys();
        let mut i: usize = 0;
        while i < keys.len()
            invariant
                i <= keys@.len(),
                table::lists(keys@, self.panes@.dom()),
                forall|j: int|
                    0 <= j < i ==> (#[trigger] self.panes@[keys@[j]]).state is Exited,
            decreases keys@.len() - i,
        {
            assert(keys@.contains(keys@[i as int]));
            match self.panes.get(keys[i]) {
                Some(p) => {
                    match p.state {
                        PaneState::Exited { .. } => {},
                        _ => {
                            return false;
                        },
                    }
                },
                None => {},
            }
            i = i + 1;
        }
        proof {
            assert forall|k: u64| self.panes@.dom().contains(k) implies (
            #[trigger] self.panes@[k]).state is Exited by {
                assert(keys@.contains(k));
                let j = choose|j: int| 0 <= j < keys@.len() && keys@[j] == k;
                assert(self.panes@[keys@[j]].state is Exited);
            }
        }
        true
    }
}

/// A braked pane takes no input, whatever its policy, and an operator's pane is
/// never braked.
pub proof fn lemma_brake_comes_first(s: TearSessionView, pane: PaneId)
    requires
        s.panes.dom().contains(pane.0),
        s.freio is Engaged,
    ensures
        s.panes[pane.0].yurai.is_automation() <==> s.admits(pane) == Some(
            Admission::Refuse(RefusalReason::Freio),
        ),
        !s.panes[pane.0].yurai.is_automation() ==> s.admits(pane) == (TearSessionView {
            freio: Freio::Released,
            ..s
        }).admits(pane),
{
}

/// Releasing the brake gives every pane what its policy says.
pub proof fn lemma_release_restores_policy(s: TearSessionView, pane: PaneId, at: u64)
    ensures
        s.freio is Released ==> (TearSessionView {
            freio: Freio::Released,
            ..(TearSessionView { freio: Freio::Engaged { at_unix: at }, ..s })
        }).admits(pane) == s.admits(pane),
{
    let braked = TearSessionView { freio: Freio::Engaged { at_unix: at }, ..s };
    if s.freio is Released {
        assert((TearSessionView { freio: Freio::Released, ..braked }) =~= s);
    }
}

} // verus!
