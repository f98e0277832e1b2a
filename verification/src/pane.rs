//! The record of a pane.
use crate::genesis;
use crate::id::PaneId;
use crate::table::Duplicate;
use crate::yurai;
use crate::yurai::{clone_opt, Yurai, YuraiView};
use vstd::prelude::*;

verus! {

/// Whose input a pane takes.
#[derive(Debug, Clone, Copy, PartialEq, Eq, Hash, Structural)]
pub enum InputPolicy {
    /// Everyone's.
    Free,
    /// Nobody's.
    Locked,
    /// That of the client with this number.
    Leader { id: u64 },
}

impl Default for InputPolicy {
    fn default() -> (r: InputPolicy)
        ensures
            r == InputPolicy::Free,
    {
        InputPolicy::Free
    }
}

impl InputPolicy {
    pub open spec fn spec_label(self) -> Seq<char> {
        match self {
            InputPolicy::Free => "free"@,
            InputPolicy::Locked => "locked"@,
            InputPolicy::Leader { .. } => "leader"@,
        }
    }

    /// A short name.
    pub fn label(&self) -> (r: &'static str)
        ensures
            r@ == self.spec_label(),
    {
        match self {
            InputPolicy::Free => "free",
            InputPolicy::Locked => "locked",
            InputPolicy::Leader { .. } => "leader",
        }
    }

    pub fn leader(id: u64) -> (r: InputPolicy)
        ensures
            r == (InputPolicy::Leader { id }),
    {
        InputPolicy::Leader { id }
    }

    /// The client that leads, if one does.
    pub fn leader_id(&self) -> (r: Option<u64>)
        ensures
            r == match *self {
                InputPolicy::Leader { id } => Some(id),
                _ => None,
            },
    {
        match self {
            InputPolicy::Leader { id } => Some(*id),
            _ => None,
        }
    }
}

/// Where a pane is in its life.
#[derive(Debug, Clone, Copy, PartialEq, Eq, Hash, Structural)]
pub enum PaneState {
    Running,
    /// The process has ended; the pane stays until it is closed.
    Exited { code: i32 },
    Spawning,
}

impl Default for PaneState {
    fn default() -> (r: PaneState)
        ensures
            r == PaneState::Spawning,
    {
        PaneState::Spawning
    }
}

/// Counters of a pane.
#[derive(Debug, Clone, Copy, PartialEq, Eq, Structural)]
pub struct PaneStats {
    pub bytes_consumed: u64,
    pub scrollback_lines: u32,
    pub seconds_since_last_byte: u32,
}

impl Default for PaneStats {
    fn default() -> (r: PaneStats)
        ensures
            r == (PaneStats {
                bytes_consumed: 0,
                scrollback_lines: 0,
                seconds_since_last_byte: 0,
            }),
    {
        PaneStats { bytes_consumed: 0, scrollback_lines: 0, seconds_since_last_byte: 0 }
    }
}

/// One pane.
#[derive(Debug, PartialEq, Eq)]
pub struct TearPane {
    pub id: PaneId,
    /// The program that runs in it.
    pub shell: String,
    pub args: Vec<String>,
    /// Where it was started, if not where the session was.
    pub cwd: Option<String>,
    /// What its environment has on top of the inherited one.
    pub env: Vec<(String, String)>,
    /// Columns and rows.
    pub size_cells: (u16, u16),
    /// Its top left cell in the window.
    pub origin_cells: (u16, u16),
    pub state: PaneState,
    pub title: String,
    pub input_policy: InputPolicy,
    pub yurai: Yurai,
}

/// The contents of a [`TearPane`].
#[verifier::ext_equal]
pub struct TearPaneView {
    pub id: PaneId,
    pub shell: Seq<char>,
    pub args: Seq<Seq<char>>,
    pub cwd: Option<Seq<char>>,
    pub env: Seq<(Seq<char>, Seq<char>)>,
    pub size_cells: (u16, u16),
    pub origin_cells: (u16, u16),
    pub state: PaneState,
    pub title: Seq<char>,
    pub input_policy: InputPolicy,
    pub yurai: YuraiView,
}

/// The contents of a list of named values.
pub open spec fn pairs(s: Seq<(String, String)>) -> Seq<(Seq<char>, Seq<char>)> {
    Seq::new(s.len(), |i: int| (s[i].0@, s[i].1@))
}

/// A copy of a list of strings.
pub fn clone_texts(v: &Vec<String>) -> (r: Vec<String>)
    ensures
        genesis::texts(r@) == genesis::texts(v@),
{
    let mut r: Vec<String> = Vec::new();
    let mut i: usize = 0;
    while i < v.len()
        invariant
            i <= v@.len(),
            r@.len() == i,
            forall|j: int| 0 <= j < i ==> (#[trigger] r@[j])@ == v@[j]@,
        decreases v@.len() - i,
    {
        r.push(v[i].clone());
        i = i + 1;
    }
    assert(genesis::texts(r@) =~= genesis::texts(v@));
    r
}

/// A copy of a list of named values.
pub fn clone_pairs(v: &Vec<(String, String)>) -> (r: Vec<(String, String)>)
    ensures
        pairs(r@) == pairs(v@),
{
    let mut r: Vec<(String, String)> = Vec::new();
    let mut i: usize = 0;
    while i < v.len()
        invariant
            i <= v@.len(),
            r@.len() == i,
            forall|j: int|
                0 <= j < i ==> (#[trigger] r@[j]).0@ == v@[j].0@ && r@[j].1@ == v@[j].1@,
        decreases v@.len() - i,
    {
        let name = v[i].0.clone();
        let value = v[i].1.clone();
        r.push((name, value));
        i = i + 1;
    }
    assert(pairs(r@) =~= pairs(v@));
    r
}

impl View for TearPane {
    type V = TearPaneView;

    open spec fn view(&self) -> TearPaneView {
        TearPaneView {
            id: self.id,
            shell: self.shell@,
            args: genesis::texts(self.args@),
            cwd: yurai::opt_text(self.cwd),
            env: pairs(self.env@),
            size_cells: self.size_cells,
            origin_cells: self.origin_cells,
            state: self.state,
            title: self.title@,
            input_policy: self.input_policy,
            yurai: self.yurai@,
        }
    }
}

impl Clone for TearPane {
    fn clone(&self) -> (r: TearPane)
        ensures
            r@ == self@,
    {
        TearPane {
            id: self.id,
            shell: self.shell.clone(),
            args: clone_texts(&self.args),
            cwd: clone_opt(&self.cwd),
            env: clone_pairs(&self.env),
            size_cells: self.size_cells,
            origin_cells: self.origin_cells,
            state: self.state,
            title: self.title.clone(),
            input_policy: self.input_policy,
            yurai: self.yurai.clone(),
        }
    }
}

impl Duplicate for TearPane {
    fn duplicate(&self) -> (r: TearPane) {
        self.clone()
    }
}

} // verus!
