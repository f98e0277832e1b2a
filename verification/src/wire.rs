//! What clients ask of the daemon, and what it answers.
use crate::block::Block;
use crate::capability::DaemonHello;
use crate::control::{ControlError, ControlErrorView};
use crate::freio::Freio;
use crate::id::{PaneId, SessionId, WindowId};
use crate::layout::{Direction, LayoutKind};
use crate::pane::{InputPolicy, TearPane};
use crate::session::{SessionSource, TearSession, TearWindow};
use crate::snapshot::PaneSnapshot;
use crate::spawn_env::SpawnEnv;
use vstd::prelude::*;
use vstd::string::StringExecFns;

verus! {

/// A request.
#[derive(Debug, Clone, PartialEq, Eq)]
pub enum Request {
    ListSessions,
    GetSession(SessionId),
    GetWindow(WindowId),
    GetPane(PaneId),
    NewSession {
        name: String,
        shell: String,
        source: Option<SessionSource>,
        size_cells: Option<(u16, u16)>,
        args: Vec<String>,
    },
    RenameSession { session: SessionId, new_name: String },
    KillSession(SessionId),
    NewWindow { session: SessionId, name: String, shell: String, args: Vec<String> },
    KillWindow(WindowId),
    SelectWindow(WindowId),
    SplitPane { origin: PaneId, direction: Direction, shell: String, args: Vec<String> },
    KillPane(PaneId),
    SelectPane(PaneId),
    ResizePane { id: PaneId, direction: Direction, delta_cells: i16 },
    ApplyLayout { window: WindowId, kind: LayoutKind },
    SendKeys { id: PaneId, bytes: Vec<u8> },
    /// Brakes one session, or all, or releases them.
    SetFreio { target: Option<SessionId>, engaged: bool },
    GetFreio,
    SetInputPolicy { id: PaneId, policy: InputPolicy },
    PaneSubscriberCount(PaneId),
    StartPaneRecording(PaneId),
    StopPaneRecording(PaneId),
    ExportPaneRecording(PaneId),
    PaneRecordingStatus(PaneId),
    PaneBlocksList { pane: PaneId, since_index: u64, limit: u32 },
    PaneBlockAt { pane: PaneId, index: u64 },
    PaneBlocksStatus(PaneId),
    PaneSnapshot(PaneId),
    PaneResizeAbsolute { id: PaneId, cols: u16, rows: u16 },
    SetSpawnEnv(SpawnEnv),
    Subscribe(PaneId),
    GetConfig,
    ReloadConfig,
    SetConfig(String),
    SubscribeConfigChange,
    Authenticate(String),
    IdentifyClient(u64),
    Hello { client_version: String },
}

/// An error as it travels.
#[derive(Debug, PartialEq, Eq)]
pub enum WireError {
    NoSuchSession(SessionId),
    NoSuchWindow(WindowId),
    NoSuchPane(PaneId),
    Transport(String),
    Rejected(String),
    Internal(String),
}

/// The contents of a [`WireError`].
#[verifier::ext_equal]
pub enum WireErrorView {
    NoSuchSession(SessionId),
    NoSuchWindow(WindowId),
    NoSuchPane(PaneId),
    Transport(Seq<char>),
    Rejected(Seq<char>),
    Internal(Seq<char>),
}

impl View for WireError {
    type V = WireErrorView;

    open spec fn view(&self) -> WireErrorView {
        match self {
            WireError::NoSuchSession(id) => WireErrorView::NoSuchSession(*id),
            WireError::NoSuchWindow(id) => WireErrorView::NoSuchWindow(*id),
            WireError::NoSuchPane(id) => WireErrorView::NoSuchPane(*id),
            WireError::Transport(s) => WireErrorView::Transport(s@),
            WireError::Rejected(s) => WireErrorView::Rejected(s@),
            WireError::Internal(s) => WireErrorView::Internal(s@),
        }
    }
}

/// How an error travels: a missing capability is a rejection with its message.
pub open spec fn on_wire(e: ControlErrorView) -> WireErrorView {
    match e {
        ControlErrorView::NoSuchSession(id) => WireErrorView::NoSuchSession(id),
        ControlErrorView::NoSuchWindow(id) => WireErrorView::NoSuchWindow(id),
        ControlErrorView::NoSuchPane(id) => WireErrorView::NoSuchPane(id),
        ControlErrorView::Transport(s) => WireErrorView::Transport(s),
        ControlErrorView::Rejected(s) => WireErrorView::Rejected(s),
        ControlErrorView::Internal(s) => WireErrorView::Internal(s),
        ControlErrorView::Unsupported { .. } => WireErrorView::Rejected(e.message()),
    }
}

impl WireError {
    /// How an error travels.
    pub fn from_control(e: ControlError) -> (r: WireError)
        ensures
            r@ == on_wire(e@),
    {
        match e {
            ControlError::NoSuchSession(id) => WireError::NoSuchSession(id),
            ControlError::NoSuchWindow(id) => WireError::NoSuchWindow(id),
            ControlError::NoSuchPane(id) => WireError::NoSuchPane(id),
            ControlError::Transport(s) => WireError::Transport(s),
            ControlError::Rejected(s) => WireError::Rejected(s),
            ControlError::Internal(s) => WireError::Internal(s),
            ControlError::Unsupported { .. } => WireError::Rejected(e.to_string()),
        }
    }

    pub fn rejected(text: &str) -> (r: WireError)
        ensures
            r@ == WireErrorView::Rejected(text@),
    {
        WireError::Rejected(String::from_str(text))
    }
}

/// An answer.
#[derive(Debug, PartialEq, Eq)]
pub enum Response {
    /// Carried out.
    Done,
    Sessions(Vec<TearSession>),
    Session(TearSession),
    Window { session: SessionId, window: TearWindow },
    Pane(TearPane),
    SessionId(SessionId),
    WindowId(WindowId),
    PaneId(PaneId),
    SubscriberCount(u32),
    CastJson(String),
    RecordingStatus { enabled: bool, events: u32 },
    Blocks(Vec<Block>),
    Block(Block),
    BlocksStatus { total: u32, in_progress: bool },
    PaneSnapshot(PaneSnapshot),
    PaneBytes(Vec<u8>),
    PaneClosed(PaneId),
    ConfigYaml(String),
    ConfigChanged(String),
    Freio { sessions: Vec<(SessionId, Freio)>, braked: Vec<PaneId>, unbrakable: Vec<PaneId> },
    Hello(DaemonHello),
    Refused(WireError),
}

/// The answer is this refusal.
pub open spec fn refused(r: Response, e: WireErrorView) -> bool {
    r matches Response::Refused(w) && w@ == e
}

} // verus!
