//! What a multiplexer can be asked, and how it refuses.
use crate::digest;
use crate::id::{PaneId, SessionId, WindowId};
use crate::layout::Direction;
use crate::pane::{InputPolicy, TearPane};
use crate::session::{SessionSource, TearSession, TearWindow};
use crate::snapshot::PaneSnapshot;
use vstd::prelude::*;
use vstd::string::StringExecFns;

verus! {

/// Why an operation was not carried out.
#[derive(Debug, PartialEq, Eq)]
pub enum ControlError {
    NoSuchSession(SessionId),
    NoSuchWindow(WindowId),
    NoSuchPane(PaneId),
    Transport(String),
    Rejected(String),
    Internal(String),
    /// The daemon lacks a capability that the call needs.
    Unsupported { capability: String, detail: String },
}

pub type ControlResult<T> = Result<T, ControlError>;

/// The contents of a [`ControlError`].
#[verifier::ext_equal]
pub enum ControlErrorView {
    NoSuchSession(SessionId),
    NoSuchWindow(WindowId),
    NoSuchPane(PaneId),
    Transport(Seq<char>),
    Rejected(Seq<char>),
    Internal(Seq<char>),
    Unsupported { capability: Seq<char>, detail: Seq<char> },
}

impl View for ControlError {
    type V = ControlErrorView;

    open spec fn view(&self) -> ControlErrorView {
        match self {
            ControlError::NoSuchSession(id) => ControlErrorView::NoSuchSession(*id),
            ControlError::NoSuchWindow(id) => ControlErrorView::NoSuchWindow(*id),
            ControlError::NoSuchPane(id) => ControlErrorView::NoSuchPane(*id),
            ControlError::Transport(s) => ControlErrorView::Transport(s@),
            ControlError::Rejected(s) => ControlErrorView::Rejected(s@),
            ControlError::Internal(s) => ControlErrorView::Internal(s@),
            ControlError::Unsupported { capability, detail } => ControlErrorView::Unsupported {
                capability: capability@,
                detail: detail@,
            },
        }
    }
}

impl ControlErrorView {
    /// The message of an error.
    pub open spec fn message(self) -> Seq<char> {
        match self {
            ControlErrorView::NoSuchSession(id) => "no such session: "@ + digest::hex(
                id.0 as nat,
                16,
            ),
            ControlErrorView::NoSuchWindow(id) => "no such window: "@ + digest::hex(
                id.0 as nat,
                16,
            ),
            ControlErrorView::NoSuchPane(id) => "no such pane: "@ + digest::hex(id.0 as nat, 16),
            ControlErrorView::Transport(s) => "backend transport error: "@ + s,
            ControlErrorView::Rejected(s) => "backend rejected operation: "@ + s,
            ControlErrorView::Internal(s) => "backend internal: "@ + s,
            ControlErrorView::Unsupported { capability, detail } => "unsupported capability "@
                + capability + ": "@ + detail,
        }
    }
}

/// One text after another.
pub fn joined(a: &str, b: &str) -> (r: String)
    ensures
        r@ == a@ + b@,
{
    let mut r = String::from_str(a);
    r.append(b);
    r
}

impl ControlError {
    /// The message of an error.
    pub fn to_string(&self) -> (r: String)
        ensures
            r@ == self@.message(),
    {
        match self {
            ControlError::NoSuchSession(id) => joined(
                "no such session: ",
                id.to_string().as_str(),
            ),
            ControlError::NoSuchWindow(id) => joined("no such window: ", id.to_string().as_str()),
            ControlError::NoSuchPane(id) => joined("no such pane: ", id.to_string().as_str()),
            ControlError::Transport(s) => joined("backend transport error: ", s.as_str()),
            ControlError::Rejected(s) => joined("backend rejected operation: ", s.as_str()),
            ControlError::Internal(s) => joined("backend internal: ", s.as_str()),
            ControlError::Unsupported { capability, detail } => {
                let mut r = joined("unsupported capability ", capability.as_str());
                r.append(": ");
                r.append(detail.as_str());
                r
            },
        }
    }
}

/// What every backend offers.
pub trait MultiplexerControl {
    /// Every session, oldest first.
    fn list_sessions(&self) -> ControlResult<Vec<TearSession>>;

    fn get_session(&self, id: SessionId) -> ControlResult<TearSession>;

    /// A window, with the session it belongs to.
    fn get_window(&self, id: WindowId) -> ControlResult<(SessionId, TearWindow)>;

    fn get_pane(&self, id: PaneId) -> ControlResult<TearPane>;

    /// A session that an operator starts.
    fn new_session(&self, name: &str, shell: &str) -> (r: ControlResult<SessionId>)
        default_ensures
            call_ensures(
                Self::new_session_with_source,
                (self, name, shell, SessionSource::Human),
                r,
            ),
    {
        self.new_session_with_source(name, shell, SessionSource::Human)
    }

    /// A session of eighty columns and twenty-four rows.
    fn new_session_with_source(
        &self,
        name: &str,
        shell: &str,
        source: SessionSource,
    ) -> (r: ControlResult<SessionId>)
        default_ensures
            call_ensures(
                Self::new_session_with_source_and_size,
                (self, name, shell, source, (80u16, 24u16)),
                r,
            ),
    {
        self.new_session_with_source_and_size(name, shell, source, (80, 24))
    }

    fn new_session_with_source_and_size(
        &self,
        name: &str,
        shell: &str,
        source: SessionSource,
        size_cells: (u16, u16),
    ) -> ControlResult<SessionId>;

    fn rename_session(&self, id: SessionId, new_name: &str) -> ControlResult<()>;

    fn kill_session(&self, id: SessionId) -> ControlResult<()>;

    fn new_window(&self, session: SessionId, name: &str, shell: &str) -> ControlResult<WindowId>;

    fn kill_window(&self, id: WindowId) -> ControlResult<()>;

    fn select_window(&self, id: WindowId) -> ControlResult<()>;

    fn split_pane(&self, origin: PaneId, direction: Direction, shell: &str) -> ControlResult<
        PaneId,
    >;

    fn kill_pane(&self, id: PaneId) -> ControlResult<()>;

    fn select_pane(&self, id: PaneId) -> ControlResult<()>;

    fn resize_pane(&self, id: PaneId, direction: Direction, delta_cells: i16) -> ControlResult<()>;

    /// Sets the size of a pane; a backend that cannot refuses.
    fn pane_resize_absolute(&self, id: PaneId, cols: u16, rows: u16) -> (r: ControlResult<()>)
        default_ensures
            r matches Err(e) && e@ == ControlErrorView::Rejected(
                "this backend does not support absolute pane resize"@,
            ),
    {
        Err(
            ControlError::Rejected(
                String::from_str("this backend does not support absolute pane resize"),
            ),
        )
    }

    fn send_keys(&self, id: PaneId, bytes: &[u8]) -> ControlResult<()>;

    /// How many readers a pane has; none for a pane that is gone.
    fn pane_subscriber_count(&self, id: PaneId) -> ControlResult<u32>;

    fn set_input_policy(&self, id: PaneId, policy: InputPolicy) -> ControlResult<()>;

    /// What a pane shows; a backend that does not track it refuses.
    fn pane_snapshot(&self, id: PaneId) -> (r: ControlResult<PaneSnapshot>)
        default_ensures
            r matches Err(e) && e@ == ControlErrorView::Rejected(
                "this backend does not expose per-pane snapshots"@,
            ),
    {
        Err(
            ControlError::Rejected(
                String::from_str("this backend does not expose per-pane snapshots"),
            ),
        )
    }
}

} // verus!
