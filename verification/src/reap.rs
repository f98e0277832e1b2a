//! The proof that lets a daemon end a session by itself.
use crate::id::SessionId;
use crate::session::TearSession;
use vstd::prelude::*;

verus! {

/// That every process of a session has ended, and that there was one. It can
/// only be had from the panes of the session: not from who reads them, who
/// started them, or how long ago.
#[derive(Debug, Clone, Copy, PartialEq, Eq)]
pub struct AllPanesExited {
    session: SessionId,
}

impl AllPanesExited {
    /// The session this is about.
    pub closed spec fn view(self) -> SessionId {
        self.session
    }

    /// The proof for a session, if it is dead.
    pub fn witness(session: &TearSession) -> (r: Option<AllPanesExited>)
        ensures
            match r {
                Some(p) => session@.dead() && p@ == session.id,
                None => !session@.dead(),
            },
    {
        if session.panes.is_empty() {
            return None;
        }
        if session.all_exited() {
            Some(AllPanesExited { session: session.id })
        } else {
            None
        }
    }

    /// The session this is about.
    pub fn session(self) -> (r: SessionId)
        ensures
            r == self@,
    {
        self.session
    }
}

} // verus!
