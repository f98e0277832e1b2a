//! A running incarnation of a session.
use crate::id;
use crate::id::SessionId;
use crate::session::TearSession;
use vstd::prelude::*;

verus! {

/// Identifier of what a session is started from.
#[derive(Debug, Clone, Copy, PartialEq, Eq, PartialOrd, Ord, Hash, Structural)]
pub struct DefinitionId(pub u64);

impl DefinitionId {
    /// The identifier of the project at a path.
    pub fn from_project(path: &str) -> (r: DefinitionId)
        ensures
            r.0 as nat == id::seed_value(path@),
    {
        DefinitionId(SessionId::from_seed(path).0)
    }
}

/// How long the state of a running session lasts. There is no value for one that
/// outlives the daemon.
#[derive(Debug, Clone, Copy, PartialEq, Eq, Hash, Structural)]
pub enum Durability {
    ProcessBound,
}

impl Default for Durability {
    fn default() -> (r: Durability)
        ensures
            r == Durability::ProcessBound,
    {
        Durability::ProcessBound
    }
}

/// A running session, with the definition it was started from.
#[derive(Debug, PartialEq, Eq)]
pub struct LiveSession {
    pub definition: DefinitionId,
    pub durability: Durability,
    pub session: TearSession,
}

impl Clone for LiveSession {
    fn clone(&self) -> (r: LiveSession)
        ensures
            r.definition == self.definition,
            r.durability == self.durability,
            r.session@ == self.session@,
    {
        LiveSession {
            definition: self.definition,
            durability: self.durability,
            session: self.session.clone(),
        }
    }
}

impl LiveSession {
    pub fn new(definition: DefinitionId, session: TearSession) -> (r: LiveSession)
        ensures
            r.definition == definition,
            r.durability == Durability::ProcessBound,
            r.session == session,
    {
        LiveSession { definition, durability: Durability::ProcessBound, session }
    }

    /// The identifier of this incarnation: that of its session.
    pub fn instance(&self) -> (r: SessionId)
        ensures
            r == self.session.id,
    {
        self.session.id
    }
}

} // verus!
