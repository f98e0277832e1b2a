//! The operator's brake: a hold on the automation of a session.
use vstd::prelude::*;

verus! {

/// Whether the automation of a session is held.
#[derive(Debug, Clone, Copy, PartialEq, Eq, Structural)]
pub enum Freio {
    Released,
    /// Held since this time, in seconds of the Unix epoch.
    Engaged { at_unix: u64 },
}

impl Default for Freio {
    fn default() -> (r: Freio)
        ensures
            r == Freio::Released,
    {
        Freio::Released
    }
}

impl Freio {
    pub fn is_engaged(self) -> (b: bool)
        ensures
            b == (self is Engaged),
    {
        match self {
            Freio::Engaged { .. } => true,
            Freio::Released => false,
        }
    }

    /// When the brake was engaged, if it is.
    pub fn engaged_at(self) -> (r: Option<u64>)
        ensures
            r == match self {
                Freio::Engaged { at_unix } => Some(at_unix),
                Freio::Released => None,
            },
    {
        match self {
            Freio::Engaged { at_unix } => Some(at_unix),
            Freio::Released => None,
        }
    }
}

/// What input a pane accepts.
#[derive(Debug, Clone, Copy, PartialEq, Eq, Structural)]
pub enum Admission {
    /// Anyone may write.
    Accept,
    Refuse(RefusalReason),
    /// Only the connection with this client number.
    OnlyLeader { id: u64 },
}

/// Why input is refused.
#[derive(Debug, Clone, Copy, PartialEq, Eq, Structural)]
pub enum RefusalReason {
    Policy,
    Freio,
}

impl RefusalReason {
    pub fn label(self) -> (r: &'static str)
        ensures
            r@ == match self {
                RefusalReason::Policy => "policy"@,
                RefusalReason::Freio => "freio"@,
            },
    {
        match self {
            RefusalReason::Policy => "policy",
            RefusalReason::Freio => "freio",
        }
    }
}

} // verus!
