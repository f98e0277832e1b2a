//! Typed identifiers of sessions, windows and panes.
//!
//! An identifier is a number of 64 bits: the first eight bytes, lowest first, of
//! the BLAKE3 digest of a seed. Its text is sixteen lowercase hexadecimal digits.
use crate::digest;
use crate::digest::{head_u64, hex_string, parse_hex, HexError};
use vstd::prelude::*;
use vstd::string::StringExecFns;

verus! {

/// The number that a seed stands for.
pub open spec fn seed_value(seed: Seq<char>) -> nat {
    digest::head_value(digest::blake3_digest(vstd::utf8::encode_utf8(seed)))
}

fn value_of_seed(seed: &str) -> (r: u64)
    ensures
        r as nat == seed_value(seed@),
{
    let bytes = vstd::slice::slice_to_vec(seed.as_bytes());
    head_u64(&digest::digest(&bytes))
}

/// What an identifier is of.
#[derive(Debug, Clone, Copy, PartialEq, Eq, Structural)]
pub enum IdKind {
    Session,
    Window,
    Pane,
}

impl IdKind {
    /// The name of the identifier's type.
    pub open spec fn label(self) -> Seq<char> {
        match self {
            IdKind::Session => "SessionId"@,
            IdKind::Window => "WindowId"@,
            IdKind::Pane => "PaneId"@,
        }
    }
}

/// Why a text is not an identifier.
#[derive(Debug, Clone, Copy, PartialEq, Eq, Structural)]
pub struct IdError {
    pub kind: IdKind,
    pub reason: HexError,
}

impl IdError {
    /// The message of an error: which identifier is not valid, and why.
    pub open spec fn message(self) -> Seq<char> {
        "invalid "@ + self.kind.label() + ": "@ + self.reason.reason()
    }

    /// The message of an error.
    pub fn to_string(&self) -> (r: String)
        ensures
            r@ == self.message(),
    {
        let mut r = String::from_str("invalid ");
        match self.kind {
            IdKind::Session => r.append("SessionId"),
            IdKind::Window => r.append("WindowId"),
            IdKind::Pane => r.append("PaneId"),
        }
        r.append(": ");
        r.append(self.reason.to_string().as_str());
        r
    }
}

/// Identifier of a session, stable for the life of the daemon.
#[derive(Debug, Clone, Copy, PartialEq, Eq, PartialOrd, Ord, Hash, Structural)]
pub struct SessionId(pub u64);

impl SessionId {
    /// The identifier of a seed.
    pub fn from_seed(seed: &str) -> (r: SessionId)
        ensures
            r.0 as nat == seed_value(seed@),
    {
        SessionId(value_of_seed(seed))
    }

    /// The reserved identifier, zero.
    #[verifier::allow_in_spec]
    pub fn null() -> SessionId
        returns
            SessionId(0),
    {
        SessionId(0)
    }

    /// Sixteen lowercase hexadecimal digits.
    pub fn to_string(&self) -> (r: String)
        ensures
            r@ == digest::hex(self.0 as nat, 16),
            r@.len() == 16,
    {
        proof {
            digest::lemma_hex_len(self.0 as nat, 16);
        }
        hex_string(self.0, 16)
    }

    /// Reads the text of an identifier.
    pub fn parse(s: &str) -> (r: Result<SessionId, IdError>)
        ensures
            match r {
                Ok(id) => digest::hex_number(s@) == Ok::<int, HexError>(id.0 as int),
                Err(e) => e.kind == IdKind::Session && digest::hex_number(s@) == Err::<int, HexError>(
                    e.reason,
                ),
            },
    {
        match parse_hex(s) {
            Ok(n) => Ok(SessionId(n)),
            Err(reason) => Err(IdError { kind: IdKind::Session, reason }),
        }
    }

    /// The text of an identifier is read back as that identifier.
    pub proof fn lemma_text_reads_back(self)
        ensures
            digest::hex_number(digest::hex(self.0 as nat, 16)) == Ok::<int, HexError>(
                self.0 as int,
            ),
    {
        digest::lemma_hex_reads_back(self.0 as nat);
    }
}

impl std::str::FromStr for SessionId {
    type Err = IdError;

    fn from_str(s: &str) -> (r: Result<SessionId, IdError>)
        ensures
            match r {
                Ok(id) => digest::hex_number(s@) == Ok::<int, HexError>(id.0 as int),
                Err(e) => e.kind == IdKind::Session && digest::hex_number(s@) == Err::<int, HexError>(
                    e.reason,
                ),
            },
    {
        SessionId::parse(s)
    }
}

/// Identifier of a window.
#[derive(Debug, Clone, Copy, PartialEq, Eq, PartialOrd, Ord, Hash, Structural)]
pub struct WindowId(pub u64);

impl WindowId {
    /// The identifier of a seed.
    pub fn from_seed(seed: &str) -> (r: WindowId)
        ensures
            r.0 as nat == seed_value(seed@),
    {
        WindowId(value_of_seed(seed))
    }

    /// The reserved identifier, zero.
    #[verifier::allow_in_spec]
    pub fn null() -> WindowId
        returns
            WindowId(0),
    {
        WindowId(0)
    }

    /// Sixteen lowercase hexadecimal digits.
    pub fn to_string(&self) -> (r: String)
        ensures
            r@ == digest::hex(self.0 as nat, 16),
            r@.len() == 16,
    {
        proof {
            digest::lemma_hex_len(self.0 as nat, 16);
        }
        hex_string(self.0, 16)
    }

    /// Reads the text of an identifier.
    pub fn parse(s: &str) -> (r: Result<WindowId, IdError>)
        ensures
            match r {
                Ok(id) => digest::hex_number(s@) == Ok::<int, HexError>(id.0 as int),
                Err(e) => e.kind == IdKind::Window && digest::hex_number(s@) == Err::<int, HexError>(
                    e.reason,
                ),
            },
    {
        match parse_hex(s) {
            Ok(n) => Ok(WindowId(n)),
            Err(reason) => Err(IdError { kind: IdKind::Window, reason }),
        }
    }

    /// The text of an identifier is read back as that identifier.
    pub proof fn lemma_text_reads_back(self)
        ensures
            digest::hex_number(digest::hex(self.0 as nat, 16)) == Ok::<int, HexError>(
                self.0 as int,
            ),
    {
        digest::lemma_hex_reads_back(self.0 as nat);
    }
}

impl std::str::FromStr for WindowId {
    type Err = IdError;

    fn from_str(s: &str) -> (r: Result<WindowId, IdError>)
        ensures
            match r {
                Ok(id) => digest::hex_number(s@) == Ok::<int, HexError>(id.0 as int),
                Err(e) => e.kind == IdKind::Window && digest::hex_number(s@) == Err::<int, HexError>(
                    e.reason,
                ),
            },
    {
        WindowId::parse(s)
    }
}

/// Identifier of a pane.
#[derive(Debug, Clone, Copy, PartialEq, Eq, PartialOrd, Ord, Hash, Structural)]
pub struct PaneId(pub u64);

impl PaneId {
    /// The identifier of a seed.
    pub fn from_seed(seed: &str) -> (r: PaneId)
        ensures
            r.0 as nat == seed_value(seed@),
    {
        PaneId(value_of_seed(seed))
    }

    /// The reserved identifier, zero.
    #[verifier::allow_in_spec]
    pub fn null() -> PaneId
        returns
            PaneId(0),
    {
        PaneId(0)
    }

    /// Sixteen lowercase hexadecimal digits.
    pub fn to_string(&self) -> (r: String)
        ensures
            r@ == digest::hex(self.0 as nat, 16),
            r@.len() == 16,
    {
        proof {
            digest::lemma_hex_len(self.0 as nat, 16);
        }
        hex_string(self.0, 16)
    }

    /// Reads the text of an identifier.
    pub fn parse(s: &str) -> (r: Result<PaneId, IdError>)
        ensures
            match r {
                Ok(id) => digest::hex_number(s@) == Ok::<int, HexError>(id.0 as int),
                Err(e) => e.kind == IdKind::Pane && digest::hex_number(s@) == Err::<int, HexError>(
                    e.reason,
                ),
            },
    {
        match parse_hex(s) {
            Ok(n) => Ok(PaneId(n)),
            Err(reason) => Err(IdError { kind: IdKind::Pane, reason }),
        }
    }

    /// The text of an identifier is read back as that identifier.
    pub proof fn lemma_text_reads_back(self)
        ensures
            digest::hex_number(digest::hex(self.0 as nat, 16)) == Ok::<int, HexError>(
                self.0 as int,
            ),
    {
        digest::lemma_hex_reads_back(self.0 as nat);
    }
}

impl std::str::FromStr for PaneId {
    type Err = IdError;

    fn from_str(s: &str) -> (r: Result<PaneId, IdError>)
        ensures
            match r {
                Ok(id) => digest::hex_number(s@) == Ok::<int, HexError>(id.0 as int),
                Err(e) => e.kind == IdKind::Pane && digest::hex_number(s@) == Err::<int, HexError>(
                    e.reason,
                ),
            },
    {
        PaneId::parse(s)
    }
}

} // verus!
