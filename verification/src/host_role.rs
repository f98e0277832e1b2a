//! Who answers a terminal query on a pane, and what the answers are.
use vstd::prelude::*;

verus! {

/// Which participant answers terminal queries for a pane.
#[derive(Copy, Clone, Debug, PartialEq, Eq, Structural)]
pub enum HostRole {
    /// Queries are passed on and nothing is answered.
    Relay,
    /// Queries are answered here, and the reply is owed to the child.
    Host,
}

impl Default for HostRole {
    fn default() -> (r: HostRole)
        ensures
            r == HostRole::Relay,
    {
        HostRole::Relay
    }
}

impl HostRole {
    #[verifier::allow_in_spec]
    pub fn answers_queries(self) -> bool
        returns
            (self == HostRole::Host),
    {
        match self {
            HostRole::Host => true,
            HostRole::Relay => false,
        }
    }
}

/// What a pane says of itself when it answers queries.
pub struct TearCaps;

impl TearCaps {
    /// `ESC [ ? 6 2 ; 2 2 c`: a VT220 with colour, and nothing a pane cannot
    /// draw.
    pub open spec fn spec_primary_da() -> Seq<u8> {
        seq![0x1b, 0x5b, 0x3f, 0x36, 0x32, 0x3b, 0x32, 0x32, 0x63]
    }

    /// `ESC [ > 1 ; 0 ; 0 c`.
    pub open spec fn spec_secondary_da() -> Seq<u8> {
        seq![0x1b, 0x5b, 0x3e, 0x31, 0x3b, 0x30, 0x3b, 0x30, 0x63]
    }

    /// `ESC [ 0 n`.
    pub open spec fn spec_status_ok() -> Seq<u8> {
        seq![0x1b, 0x5b, 0x30, 0x6e]
    }

    /// The reply to primary device attributes (`CSI c`).
    pub fn primary_da() -> (r: Vec<u8>)
        ensures
            r@ == Self::spec_primary_da(),
    {
        vec![0x1b, 0x5b, 0x3f, 0x36, 0x32, 0x3b, 0x32, 0x32, 0x63]
    }

    /// The reply to secondary device attributes (`CSI > c`).
    pub fn secondary_da() -> (r: Vec<u8>)
        ensures
            r@ == Self::spec_secondary_da(),
    {
        vec![0x1b, 0x5b, 0x3e, 0x31, 0x3b, 0x30, 0x3b, 0x30, 0x63]
    }

    /// The reply to a device status report (`CSI 5 n`).
    pub fn status_ok() -> (r: Vec<u8>)
        ensures
            r@ == Self::spec_status_ok(),
    {
        vec![0x1b, 0x5b, 0x30, 0x6e]
    }
}

} // verus!
