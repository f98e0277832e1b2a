//! Who acts on a connection: what the kernel attests of the peer, and what the
//! peer declares of itself. The second never changes the first.
use crate::session::{SessionSource, SourceView};
use crate::yurai;
use crate::yurai::clone_opt;
use vstd::prelude::*;

verus! {

/// What the kernel says of a peer.
#[derive(Debug, Clone, Copy, PartialEq, Eq, Structural)]
pub enum Attested {
    /// The user of a process on this host.
    LocalUid { uid: u32 },
    /// Nothing: the peer is not on this host, or could not be told.
    Remote,
}

/// What a peer says of itself.
#[derive(Debug, PartialEq, Eq)]
pub enum Declared {
    Unknown,
    Human,
    Agent { label: Option<String> },
}

/// The contents of a [`Declared`].
#[verifier::ext_equal]
pub enum DeclaredView {
    Unknown,
    Human,
    Agent { label: Option<Seq<char>> },
}

impl View for Declared {
    type V = DeclaredView;

    open spec fn view(&self) -> DeclaredView {
        match self {
            Declared::Unknown => DeclaredView::Unknown,
            Declared::Human => DeclaredView::Human,
            Declared::Agent { label } => DeclaredView::Agent { label: yurai::opt_text(*label) },
        }
    }
}

impl Clone for Declared {
    fn clone(&self) -> (r: Declared)
        ensures
            r@ == self@,
    {
        match self {
            Declared::Unknown => Declared::Unknown,
            Declared::Human => Declared::Human,
            Declared::Agent { label } => Declared::Agent { label: clone_opt(label) },
        }
    }
}

/// Who acts on a connection.
#[derive(Debug, PartialEq, Eq)]
pub struct Shutai {
    attested: Attested,
    declared: Declared,
}

/// The contents of a [`Shutai`].
#[verifier::ext_equal]
pub struct ShutaiView {
    pub attested: Attested,
    pub declared: DeclaredView,
}

impl View for Shutai {
    type V = ShutaiView;

    closed spec fn view(&self) -> ShutaiView {
        ShutaiView { attested: self.attested, declared: self.declared@ }
    }
}

impl ShutaiView {
    /// Who a session that is started here was started by.
    pub open spec fn source(self) -> SourceView {
        match self.declared {
            DeclaredView::Agent { label: Some(l) } => SourceView::Named(l),
            DeclaredView::Agent { label: None } => SourceView::Agent,
            _ => SourceView::Human,
        }
    }
}

impl Clone for Shutai {
    fn clone(&self) -> (r: Shutai)
        ensures
            r@ == self@,
    {
        Shutai { attested: self.attested, declared: self.declared.clone() }
    }
}

impl Shutai {
    /// A peer on this host, by the user that the kernel reports.
    pub fn from_peer_uid(uid: u32) -> (r: Shutai)
        ensures
            r@ == (ShutaiView {
                attested: Attested::LocalUid { uid },
                declared: DeclaredView::Unknown,
            }),
    {
        Shutai { attested: Attested::LocalUid { uid }, declared: Declared::Unknown }
    }

    /// A peer of whom nothing is attested.
    pub fn remote() -> (r: Shutai)
        ensures
            r@ == (ShutaiView { attested: Attested::Remote, declared: DeclaredView::Unknown }),
    {
        Shutai { attested: Attested::Remote, declared: Declared::Unknown }
    }

    /// The same peer with another declaration; what is attested stays.
    pub fn declaring(self, declared: Declared) -> (r: Shutai)
        ensures
            r@ == (ShutaiView { declared: declared@, ..self@ }),
    {
        Shutai { attested: self.attested, declared }
    }

    pub fn attested(&self) -> (r: &Attested)
        ensures
            *r == self@.attested,
    {
        &self.attested
    }

    pub fn declared(&self) -> (r: &Declared)
        ensures
            r@ == self@.declared,
    {
        &self.declared
    }

    pub fn is_automation(&self) -> (b: bool)
        ensures
            b == (self@.declared is Agent),
    {
        match &self.declared {
            Declared::Agent { .. } => true,
            _ => false,
        }
    }

    /// Who a session that is started here was started by.
    pub fn session_source(&self) -> (r: SessionSource)
        ensures
            r@ == self@.source(),
    {
        match &self.declared {
            Declared::Agent { label } => match label {
                Some(l) => SessionSource::Named(l.clone()),
                None => SessionSource::Agent,
            },
            _ => SessionSource::Human,
        }
    }
}

/// The source of a session: what the request says may refine what the connection
/// is, and never make it less automated.
pub open spec fn derived_source(
    declared: Option<SourceView>,
    conn: Option<SourceView>,
) -> SourceView {
    match conn {
        Some(c) => if c != SourceView::Human && (declared is None || declared == Some(
            SourceView::Human,
        )) {
            c
        } else {
            match declared {
                Some(d) => d,
                None => c,
            }
        },
        None => match declared {
            Some(d) => d,
            None => SourceView::Human,
        },
    }
}

/// The contents of an optional source.
pub open spec fn opt_source(s: Option<SessionSource>) -> Option<SourceView> {
    match s {
        Some(s) => Some(s@),
        None => None,
    }
}

/// The contents of what an optional connection says.
pub open spec fn conn_source(s: Option<&Shutai>) -> Option<SourceView> {
    match s {
        Some(s) => Some(s@.source()),
        None => None,
    }
}

/// The source of a new session, from the request and the connection.
pub fn derive_session_source(declared: Option<SessionSource>, shutai: Option<&Shutai>) -> (r:
    SessionSource)
    ensures
        r@ == derived_source(opt_source(declared), conn_source(shutai)),
{
    match shutai {
        Some(s) => {
            let conn = s.session_source();
            match declared {
                Some(d) => {
                    if d.is_human() && !conn.is_human() {
                        conn
                    } else {
                        d
                    }
                },
                None => conn,
            }
        },
        None => match declared {
            Some(d) => d,
            None => SessionSource::Human,
        },
    }
}

/// An automation cannot start a session under a human's name, and a name that it
/// gives is kept.
pub proof fn lemma_source_is_never_downgraded(declared: Option<SourceView>, conn: SourceView)
    requires
        conn != SourceView::Human,
    ensures
        derived_source(declared, Some(conn)) != SourceView::Human,
        declared matches Some(SourceView::Named(n)) ==> derived_source(declared, Some(conn))
            == SourceView::Named(n),
{
}

} // verus!
