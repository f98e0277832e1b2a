//! One connection to the daemon: who may ask, what is let through, and how a
//! connection becomes a stream.
use crate::control::joined;
use crate::digest;
use crate::freio::{Admission, RefusalReason};
use crate::id::PaneId;
use crate::inproc;
use crate::inproc::{InProcess, Subscription};
use crate::inproc_model::MuxView;
use crate::shutai::{Declared, DeclaredView, Shutai, ShutaiView};
use crate::text;
use crate::wire;
use crate::wire::{Request, Response, WireError, WireErrorView};
use crate::yurai;
use vstd::prelude::*;
use vstd::string::StringExecFns;

verus! {

/// One frame of a connection: a request, or bytes that hold none this daemon
/// knows.
#[derive(Debug, PartialEq, Eq)]
pub enum Framed {
    Msg(Request),
    Undecodable { reason: String, len: usize },
}

/// What a frame leads to.
#[derive(Debug, PartialEq, Eq)]
pub enum Next {
    /// The answer; the connection stays open.
    Reply(Response),
    /// The connection becomes the stream of a pane.
    Subscribe(PaneId),
    /// The connection becomes the stream of configurations.
    SubscribeConfig,
    /// The request goes on to the dispatcher.
    Dispatch(Request),
}

/// What is known of a connection.
#[derive(Debug, PartialEq, Eq)]
pub struct Connection {
    required_token: Option<String>,
    authed: bool,
    client_id: Option<u64>,
    actor: Shutai,
}

/// The contents of a [`Connection`].
#[verifier::ext_equal]
pub struct ConnectionView {
    pub required_token: Option<Seq<char>>,
    pub authed: bool,
    pub client_id: Option<u64>,
    pub actor: ShutaiView,
}

impl View for Connection {
    type V = ConnectionView;

    closed spec fn view(&self) -> ConnectionView {
        ConnectionView {
            required_token: yurai::opt_text(self.required_token),
            authed: self.authed,
            client_id: self.client_id,
            actor: self.actor@,
        }
    }
}

/// What is said of a frame that holds no known request. A peer that has not
/// authenticated learns neither the version nor the reason.
pub open spec fn undecodable_text(
    authed: bool,
    version: Seq<char>,
    reason: Seq<char>,
) -> Seq<char> {
    if authed {
        "this daemon (tear-daemon "@ + version + ") cannot decode that request: "@ + reason
    } else {
        "unable to decode request; authenticate first"@
    }
}

/// What input a pane takes, as its session has it.
pub open spec fn admission(m: MuxView, id: PaneId) -> Option<Admission> {
    match m.registry.locate(id) {
        Some((sid, _)) => if m.sessions().dom().contains(sid.0) {
            m.sessions()[sid.0].admits(id)
        } else {
            None
        },
        None => None,
    }
}

/// A pane as messages name it, by its sixteen hexadecimal digits.
pub open spec fn pane_text(id: PaneId) -> Seq<char> {
    "PaneId("@ + digest::hex(id.0 as nat, 16) + ")"@
}

/// A client number as messages name it.
pub open spec fn client_text(c: Option<u64>) -> Seq<char> {
    match c {
        Some(n) => "Some("@ + text::decimal(n as nat) + ")"@,
        None => "None"@,
    }
}

pub open spec fn freio_text(id: PaneId) -> Seq<char> {
    "freio engaged: pane "@ + pane_text(id)
        + " is agent-driven and braked. The operator releases it with `tear freio --release`."@
}

pub open spec fn leader_text(id: PaneId, want: u64, client: Option<u64>) -> Seq<char> {
    "leader policy: pane "@ + pane_text(id) + " requires client_id="@ + text::decimal(want as nat)
        + ", connection identified as "@ + client_text(client)
}

/// Why keys are not let through, if they are not.
pub open spec fn keys_refusal(c: ConnectionView, m: MuxView, id: PaneId) -> Option<Seq<char>> {
    match admission(m, id) {
        Some(Admission::Refuse(RefusalReason::Freio)) => Some(freio_text(id)),
        Some(Admission::OnlyLeader { id: want }) => if c.client_id != Some(want) {
            Some(leader_text(id, want, c.client_id))
        } else {
            None
        },
        _ => None,
    }
}

/// The frame is answered with this refusal.
pub open spec fn replied(next: Next, text: Seq<char>) -> bool {
    next matches Next::Reply(r) && wire::refused(r, WireErrorView::Rejected(text))
}

/// What a request on an authenticated connection leads to.
pub open spec fn let_through(c: ConnectionView, m: MuxView, req: Request, next: Next) -> bool {
    match req {
        Request::SendKeys { id, .. } => match keys_refusal(c, m, id) {
            Some(t) => replied(next, t),
            None => next == Next::Dispatch(req),
        },
        Request::Subscribe(p) => next == Next::Subscribe(p),
        Request::SubscribeConfigChange => next is SubscribeConfig,
        _ => next == Next::Dispatch(req),
    }
}

/// What a frame leads to, and what is known of the connection after it.
pub open spec fn received(
    before: ConnectionView,
    after: ConnectionView,
    frame: Framed,
    m: MuxView,
    version: Seq<char>,
    next: Next,
) -> bool {
    match frame {
        Framed::Undecodable { reason, .. } => after == before && replied(
            next,
            undecodable_text(before.authed, version, reason@),
        ),
        Framed::Msg(Request::Authenticate(presented)) => match before.required_token {
            Some(expected) => if expected == presented@ {
                next == Next::Reply(Response::Done) && after == (ConnectionView {
                    authed: true,
                    ..before
                })
            } else {
                replied(next, "auth failed"@) && after == before
            },
            None => next == Next::Reply(Response::Done) && after == before,
        },
        Framed::Msg(req) => if !before.authed {
            replied(next, "authentication required: send Authenticate(token) first"@) && after
                == before
        } else {
            match req {
                Request::IdentifyClient(id) => next == Next::Reply(Response::Done) && after == (
                ConnectionView {
                    client_id: Some(id),
                    actor: ShutaiView {
                        declared: DeclaredView::Agent { label: Some(text::decimal(id as nat)) },
                        ..before.actor
                    },
                    ..before
                }),
                _ => after == before && let_through(before, m, req, next),
            }
        },
    }
}

fn reject(text: &str) -> (n: Next)
    ensures
        replied(n, text@),
{
    Next::Reply(Response::Refused(WireError::rejected(text)))
}

fn push_pane(out: &mut String, id: PaneId)
    ensures
        final(out)@ == old(out)@ + pane_text(id),
{
    let ghost before = out@;
    out.append("PaneId(");
    out.append(digest::hex_string(id.0, 16).as_str());
    out.append(")");
    assert(out@ =~= before + pane_text(id));
}

fn push_client(out: &mut String, c: Option<u64>)
    ensures
        final(out)@ == old(out)@ + client_text(c),
{
    let ghost before = out@;
    match c {
        Some(n) => {
            out.append("Some(");
            text::push_decimal(out, n as u128);
            out.append(")");
        },
        None => {
            out.append("None");
        },
    }
    assert(out@ =~= before + client_text(c));
}

/// Whether two texts are the same, looked at byte by byte to the end.
fn same_token(expected: &String, presented: &String) -> (b: bool)
    ensures
        b == (expected@ == presented@),
{
    let b = crate::auth::ct_eq(expected.as_str().as_bytes(), presented.as_str().as_bytes());
    proof {
        vstd::utf8::encode_utf8_decode_utf8(expected@);
        vstd::utf8::encode_utf8_decode_utf8(presented@);
    }
    b
}

impl Connection {
    /// A new connection: it counts as authenticated where no token is asked for.
    pub fn new(required_token: Option<String>, actor: Shutai) -> (c: Connection)
        ensures
            c@ == (ConnectionView {
                required_token: yurai::opt_text(required_token),
                authed: required_token is None,
                client_id: None,
                actor: actor@,
            }),
    {
        let authed = required_token.is_none();
        Connection { required_token, authed, client_id: None, actor }
    }

    pub fn actor(&self) -> (r: &Shutai)
        ensures
            r@ == self@.actor,
    {
        &self.actor
    }

    pub fn client_id(&self) -> (r: Option<u64>)
        ensures
            r == self@.client_id,
    {
        self.client_id
    }

    pub fn is_authenticated(&self) -> (b: bool)
        ensures
            b == self@.authed,
    {
        self.authed
    }

    /// Why keys for a pane are not let through, if they are not.
    pub fn keys_refusal(&self, inproc: &InProcess, id: PaneId) -> (r: Option<String>)
        ensures
            yurai::opt_text(r) == keys_refusal(self@, inproc@, id),
    {
        let adm = match inproc.registry.locate_pane(id) {
            Some((sid, _)) => match inproc.registry.sessions.get(sid.0) {
                Some(s) => s.admits(id),
                None => None,
            },
            None => None,
        };
        assert(adm == admission(inproc@, id));
        match adm {
            Some(Admission::Refuse(RefusalReason::Freio)) => {
                let mut s = String::from_str("freio engaged: pane ");
                push_pane(&mut s, id);
                s.append(
                    " is agent-driven and braked. The operator releases it with `tear freio --release`.",
                );
                assert(s@ =~= freio_text(id));
                Some(s)
            },
            Some(Admission::OnlyLeader { id: want }) => {
                let mine = match self.client_id {
                    Some(n) => n == want,
                    None => false,
                };
                if mine {
                    return None;
                }
                let mut s = String::from_str("leader policy: pane ");
                push_pane(&mut s, id);
                s.append(" requires client_id=");
                text::push_decimal(&mut s, want as u128);
                s.append(", connection identified as ");
                push_client(&mut s, self.client_id);
                assert(s@ =~= leader_text(id, want, self.client_id));
                Some(s)
            },
            _ => None,
        }
    }

    /// What a frame leads to.
    pub fn receive(&mut self, frame: Framed, inproc: &InProcess, version: &str) -> (next: Next)
        ensures
            received(old(self)@, final(self)@, frame, inproc@, version@, next),
    {
        let req = match frame {
            Framed::Undecodable { reason, .. } => {
                if self.authed {
                    let mut s = joined("this daemon (tear-daemon ", version);
                    s.append(") cannot decode that request: ");
                    s.append(reason.as_str());
                    return reject(s.as_str());
                }
                return reject("unable to decode request; authenticate first");
            },
            Framed::Msg(r) => r,
        };
        match &req {
            Request::Authenticate(presented) => {
                match &self.required_token {
                    Some(expected) => {
                        if same_token(expected, presented) {
                            self.authed = true;
                            return Next::Reply(Response::Done);
                        }
                        return reject("auth failed");
                    },
                    None => {
                        return Next::Reply(Response::Done);
                    },
                }
            },
            _ => {},
        }
        if !self.authed {
            return reject("authentication required: send Authenticate(token) first");
        }
        match req {
            Request::IdentifyClient(id) => {
                self.client_id = Some(id);
                let mut label = String::new();
                text::push_decimal(&mut label, id as u128);
                assert(label@ =~= text::decimal(id as nat));
                self.actor = self.actor.clone().declaring(Declared::Agent { label: Some(label) });
                Next::Reply(Response::Done)
            },
            Request::SendKeys { id, bytes } => {
                match self.keys_refusal(inproc, id) {
                    Some(s) => reject(s.as_str()),
                    None => Next::Dispatch(Request::SendKeys { id, bytes }),
                }
            },
            Request::Subscribe(p) => Next::Subscribe(p),
            Request::SubscribeConfigChange => Next::SubscribeConfig,
            other => Next::Dispatch(other),
        }
    }
}

// ── streams ──

/// How the stream of a pane begins.
#[derive(Debug, PartialEq, Eq)]
pub enum Opening {
    /// It does not: this is the answer, and the connection ends.
    Refused(Response),
    /// It does, with these frames before what the reader gets.
    Open { reader: Subscription, first: Vec<Response> },
}

/// The frames before what the reader of a pane gets: the request is done, then
/// the output that paints what the pane shows now, if it has a screen.
pub open spec fn opening_frames(m: MuxView, pane: PaneId, first: Seq<Response>) -> bool {
    &&& first.len() >= 1
    &&& first[0] is Done
    &&& if m.grids.dom().contains(pane.0) && replay_of(m, pane).len() > 0 {
        &&& first.len() == 2
        &&& first[1] matches Response::PaneBytes(b)
        &&& b@ == replay_of(m, pane)
    } else {
        first.len() == 1
    }
}

/// The output that paints what a pane shows.
pub open spec fn replay_of(m: MuxView, pane: PaneId) -> Seq<u8> {
    vstd::utf8::encode_utf8(m.grids[pane.0].grid.snapshot().replay())
}

/// Opens the stream of a pane. The reader is there before the screen is read,
/// so that nothing falls between the two.
pub fn open_subscription(inproc: &mut InProcess, pane: PaneId) -> (r: Opening)
    ensures
        match r {
            Opening::Refused(resp) => {
                &&& !old(inproc)@.live.contains(pane.0)
                &&& wire::refused(resp, WireErrorView::NoSuchPane(pane))
                &&& final(inproc)@ == old(inproc)@
            },
            Opening::Open { reader, first } => {
                &&& old(inproc)@.live.contains(pane.0)
                &&& reader.token == old(inproc)@.token
                &&& reader.open == (old(inproc)@.readers_of(pane).closed is None)
                &&& final(inproc)@ == inproc::subscribed(old(inproc)@, pane)
                &&& opening_frames(old(inproc)@, pane, first@)
            },
        },
{
    let reader = match inproc.subscribe_pane_bytes(pane) {
        Ok(r) => r,
        Err(e) => {
            return Opening::Refused(Response::Refused(WireError::from_control(e)));
        },
    };
    let mut first: Vec<Response> = Vec::new();
    first.push(Response::Done);
    match inproc.pane_snapshot(pane) {
        Ok(snap) => {
            let bytes = snap.to_ansi();
            if bytes.len() > 0 {
                first.push(Response::PaneBytes(bytes));
            }
        },
        Err(_) => {},
    }
    Opening::Open { reader, first }
}

/// The frame that carries what a reader gets: bytes of the pane, or that it is
/// gone.
pub fn stream_frame(pane: PaneId, chunk: Option<Vec<u8>>) -> (r: Response)
    ensures
        match chunk {
            Some(b) => r == Response::PaneBytes(b),
            None => r == Response::PaneClosed(pane),
        },
{
    match chunk {
        Some(b) => Response::PaneBytes(b),
        None => Response::PaneClosed(pane),
    }
}

// ── what holds of every connection ──

/// Before the right token has come, every frame is refused, whatever it holds,
/// and the connection stays as it was.
pub proof fn lemma_nothing_before_the_token(
    before: ConnectionView,
    after: ConnectionView,
    frame: Framed,
    m: MuxView,
    version: Seq<char>,
    next: Next,
)
    requires
        received(before, after, frame, m, version, next),
        !before.authed,
        before.required_token is Some,
        !(frame matches Framed::Msg(Request::Authenticate(t)) && Some(t@)
            == before.required_token),
    ensures
        after == before,
        next matches Next::Reply(r) && r is Refused,
{
}

/// What a peer that has not authenticated is told of a frame that holds no known
/// request depends on neither the version nor the reason.
pub proof fn lemma_strangers_learn_nothing(
    v1: Seq<char>,
    v2: Seq<char>,
    reason1: Seq<char>,
    reason2: Seq<char>,
)
    ensures
        undecodable_text(false, v1, reason1) == undecodable_text(false, v2, reason2),
{
}

/// A frame that holds no known request is refused and changes nothing of the
/// connection, which goes on.
pub proof fn lemma_undecodable_keeps_the_connection(
    before: ConnectionView,
    after: ConnectionView,
    frame: Framed,
    m: MuxView,
    version: Seq<char>,
    next: Next,
)
    requires
        received(before, after, frame, m, version, next),
        frame is Undecodable,
    ensures
        after == before,
        next matches Next::Reply(r) && r is Refused,
{
}

/// No frame changes what the kernel attests of the peer, nor the token that is
/// asked for, nor takes an authentication back.
pub proof fn lemma_attestation_stays(
    before: ConnectionView,
    after: ConnectionView,
    frame: Framed,
    m: MuxView,
    version: Seq<char>,
    next: Next,
)
    requires
        received(before, after, frame, m, version, next),
    ensures
        after.actor.attested == before.actor.attested,
        after.required_token == before.required_token,
        before.authed ==> after.authed,
{
}

/// While the brake of its session is engaged, no keys reach a pane that an
/// automation drives, whoever sends them.
pub proof fn lemma_brake_stops_keys(
    before: ConnectionView,
    after: ConnectionView,
    id: PaneId,
    bytes: Vec<u8>,
    m: MuxView,
    version: Seq<char>,
    next: Next,
)
    requires
        received(
            before,
            after,
            Framed::Msg(Request::SendKeys { id, bytes }),
            m,
            version,
            next,
        ),
        admission(m, id) == Some(Admission::Refuse(RefusalReason::Freio)),
    ensures
        next matches Next::Reply(r) && r is Refused,
        before.authed ==> replied(next, freio_text(id)),
{
}

/// Keys for a pane with a leader get through to the dispatcher from its leader
/// and from nobody else.
pub proof fn lemma_only_the_leader_types(
    before: ConnectionView,
    after: ConnectionView,
    id: PaneId,
    bytes: Vec<u8>,
    leader: u64,
    m: MuxView,
    version: Seq<char>,
    next: Next,
)
    requires
        received(
            before,
            after,
            Framed::Msg(Request::SendKeys { id, bytes }),
            m,
            version,
            next,
        ),
        admission(m, id) == Some(Admission::OnlyLeader { id: leader }),
        before.authed,
    ensures
        (next is Dispatch) <==> before.client_id == Some(leader),
{
}

/// A connection that has named itself is an automation, and stays a peer of the
/// user that the kernel attested.
pub proof fn lemma_named_connections_are_automations(
    before: ConnectionView,
    after: ConnectionView,
    client: u64,
    m: MuxView,
    version: Seq<char>,
    next: Next,
)
    requires
        received(
            before,
            after,
            Framed::Msg(Request::IdentifyClient(client)),
            m,
            version,
            next,
        ),
        before.authed,
    ensures
        after.actor.declared is Agent,
        after.actor.attested == before.actor.attested,
        after.client_id == Some(client),
        next == Next::Reply(Response::Done),
{
}

} // verus!
