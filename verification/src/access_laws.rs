//! Who may type into a pane, who a session was started by, and what a connection
//! must show first.
use crate::auth;
use crate::freio::{Admission, RefusalReason};
use crate::id::PaneId;
use crate::inproc_model::MuxView;
use crate::pane::InputPolicy;
use crate::serve;
use crate::serve::{received, Framed, Next};
use crate::session::{SourceView, TearSessionView};
use crate::shutai;
use crate::shutai::{DeclaredView, ShutaiView};
use crate::wire::{Request, Response};
use vstd::prelude::*;

verus! {

/// What a pane takes: nothing is known of a pane that is not there; a braked
/// automation takes nothing; of the others a free pane takes everyone's input, a
/// locked one nobody's, and one with a leader the leader's.
pub proof fn lemma_what_input_a_pane_takes(s: TearSessionView, pane: PaneId, id: u64)
    ensures
        ({
            let p = s.panes[pane.0];
            let there = s.panes.dom().contains(pane.0);
            let braked = s.freio is Engaged && p.yurai is Automation;
            &&& s.admits(pane) is None <==> !there
            &&& s.admits(pane) == Some(Admission::Refuse(RefusalReason::Freio)) <==> there && braked
            &&& s.admits(pane) == Some(Admission::Accept) <==> there && !braked
                && p.input_policy is Free
            &&& s.admits(pane) == Some(Admission::Refuse(RefusalReason::Policy)) <==> there
                && !braked && p.input_policy is Locked
            &&& s.admits(pane) == Some(Admission::OnlyLeader { id }) <==> there && !braked
                && p.input_policy == (InputPolicy::Leader { id })
        }),
{
}

/// A session counts as ended when it has a pane and the program of every pane has
/// ended.
pub proof fn lemma_a_session_with_a_running_program_is_alive(s: TearSessionView)
    ensures
        (exists|k: u64| #[trigger]
            s.panes.dom().contains(k) && !(s.panes[k].state is Exited)) ==> !s.dead(),
        s.panes.dom() =~= Set::empty() ==> !s.dead(),
        (exists|k: u64| #[trigger] s.panes.dom().contains(k)) && (forall|k: u64| #[trigger]
            s.panes.dom().contains(k) ==> s.panes[k].state is Exited) ==> s.dead(),
{
    if exists|k: u64| #[trigger] s.panes.dom().contains(k) && !(s.panes[k].state is Exited) {
        let k = choose|k: u64| #[trigger]
            s.panes.dom().contains(k) && !(s.panes[k].state is Exited);
        assert(!(s.panes[k].state is Exited));
    }
    if exists|k: u64| #[trigger] s.panes.dom().contains(k) {
        let k = choose|k: u64| #[trigger] s.panes.dom().contains(k);
        assert(s.panes.dom() != Set::<u64>::empty());
    }
}

/// Keys on a connection that was let in are passed on as they came, but for a
/// braked pane and for a pane whose leader is somebody else; nothing that is known
/// of the connection changes.
pub proof fn lemma_keys_are_passed_on(
    before: serve::ConnectionView,
    after: serve::ConnectionView,
    id: PaneId,
    bytes: Vec<u8>,
    m: MuxView,
    version: Seq<char>,
    next: Next,
)
    requires
        received(
            before,
            after,
            Framed::Msg(Request::SendKeys { id, bytes }),
            m,
            version,
            next,
        ),
        before.authed,
    ensures
        after == before,
        ({
            let a = serve::admission(m, id);
            let held = a == Some(Admission::Refuse(RefusalReason::Freio)) || (a is Some && a->0
                is OnlyLeader && before.client_id != Some((a->0)->id));
            &&& !held ==> next == Next::Dispatch(Request::SendKeys { id, bytes })
            &&& held ==> (next matches Next::Reply(r) && r is Refused)
        }),
{
}

/// Where a token is asked for, it alone lets a connection in; a wrong one changes
/// nothing and is refused. Where none is asked for, showing one is well.
pub proof fn lemma_only_the_token_lets_in(
    before: serve::ConnectionView,
    after: serve::ConnectionView,
    token: String,
    m: MuxView,
    version: Seq<char>,
    next: Next,
)
    requires
        received(before, after, Framed::Msg(Request::Authenticate(token)), m, version, next),
    ensures
        after == (serve::ConnectionView { authed: after.authed, ..before }),
        before.required_token == Some(token@) ==> after.authed && next == Next::Reply(
            Response::Done,
        ),
        before.required_token is Some && before.required_token != Some(token@) ==> after.authed
            == before.authed && (next matches Next::Reply(r) && r is Refused),
        before.required_token is None ==> after.authed == before.authed && next == Next::Reply(
            Response::Done,
        ),
{
}

/// A connection that was let in has its other requests passed on unchanged:
/// those that ask to be told of something to who tells it, and all others to the
/// dispatcher.
pub proof fn lemma_other_requests_are_passed_on(
    before: serve::ConnectionView,
    after: serve::ConnectionView,
    req: Request,
    m: MuxView,
    version: Seq<char>,
    next: Next,
)
    requires
        received(before, after, Framed::Msg(req), m, version, next),
        before.authed,
        !(req is Authenticate),
        !(req is IdentifyClient),
        !(req is SendKeys),
    ensures
        after == before,
        req matches Request::Subscribe(p) ==> next == Next::Subscribe(p),
        req is SubscribeConfigChange ==> next is SubscribeConfig,
        !(req is Subscribe) && !(req is SubscribeConfigChange) ==> next == Next::Dispatch(req),
{
}

/// A client that has named itself is known by its number: it is the leader where
/// the leader has that number.
pub proof fn lemma_a_named_client_can_lead(
    before: serve::ConnectionView,
    after: serve::ConnectionView,
    client: u64,
    m: MuxView,
    version: Seq<char>,
    next: Next,
)
    requires
        received(before, after, Framed::Msg(Request::IdentifyClient(client)), m, version, next),
        before.authed,
    ensures
        after.client_id == Some(client),
        after.authed,
        after.required_token == before.required_token,
        after.actor.attested == before.actor.attested,
        after.actor.source() == SourceView::Named(crate::text::decimal(client as nat)),
{
}

/// Who a session was started by: what is declared counts, except that a
/// connection of an automation is never put down to a person; what says nothing
/// is a person's.
pub proof fn lemma_who_started_a_session(declared: Option<SourceView>, conn: Option<SourceView>)
    ensures
        ({
            let s = shutai::derived_source(declared, conn);
            &&& (declared is Some && declared->0 != SourceView::Human) ==> s == declared->0
            &&& (declared is None || declared->0 == SourceView::Human) && conn is Some ==> s
                == conn->0
            &&& (declared is None || declared->0 == SourceView::Human) && conn is None ==> s
                == SourceView::Human
        }),
{
}

/// A connection is a person's until it declares an agent; an agent goes by its
/// name where it has one.
pub proof fn lemma_what_a_connection_counts_as(c: ShutaiView, name: Seq<char>)
    ensures
        !(c.declared is Agent) ==> c.source() == SourceView::Human,
        c.declared == (DeclaredView::Agent { label: None }) ==> c.source() == SourceView::Agent,
        c.declared == (DeclaredView::Agent { label: Some(name) }) ==> c.source()
            == SourceView::Named(name),
        SourceView::Human.label() == "human"@,
        SourceView::Agent.label() == "agent"@,
{
}

/// A token is asked for exactly where a variable is named and holds one; a
/// variable that is named and not there, or empty, stops the start.
pub proof fn lemma_a_named_token_is_never_dropped(
    name: Option<Seq<char>>,
    value: Option<Seq<char>>,
)
    ensures
        auth::required(name, value) == Ok::<Option<Seq<char>>, Seq<char>>(None) <==> name is None,
        name is Some ==> {
            &&& (value is Some && value->0.len() > 0) <==> auth::required(name, value) is Ok
            &&& auth::required(name, value) is Ok ==> auth::required(name, value)->Ok_0 == value
        },
{
}

/// Who asks to read a pane is first told that it is done, and then, where the pane
/// has a screen, gets what paints the screen as it is now; nothing else comes before
/// what the program writes.
pub proof fn lemma_a_reader_gets_the_screen_first(m: MuxView, pane: PaneId, first: Seq<Response>)
    requires
        serve::opening_frames(m, pane, first),
    ensures
        1 <= first.len() <= 2,
        first[0] is Done,
        !m.grids.dom().contains(pane.0) ==> first.len() == 1,
        m.grids.dom().contains(pane.0) ==> {
            let shown = vstd::utf8::encode_utf8(m.grids[pane.0].grid.snapshot().replay());
            &&& shown.len() > 0 ==> first.len() == 2 && (first[1] matches Response::PaneBytes(b)
                && b@ == shown)
            &&& shown.len() == 0 ==> first.len() == 1
        },
{
}

/// The names of the policies.
pub proof fn lemma_the_names_of_policies(id: u64)
    ensures
        InputPolicy::Free.spec_label() == "free"@,
        InputPolicy::Locked.spec_label() == "locked"@,
        (InputPolicy::Leader { id }).spec_label() == "leader"@,
{
}

} // verus!
