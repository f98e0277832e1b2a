//! The daemon: requests, connections, and what is kept of them.
use tear::audit::{audit_event, hash_str, AuditEvent};
use tear::auth::{check_tcp_bind, ct_eq, resolve_required_token};
use tear::daemon_state::{Answer, TearDaemonState};
use tear::dispatch::{
    dispatch, dispatch_with_shutai, resize_done, spawn_done, write_done, Started, Step, Surroundings,
};
use tear::freio::{Admission, RefusalReason};
use tear::governed::{
    aftermath, config_done, config_work, flush_first, learn, ConfigWork, Lesson,
};
use tear::id::{PaneId, SessionId, WindowId};
use tear::inproc::InProcess;
use tear::layout::{Direction, LayoutKind};
use tear::modes::ModeSet;
use tear::pane::InputPolicy;
use tear::pane_snapshot::Cell;
use tear::praca::{Place, Praca, SessionTheme};
use tear::serve::{open_subscription, stream_frame, Connection, Framed, Next, Opening};
use tear::session::SessionSource;
use tear::shutai::{derive_session_source, Attested, Declared, Shutai};
use tear::snapshot::PaneSnapshot;
use tear::spawn_env::SpawnEnv;
use tear::state_path::{default_praca_path, flush_session_recordings, state_dir};
use tear::wire::{Request, Response, WireError};
use tear::yurai::Yurai;

const NOW: u64 = 1_785_000_000;
const VERSION: &str = "0.1.8";

fn around() -> Surroundings {
    Surroundings {
        now: NOW,
        version: VERSION.to_string(),
        shell: "/bin/sh".to_string(),
        inherited: Vec::new(),
    }
}

fn finish(mux: &mut InProcess, step: Step) -> Response {
    match step {
        Step::Reply(r) => r,
        Step::Spawn { plan, what } => {
            let (r, gone) = spawn_done(mux, what, plan.pane, Ok(()));
            assert!(gone.is_empty());
            r
        }
        Step::Close { .. } => Response::Done,
        Step::Write { .. } => write_done(Ok(())),
        Step::Resize { pane, cols, rows } => resize_done(mux, pane, cols, rows, Ok(())),
        Step::MoveDivider { .. } => Response::Done,
        Step::Arrange { .. } => Response::Done,
    }
}

fn ask(mux: &mut InProcess, req: Request) -> Response {
    let step = dispatch(mux, req, &around());
    finish(mux, step)
}

fn new_session(name: &str) -> Request {
    Request::NewSession {
        name: name.to_string(),
        shell: "/bin/sh".to_string(),
        source: None,
        size_cells: None,
        args: Vec::new(),
    }
}

fn open(mux: &mut InProcess, name: &str) -> SessionId {
    match ask(mux, new_session(name)) {
        Response::SessionId(id) => id,
        other => panic!("unexpected response: {other:?}"),
    }
}

fn first_pane(mux: &InProcess, sid: SessionId) -> PaneId {
    PaneId(mux.get_session(sid).unwrap().panes.keys()[0])
}

fn automation(mux: &mut InProcess, name: &str, label: Option<&str>) -> (SessionId, PaneId) {
    let (sid, plan) = mux.new_session_yurai(
        name,
        "/bin/sh",
        &Vec::new(),
        SessionSource::Agent,
        (80, 24),
        Yurai::Automation { label: label.map(|l| l.to_string()) },
        Vec::new(),
        NOW,
    );
    assert!(mux.spawned(plan.pane));
    (sid, plan.pane)
}

fn serve_on(mux: &mut InProcess, frames: Vec<Framed>, token: Option<&str>) -> Vec<Response> {
    let mut conn = Connection::new(token.map(|t| t.to_string()), Shutai::remote());
    let mut out = Vec::new();
    for f in frames {
        match conn.receive(f, mux, VERSION) {
            Next::Reply(r) => out.push(r),
            Next::Dispatch(req) => {
                let step = dispatch_with_shutai(mux, req, &around(), Some(conn.actor()));
                out.push(finish(mux, step));
            }
            other => panic!("unexpected: {other:?}"),
        }
    }
    out
}

fn serve(frames: Vec<Framed>, token: Option<&str>) -> Vec<Response> {
    serve_on(&mut InProcess::new(), frames, token)
}

fn unknown_variant() -> Framed {
    Framed::Undecodable {
        reason: "unknown variant `ThisVariantDoesNotExistYet`".to_string(),
        len: 40,
    }
}

fn auth(t: &str) -> Framed {
    Framed::Msg(Request::Authenticate(t.to_string()))
}

fn list() -> Framed {
    Framed::Msg(Request::ListSessions)
}

fn hello(v: &str) -> Framed {
    Framed::Msg(Request::Hello { client_version: v.to_string() })
}

// ── the brake ──

#[test]
fn set_freio_engages_and_reports_what_it_could_not_reach() {
    let mut mux = InProcess::new();
    let (sid, _) = automation(&mut mux, "braked", Some("agent-one"));
    let resp = ask(&mut mux, Request::SetFreio { target: None, engaged: true });
    let Response::Freio { sessions, braked, unbrakable } = resp else {
        panic!("expected Response::Freio, got {resp:?}");
    };
    assert!(
        sessions.iter().any(|(id, f)| *id == sid && f.is_engaged()),
        "the session must record the brake"
    );
    assert_eq!(braked.len(), 1, "the agent pane is braked");
    assert!(unbrakable.is_empty(), "every pane here has known provenance");
    let pane = braked[0];
    let admission = mux
        .registry()
        .locate_pane(pane)
        .and_then(|(s, _)| mux.registry().sessions.get(s.0).and_then(|s| s.admits(pane)));
    assert_eq!(admission, Some(Admission::Refuse(RefusalReason::Freio)));
}

#[test]
fn a_pane_of_unknown_provenance_is_reported_as_unreached() {
    let mut mux = InProcess::new();
    let (_, plan) = mux.new_session("legacy", "/bin/sh", Vec::new(), NOW);
    assert!(mux.spawned(plan.pane));
    let resp = ask(&mut mux, Request::SetFreio { target: None, engaged: true });
    let Response::Freio { braked, unbrakable, .. } = resp else {
        panic!("expected Response::Freio");
    };
    assert!(braked.is_empty(), "nothing to brake — provenance unknown");
    assert_eq!(
        unbrakable.len(),
        1,
        "the operator MUST be told this pane kept accepting input"
    );
}

#[test]
fn releasing_the_brake_restores_input() {
    let mut mux = InProcess::new();
    let _ = automation(&mut mux, "a", None);
    let _ = ask(&mut mux, Request::SetFreio { target: None, engaged: true });
    let _ = ask(&mut mux, Request::SetFreio { target: None, engaged: false });
    let resp = ask(&mut mux, Request::GetFreio);
    let Response::Freio { sessions, .. } = resp else {
        panic!("expected Response::Freio");
    };
    assert!(
        sessions.iter().all(|(_, f)| !f.is_engaged()),
        "release must clear every brake"
    );
}

#[test]
fn a_brake_keeps_the_time_at_which_it_was_engaged() {
    let mut mux = InProcess::new();
    let (sid, _) = automation(&mut mux, "a", None);
    let _ = ask(&mut mux, Request::SetFreio { target: Some(sid), engaged: true });
    assert_eq!(mux.get_session(sid).unwrap().freio.engaged_at(), Some(NOW));
}

#[test]
fn keys_do_not_reach_a_braked_pane_from_anyone() {
    let mut mux = InProcess::new();
    let (_, pane) = automation(&mut mux, "b", Some("bot"));
    let _ = ask(&mut mux, Request::SetFreio { target: None, engaged: true });
    let keys = || Framed::Msg(Request::SendKeys { id: pane, bytes: b"x".to_vec() });
    let resps = serve_on(
        &mut mux,
        vec![keys(), Framed::Msg(Request::IdentifyClient(3)), keys()],
        None,
    );
    let text = format!(
        "freio engaged: pane PaneId({:016x}) is agent-driven and braked. The operator releases it with `tear freio --release`.",
        pane.0
    );
    assert_eq!(resps[0], Response::Refused(WireError::Rejected(text.clone())));
    assert_eq!(resps[2], Response::Refused(WireError::Rejected(text)));
    let _ = ask(&mut mux, Request::SetFreio { target: None, engaged: false });
    assert_eq!(serve_on(&mut mux, vec![keys()], None), vec![Response::Done]);
}

#[test]
fn only_the_leader_of_a_pane_types() {
    let mut mux = InProcess::new();
    let sid = open(&mut mux, "led");
    let pane = first_pane(&mux, sid);
    mux.set_input_policy(pane, InputPolicy::leader(7)).unwrap();
    let keys = || Framed::Msg(Request::SendKeys { id: pane, bytes: b"x".to_vec() });
    let resps = serve_on(
        &mut mux,
        vec![
            keys(),
            Framed::Msg(Request::IdentifyClient(8)),
            keys(),
            Framed::Msg(Request::IdentifyClient(7)),
            keys(),
        ],
        None,
    );
    assert_eq!(
        resps[0],
        Response::Refused(WireError::Rejected(format!(
            "leader policy: pane PaneId({:016x}) requires client_id=7, connection identified as None",
            pane.0
        )))
    );
    assert_eq!(
        resps[2],
        Response::Refused(WireError::Rejected(format!(
            "leader policy: pane PaneId({:016x}) requires client_id=7, connection identified as Some(8)",
            pane.0
        )))
    );
    assert_eq!(resps[4], Response::Done);
}

#[test]
fn a_locked_pane_is_refused_by_the_multiplexer() {
    let mut mux = InProcess::new();
    let sid = open(&mut mux, "locked");
    let pane = first_pane(&mux, sid);
    mux.set_input_policy(pane, InputPolicy::Locked).unwrap();
    let keys = Framed::Msg(Request::SendKeys { id: pane, bytes: b"x".to_vec() });
    let resps = serve_on(&mut mux, vec![keys], None);
    assert_eq!(
        resps[0],
        Response::Refused(WireError::Rejected(format!(
            "pane {} input_policy=locked \u{2014} send_keys rejected",
            pane.to_string()
        )))
    );
}

// ── who acts ──

#[test]
fn an_agent_connection_cannot_register_a_session_as_human() {
    let agent = Shutai::from_peer_uid(501).declaring(Declared::Agent { label: None });
    assert_eq!(
        derive_session_source(Some(SessionSource::Human), Some(&agent)),
        SessionSource::Agent,
        "an automation must not be able to label itself Human"
    );
    assert_eq!(derive_session_source(None, Some(&agent)), SessionSource::Agent);
}

#[test]
fn a_named_automation_keeps_its_own_label() {
    let agent = Shutai::from_peer_uid(501).declaring(Declared::Agent { label: None });
    assert_eq!(
        derive_session_source(Some(SessionSource::Named("pleme-ci".into())), Some(&agent)),
        SessionSource::Named("pleme-ci".into()),
        "a specific label must survive — refinement is allowed"
    );
}

#[test]
fn a_human_connection_and_no_connection_both_preserve_the_request() {
    let human = Shutai::from_peer_uid(501).declaring(Declared::Human);
    assert_eq!(
        derive_session_source(Some(SessionSource::Human), Some(&human)),
        SessionSource::Human
    );
    assert_eq!(
        derive_session_source(Some(SessionSource::Agent), None),
        SessionSource::Agent,
        "with no connection to derive from, the request is all there is"
    );
    assert_eq!(derive_session_source(None, None), SessionSource::default());
}

#[test]
fn a_declaration_cannot_overwrite_the_attested_half() {
    let attested = Shutai::from_peer_uid(501);
    let declared = attested.clone().declaring(Declared::Agent { label: Some("42".into()) });
    assert_eq!(
        declared.attested(),
        attested.attested(),
        "declaring changed the attested half — the halves are not actually separated"
    );
    assert!(declared.is_automation());
    assert!(!attested.is_automation());
    assert_eq!(declared.session_source(), SessionSource::Named("42".into()));
    assert_eq!(*Shutai::remote().attested(), Attested::Remote);
    assert_eq!(*attested.declared(), Declared::Unknown);
}

#[test]
fn a_session_of_a_named_connection_carries_its_name() {
    let mut mux = InProcess::new();
    let resps = serve_on(
        &mut mux,
        vec![Framed::Msg(Request::IdentifyClient(42)), Framed::Msg(new_session("auto"))],
        None,
    );
    let Response::SessionId(sid) = &resps[1] else {
        panic!("unexpected: {resps:?}");
    };
    assert_eq!(mux.get_session(*sid).unwrap().source, SessionSource::Named("42".into()));
}

// ── where the daemon listens ──

#[test]
fn a_reachable_address_needs_a_token() {
    let e = check_tcp_bind("0.0.0.0:7000", false, false).unwrap_err();
    assert!(e.starts_with("refusing to bind 0.0.0.0:7000: "), "{e}");
    assert!(e.contains("auth_token_env"), "the refusal must name the fix: {e}");
    assert_eq!(check_tcp_bind("0.0.0.0:7000", false, true), Ok(()));
    assert_eq!(check_tcp_bind("127.0.0.1:0", true, false), Ok(()));
}

#[test]
fn resolve_required_token_missing_env_errors() {
    let name = Some("__TEAR_NO_SUCH_VAR_FOR_TESTS__".to_string());
    let msg = resolve_required_token(&name, &None).expect_err("missing env must error");
    assert!(msg.contains("__TEAR_NO_SUCH_VAR_FOR_TESTS__"), "msg: {msg}");
}

#[test]
fn resolve_required_token_none_when_unset() {
    assert!(resolve_required_token(&None, &None).unwrap().is_none());
}

#[test]
fn an_empty_token_is_refused_and_a_real_one_taken() {
    let name = Some("TOKEN_VAR".to_string());
    let e = resolve_required_token(&name, &Some(String::new())).unwrap_err();
    assert_eq!(e, "auth_token_env=TOKEN_VAR is set but the env var is empty");
    let t = resolve_required_token(&name, &Some("secret".to_string())).unwrap();
    assert_eq!(t.as_deref(), Some("secret"));
}

#[test]
fn ct_eq_returns_true_for_matching_bytes() {
    assert!(ct_eq(b"abc", b"abc"));
    assert!(ct_eq(b"", b""));
}

#[test]
fn ct_eq_returns_false_for_differing_bytes_or_lengths() {
    assert!(!ct_eq(b"abc", b"abd"));
    assert!(!ct_eq(b"abc", b"abcd"));
    assert!(!ct_eq(b"abc", b""));
}

// ── requests ──

#[test]
fn dispatch_list_sessions_on_fresh_inproc_returns_empty() {
    let mut mux = InProcess::new();
    match ask(&mut mux, Request::ListSessions) {
        Response::Sessions(v) => assert!(v.is_empty()),
        other => panic!("unexpected response: {other:?}"),
    }
}

#[test]
fn dispatch_new_session_then_list_sees_it() {
    let mut mux = InProcess::new();
    let session_id = open(&mut mux, "work");
    match ask(&mut mux, Request::ListSessions) {
        Response::Sessions(v) => {
            assert_eq!(v.len(), 1);
            assert_eq!(v[0].id, session_id);
        }
        other => panic!("unexpected response: {other:?}"),
    }
}

#[test]
fn dispatch_get_nonexistent_session_returns_wire_error() {
    let mut mux = InProcess::new();
    let bogus = SessionId::from_seed("nope");
    match ask(&mut mux, Request::GetSession(bogus)) {
        Response::Refused(WireError::NoSuchSession(id)) => assert_eq!(id, bogus),
        other => panic!("unexpected response: {other:?}"),
    }
}

#[test]
fn dispatch_subscribe_in_dispatch_path_returns_rejected() {
    let mut mux = InProcess::new();
    let bogus = PaneId::from_seed("nope");
    match ask(&mut mux, Request::Subscribe(bogus)) {
        Response::Refused(WireError::Rejected(msg)) => {
            assert!(msg.contains("serve_connection"));
        }
        other => panic!("expected Rejected, got {other:?}"),
    }
}

#[test]
fn dispatch_pane_resize_absolute_on_nonexistent_pane_returns_nosuch() {
    let mut mux = InProcess::new();
    let pane = PaneId::from_seed("nope");
    match ask(&mut mux, Request::PaneResizeAbsolute { id: pane, cols: 80, rows: 24 }) {
        Response::Refused(WireError::NoSuchPane(p)) => assert_eq!(p, pane),
        other => panic!("expected NoSuchPane, got {other:?}"),
    }
}

#[test]
fn dispatch_pane_snapshot_on_nonexistent_pane_returns_nosuch() {
    let mut mux = InProcess::new();
    let pane = PaneId::from_seed("nope");
    match ask(&mut mux, Request::PaneSnapshot(pane)) {
        Response::Refused(WireError::NoSuchPane(p)) => assert_eq!(p, pane),
        other => panic!("expected NoSuchPane, got {other:?}"),
    }
}

#[test]
fn dispatch_kill_then_get_session_returns_nosuch() {
    let mut mux = InProcess::new();
    let sid = open(&mut mux, "x");
    match ask(&mut mux, Request::KillSession(sid)) {
        Response::Done => {}
        other => panic!("expected Done, got {other:?}"),
    }
    match ask(&mut mux, Request::GetSession(sid)) {
        Response::Refused(WireError::NoSuchSession(s)) => assert_eq!(s, sid),
        other => panic!("expected NoSuchSession, got {other:?}"),
    }
}

#[test]
fn configuration_requests_are_not_for_the_plain_dispatcher() {
    let mut mux = InProcess::new();
    for req in [
        Request::GetConfig,
        Request::ReloadConfig,
        Request::SetConfig("a: 1".to_string()),
        Request::SubscribeConfigChange,
    ] {
        assert!(matches!(ask(&mut mux, req), Response::Refused(WireError::Rejected(_))));
    }
    assert_eq!(ask(&mut mux, Request::Authenticate("x".into())), Response::Done);
    assert_eq!(ask(&mut mux, Request::IdentifyClient(1)), Response::Done);
}

#[test]
fn a_request_for_a_terminal_says_what_to_do_with_it() {
    let mut mux = InProcess::new();
    let sid = open(&mut mux, "terminals");
    let pane = first_pane(&mux, sid);
    let wid = mux.get_session(sid).unwrap().active_window;
    let a = around();
    assert_eq!(
        dispatch(&mut mux, Request::SendKeys { id: pane, bytes: b"ls".to_vec() }, &a),
        Step::Write { pane, bytes: b"ls".to_vec() }
    );
    assert_eq!(
        dispatch(&mut mux, Request::PaneResizeAbsolute { id: pane, cols: 9, rows: 8 }, &a),
        Step::Resize { pane, cols: 9, rows: 8 }
    );
    assert_eq!(
        dispatch(
            &mut mux,
            Request::ResizePane { id: pane, direction: Direction::Right, delta_cells: -3 },
            &a
        ),
        Step::MoveDivider {
            session: sid,
            window: wid,
            pane,
            direction: Direction::Right,
            delta_cells: -3,
            span: 80,
        }
    );
    assert_eq!(
        dispatch(&mut mux, Request::ApplyLayout { window: wid, kind: LayoutKind::Tiled }, &a),
        Step::Arrange { window: wid, kind: LayoutKind::Tiled, panes: vec![pane] }
    );
    let split = Request::SplitPane {
        origin: pane,
        direction: Direction::Below,
        shell: "/bin/sh".to_string(),
        args: vec!["-l".to_string()],
    };
    match dispatch(&mut mux, split, &a) {
        Step::Spawn { plan, what } => {
            assert_eq!(plan.size, (80, 12));
            assert_eq!(plan.args, vec!["-l".to_string()]);
            assert_eq!(what, Started::Pane { session: sid, window: wid, pane: plan.pane });
            let (r, gone) = spawn_done(&mut mux, what, plan.pane, Ok(()));
            assert_eq!((r, gone), (Response::PaneId(plan.pane), Vec::new()));
            match dispatch(&mut mux, Request::KillPane(plan.pane), &a) {
                Step::Close { panes, reflow } => {
                    assert_eq!(panes, vec![plan.pane]);
                    assert_eq!(reflow, Some((sid, wid)));
                }
                other => panic!("unexpected: {other:?}"),
            }
        }
        other => panic!("unexpected: {other:?}"),
    }
}

#[test]
fn what_the_terminal_reports_becomes_the_answer() {
    let mut mux = InProcess::new();
    let step = dispatch(&mut mux, new_session("bad"), &around());
    let Step::Spawn { plan, what } = step else { panic!("no spawn") };
    let (r, gone) = spawn_done(&mut mux, what, plan.pane, Err("no such file".to_string()));
    assert_eq!(r, Response::Refused(WireError::Internal("no such file".to_string())));
    assert!(gone.is_empty());
    assert!(mux.list_sessions().is_empty());
    assert!(mux.grids.keys().is_empty());
    let late = Started::Window(WindowId(4));
    let (r, gone) = spawn_done(&mut mux, late, PaneId(9), Ok(()));
    assert_eq!((r, gone), (Response::WindowId(WindowId(4)), vec![PaneId(9)]));
    assert_eq!(
        write_done(Err("gone".to_string())),
        Response::Refused(WireError::Transport("gone".to_string()))
    );
    assert_eq!(
        resize_done(&mut mux, PaneId(1), 2, 3, Err("bad".to_string())),
        Response::Refused(WireError::Internal("bad".to_string()))
    );
}

#[test]
fn a_size_of_nothing_becomes_a_size_of_one() {
    let mut mux = InProcess::new();
    let req = Request::NewSession {
        name: "tiny".to_string(),
        shell: "/bin/sh".to_string(),
        source: None,
        size_cells: Some((0, 0)),
        args: Vec::new(),
    };
    match dispatch(&mut mux, req, &around()) {
        Step::Spawn { plan, .. } => assert_eq!(plan.size, (1, 1)),
        other => panic!("unexpected: {other:?}"),
    }
}

// ── connections ──

#[test]
fn auth_required_rejects_other_requests_until_authenticate() {
    let resps = serve(vec![list(), auth("wrong"), auth("secret"), list()], Some("secret"));
    assert_eq!(resps.len(), 4, "got: {resps:?}");
    assert!(matches!(resps[0], Response::Refused(WireError::Rejected(_))));
    assert!(matches!(resps[1], Response::Refused(WireError::Rejected(_))));
    assert!(matches!(resps[2], Response::Done));
    assert!(matches!(resps[3], Response::Sessions(_)));
}

#[test]
fn no_auth_required_accepts_requests_immediately() {
    let resps = serve(vec![list()], None);
    assert!(matches!(resps.first(), Some(Response::Sessions(_))), "got: {resps:?}");
}

#[test]
fn re_authenticate_after_success_returns_ok_again() {
    let resps = serve(vec![auth("k"), auth("k")], Some("k"));
    assert_eq!(resps.len(), 2);
    assert!(matches!(resps[0], Response::Done));
    assert!(matches!(resps[1], Response::Done));
}

#[test]
fn pre_emptive_authenticate_on_no_auth_daemon_is_ok() {
    let resps = serve(vec![auth("anything")], None);
    assert!(matches!(resps.first(), Some(Response::Done)), "got: {resps:?}");
}

#[test]
fn identify_client_is_idempotent_and_returns_ok() {
    let resps = serve(
        vec![
            Framed::Msg(Request::IdentifyClient(1)),
            Framed::Msg(Request::IdentifyClient(99)),
            list(),
        ],
        None,
    );
    assert_eq!(resps.len(), 3);
    assert!(matches!(resps[0], Response::Done));
    assert!(matches!(resps[1], Response::Done));
    assert!(matches!(resps[2], Response::Sessions(_)));
}

#[test]
fn an_unknown_request_variant_is_refused_and_the_connection_survives() {
    let resps = serve(vec![unknown_variant(), list()], None);
    assert_eq!(
        resps.len(),
        2,
        "the connection must survive an undecodable frame; got: {resps:?}"
    );
    match &resps[0] {
        Response::Refused(WireError::Rejected(msg)) => {
            assert!(msg.contains("cannot decode that request"), "got: {msg}");
            assert!(msg.contains("unknown variant"), "got: {msg}");
            assert!(msg.contains(VERSION), "got: {msg}");
        }
        other => panic!("expected a Rejected refusal, got: {other:?}"),
    }
    assert!(matches!(resps[1], Response::Sessions(_)), "got: {:?}", resps[1]);
}

#[test]
fn an_unauthenticated_peer_is_refused_without_learning_the_daemons_shape() {
    let resps = serve(vec![unknown_variant(), auth("secret"), list()], Some("secret"));
    assert_eq!(resps.len(), 3, "connection must survive; got: {resps:?}");
    match &resps[0] {
        Response::Refused(WireError::Rejected(msg)) => {
            assert!(
                !msg.contains(VERSION),
                "pre-auth refusal must not disclose the daemon version: {msg}"
            );
            assert!(
                !msg.contains("unknown variant"),
                "pre-auth refusal must not enumerate known variants: {msg}"
            );
            assert!(msg.contains("authenticate first"), "{msg}");
        }
        other => panic!("expected a Rejected refusal, got: {other:?}"),
    }
    assert!(matches!(resps[1], Response::Done), "auth must still work");
    assert!(matches!(resps[2], Response::Sessions(_)));
}

#[test]
fn an_unknown_request_variant_is_never_answered_ok() {
    let resps = serve(vec![unknown_variant()], None);
    assert!(
        !resps.iter().any(|r| matches!(r, Response::Done)),
        "an undecodable request must never read as success: {resps:?}"
    );
}

#[test]
fn hello_answers_with_this_daemons_version_and_capabilities() {
    let resps = serve(vec![hello("99.99.99")], None);
    match resps.first() {
        Some(Response::Hello(h)) => {
            assert_eq!(h.daemon_version, VERSION);
            assert_ne!(h.daemon_version, "99.99.99", "echoed the client's version");
            assert!(h.capabilities.contains(&"spawn-args".to_owned()));
        }
        other => panic!("expected Response::Hello, got: {other:?}"),
    }
}

#[test]
fn hello_before_authenticate_is_rejected_on_an_auth_required_daemon() {
    let resps = serve(vec![hello("0.0.0"), auth("secret"), hello("0.0.0")], Some("secret"));
    assert_eq!(resps.len(), 3, "got: {resps:?}");
    assert!(matches!(resps[0], Response::Refused(WireError::Rejected(_))));
    assert!(matches!(resps[1], Response::Done));
    assert!(matches!(resps[2], Response::Hello(_)));
}

#[test]
fn both_dispatchers_report_the_same_daemon_identity() {
    let mut mux = InProcess::new();
    let req = || Request::Hello { client_version: String::new() };
    let actor = Shutai::from_peer_uid(1);
    let a = dispatch(&mut mux, req(), &around());
    let b = dispatch_with_shutai(&mut mux, req(), &around(), Some(&actor));
    match (a, b) {
        (Step::Reply(Response::Hello(x)), Step::Reply(Response::Hello(y))) => assert_eq!(x, y),
        (x, y) => panic!("expected two Hellos, got {x:?} / {y:?}"),
    }
}

#[test]
fn streams_are_asked_for_on_a_connection() {
    let mux = InProcess::new();
    let mut conn = Connection::new(None, Shutai::remote());
    let pane = PaneId(5);
    assert_eq!(
        conn.receive(Framed::Msg(Request::Subscribe(pane)), &mux, VERSION),
        Next::Subscribe(pane)
    );
    assert_eq!(
        conn.receive(Framed::Msg(Request::SubscribeConfigChange), &mux, VERSION),
        Next::SubscribeConfig
    );
    assert!(conn.is_authenticated());
    assert_eq!(conn.client_id(), None);
}

#[test]
fn a_stream_begins_with_what_the_pane_shows() {
    let mut mux = InProcess::new();
    let sid = open(&mut mux, "stream");
    let pane = first_pane(&mux, sid);
    let _ = mux.on_bytes(pane, b"hello");
    match open_subscription(&mut mux, pane) {
        Opening::Open { reader, first } => {
            assert!(reader.open);
            assert_eq!(first.len(), 2);
            assert_eq!(first[0], Response::Done);
            match &first[1] {
                Response::PaneBytes(b) => {
                    let s = String::from_utf8_lossy(b);
                    assert!(
                        s.contains("\x1b[0m") && s.contains("\x1b[2J") && s.contains("\x1b[H"),
                        "expected ANSI replay prelude, got {s:?}"
                    );
                    assert!(s.contains("hello"));
                }
                other => panic!("expected PaneBytes replay, got {other:?}"),
            }
            assert_eq!(mux.on_bytes(pane, b"!"), vec![reader.token]);
        }
        other => panic!("unexpected: {other:?}"),
    }
    assert_eq!(
        open_subscription(&mut mux, PaneId(9)),
        Opening::Refused(Response::Refused(WireError::NoSuchPane(PaneId(9))))
    );
    assert_eq!(stream_frame(pane, Some(vec![1])), Response::PaneBytes(vec![1]));
    assert_eq!(stream_frame(pane, None), Response::PaneClosed(pane));
}

#[test]
fn to_ansi_emits_known_byte_sequence_for_known_grid() {
    let cell = |ch: char| Cell { ch, ..Cell::blank() };
    let mut snap = PaneSnapshot {
        rows: 1,
        cols: 5,
        cells: vec![vec![cell('h'), cell('e'), cell('l'), cell('l'), cell('o')]],
        cursor_row: 0,
        cursor_col: 5,
        alt_screen_active: false,
        cursor_visible: true,
        title: None,
        cursor_keys_mode: false,
        scrollback: Vec::new(),
        combining: Vec::new(),
        modes: ModeSet::default(),
        graphics: Vec::new(),
    };
    let bytes = snap.to_ansi();
    let s = String::from_utf8_lossy(&bytes).into_owned();
    assert!(s.starts_with("\x1b[0m\x1b[2J\x1b[H"));
    assert!(s.contains("\x1b[1;1H"));
    assert!(s.contains("hello"));
    assert!(s.contains("\x1b[1;6H"));
    snap.cursor_visible = false;
    let bytes_hidden = snap.to_ansi();
    let s_hidden = String::from_utf8_lossy(&bytes_hidden);
    assert!(s_hidden.contains("\x1b[?25l"));
}

// ── what is recorded ──

#[test]
fn audit_event_serialises_with_kind_tag() {
    let ev = AuditEvent::SessionKill { ts_ms: 1_700_000_000_000, sid: "abcd1234".into() };
    let s = ev.to_json();
    assert!(s.contains("\"kind\":\"session_kill\""), "got: {s}");
    assert!(s.contains("\"sid\":\"abcd1234\""), "got: {s}");
}

#[test]
fn events_have_an_exact_line() {
    let ev = AuditEvent::SessionCreate {
        ts_ms: 1,
        sid: "s1".into(),
        name: "n\n\"1".into(),
        shell: "/bin/sh".into(),
        source: "human".into(),
    };
    assert_eq!(
        ev.to_json(),
        "{\"kind\":\"session_create\",\"ts_ms\":1,\"sid\":\"s1\",\"name\":\"n\\n\\\"1\",\"shell\":\"/bin/sh\",\"source\":\"human\"}"
    );
    let ev = AuditEvent::SetInputPolicy { ts_ms: 2, pid: "p".into(), policy: "free".into() };
    assert_eq!(
        ev.to_json(),
        "{\"kind\":\"set_input_policy\",\"ts_ms\":2,\"pid\":\"p\",\"policy\":\"free\"}"
    );
    let ev = AuditEvent::StartRecording { ts_ms: 3, pid: "p".into() };
    assert_eq!(ev.to_json(), "{\"kind\":\"start_recording\",\"ts_ms\":3,\"pid\":\"p\"}");
    let ev = AuditEvent::StopRecording { ts_ms: 4, pid: "p".into() };
    assert_eq!(ev.to_json(), "{\"kind\":\"stop_recording\",\"ts_ms\":4,\"pid\":\"p\"}");
    let ev = AuditEvent::SetConfig { ts_ms: 5, config_hash: "ab".into() };
    assert_eq!(ev.to_json(), "{\"kind\":\"set_config\",\"ts_ms\":5,\"config_hash\":\"ab\"}");
    assert!(AuditEvent::now_ms() > 1_600_000_000_000);
}

#[test]
fn what_was_carried_out_is_recorded_and_nothing_else() {
    let sid = SessionId(0xab);
    let req = new_session("work");
    let agent = Shutai::from_peer_uid(1).declaring(Declared::Agent { label: None });
    assert_eq!(
        audit_event(&req, Some(&agent), &Response::SessionId(sid), 9),
        Some(AuditEvent::SessionCreate {
            ts_ms: 9,
            sid: "00000000000000ab".into(),
            name: "work".into(),
            shell: "/bin/sh".into(),
            source: "agent".into(),
        })
    );
    let refusal = Response::Refused(WireError::Internal("x".into()));
    assert_eq!(audit_event(&req, None, &refusal, 9), None);
    assert_eq!(
        audit_event(&Request::KillSession(sid), None, &Response::Done, 9),
        Some(AuditEvent::SessionKill { ts_ms: 9, sid: "00000000000000ab".into() })
    );
    assert_eq!(audit_event(&Request::KillSession(sid), None, &refusal, 9), None);
    let policy = Request::SetInputPolicy { id: PaneId(1), policy: InputPolicy::leader(4) };
    assert_eq!(
        audit_event(&policy, None, &Response::Done, 9),
        Some(AuditEvent::SetInputPolicy {
            ts_ms: 9,
            pid: "0000000000000001".into(),
            policy: "leader".into(),
        })
    );
    assert_eq!(
        audit_event(&Request::SetConfig("a: 1".into()), None, &Response::Done, 9),
        Some(AuditEvent::SetConfig { ts_ms: 9, config_hash: hash_str("a: 1") })
    );
    assert_eq!(audit_event(&Request::ListSessions, None, &Response::Done, 9), None);
    assert_eq!(hash_str("a: 1"), blake3::hash(b"a: 1").to_hex().to_string());
}

#[test]
fn recordings_are_kept_when_a_session_is_killed() {
    let mut mux = InProcess::new();
    let sid = open(&mut mux, "flush");
    let pane = first_pane(&mux, sid);
    mux.enable_pane_recording(pane).unwrap();
    assert!(flush_session_recordings(&mux, sid, "/rec", "/bin/sh", 12).is_empty());
    let _ = mux.on_bytes(pane, b"hi");
    let files = flush_session_recordings(&mux, sid, "/rec", "/bin/sh", 12);
    assert_eq!(files.len(), 1);
    assert_eq!(files[0].0, format!("/rec/{}-12-{}.cast", sid.to_string(), pane.to_string()));
    assert_eq!(files[0].1.lines().count(), 2);
    assert!(flush_session_recordings(&mux, SessionId(1), "/rec", "/bin/sh", 12).is_empty());
}

// ── what is remembered ──

#[test]
fn new_session_without_spawn_cwd_skips_binding() {
    let mut mux = InProcess::new();
    let sid = open(&mut mux, "no-cwd");
    assert_eq!(mux.spawn_cwd(), None);
    let mut p = Praca::new();
    learn(&mut p, Lesson::Created(sid), mux.spawn_cwd(), None, 5);
    assert!(p.record(sid).is_none());
    assert_eq!(p.lookup("/x"), None);
    let kept = p.keep();
    assert!(kept.records.is_empty(), "nothing is recorded");
    assert!(kept.bindings.is_empty(), "nothing is bound");
}

#[test]
fn a_project_leads_to_its_session_until_it_is_killed() {
    let mut mux = InProcess::new();
    mux.set_spawn_env(SpawnEnv::none().with_cwd(Some("/code/mado/src".to_string())));
    let sid = open(&mut mux, "praca");
    let mut p = Praca::new();
    p.on_session_create(sid, mux.spawn_cwd(), Some("/code/mado".to_string()), 100);
    assert_eq!(p.lookup("/code/mado"), Some(sid));
    assert_eq!(p.lookup("/code/mado/src"), None);
    let rec = p.record(sid).unwrap();
    assert_eq!(rec.place, Place::Project { root: "/code/mado".to_string() });
    assert_eq!((rec.cwd.as_str(), rec.visits, rec.last_seen), ("/code/mado/src", 1, 100));
    p.on_session_rename(sid, "tide");
    assert_eq!(p.record(sid).unwrap().custom_name.as_deref(), Some("tide"));
    p.on_session_create(sid, mux.spawn_cwd(), Some("/code/mado".to_string()), 200);
    assert_eq!(p.record(sid).unwrap().visits, 2);
    p.on_session_kill(sid);
    assert_eq!(p.lookup("/code/mado"), None);
    assert!(p.record(sid).is_none());
}

#[test]
fn a_session_outside_any_project_is_bound_to_its_directory() {
    let mut p = Praca::new();
    p.on_session_create(SessionId(4), Some("/tmp".to_string()), None, 1);
    p.on_session_create(SessionId(5), Some("/var".to_string()), None, 1);
    assert_eq!(p.record(SessionId(4)).unwrap().place, Place::Adhoc { theme: SessionTheme::Frost });
    assert_eq!(p.record(SessionId(5)).unwrap().place, Place::Adhoc { theme: SessionTheme::Brazil });
    assert_eq!(p.lookup("/tmp"), Some(SessionId(4)));
    p.on_session_create(SessionId(6), Some("/tmp".to_string()), None, 2);
    assert_eq!(p.lookup("/tmp"), Some(SessionId(6)));
    p.on_session_rename(SessionId(77), "nobody");
    assert!(p.record(SessionId(77)).is_none());
}

#[test]
fn the_state_directory_follows_its_ladder() {
    let s = |v: &str| Some(v.to_string());
    assert_eq!(state_dir(&s(""), &s("/x"), &s("/h")), "");
    assert_eq!(state_dir(&None, &s("/x"), &s("/h")), "/x");
    assert_eq!(state_dir(&None, &s(""), &s("/h")), "/h/.local/state");
    assert_eq!(state_dir(&None, &None, &s("/h/")), "/h/.local/state");
    assert_eq!(state_dir(&None, &None, &None), ".");
    assert_eq!(default_praca_path(&s("/s"), &None, &None), "/s/tear/praca.json");
    assert_eq!(default_praca_path(&s(""), &None, &None), "tear/praca.json");
}

// ── what the daemon tells of itself ──

#[test]
fn the_daemon_answers_questions_about_itself() {
    let mut mux = InProcess::new();
    let state = TearDaemonState::new(1_000);
    let q = |mux: &InProcess, s: &str| state.query(mux, &vec![s.to_string()], 1_500);
    assert_eq!(q(&mux, "panes"), Ok(Answer::Panes { total: 0 }));
    assert_eq!(q(&mux, "socket"), Ok(Answer::Socket { path: None }));
    mux.set_socket_path("/tmp/t.sock".to_string());
    assert_eq!(q(&mux, "socket"), Ok(Answer::Socket { path: Some("/tmp/t.sock".to_string()) }));
    let sid = open(&mut mux, "one");
    let pane = first_pane(&mux, sid);
    let split = Request::SplitPane {
        origin: pane,
        direction: Direction::Right,
        shell: "/bin/sh".to_string(),
        args: Vec::new(),
    };
    let _ = ask(&mut mux, split);
    match q(&mux, "sessions") {
        Ok(Answer::Sessions { count, sessions }) => {
            assert_eq!(count, 1);
            assert_eq!(sessions[0].id, sid.to_string());
            assert_eq!(sessions[0].name, "one");
            assert_eq!((sessions[0].window_count, sessions[0].pane_count), (1, 2));
        }
        other => panic!("unexpected: {other:?}"),
    }
    assert_eq!(q(&mux, "panes"), Ok(Answer::Panes { total: 2 }));
    assert_eq!(
        q(&mux, "process"),
        Ok(Answer::Process { started_at_unix_ms: 1_000, uptime_ms: 500 })
    );
    assert_eq!(
        state.query(&mux, &vec!["process".to_string()], 10),
        Ok(Answer::Process { started_at_unix_ms: 1_000, uptime_ms: 0 })
    );
    assert_eq!(q(&mux, "nope"), Err("nope".to_string()));
    assert_eq!(state.query(&mux, &Vec::new(), 0), Err(String::new()));
    assert_eq!(state.schema(), vec!["sessions", "panes", "socket", "process"]);
}

#[test]
fn a_refused_request_changes_nothing() {
    let mut mux = InProcess::new();
    let sid = open(&mut mux, "kept");
    let before = mux.list_sessions();
    let count = mux.registry.count;
    let pane = PaneId(9);
    let window = WindowId(9);
    let requests = vec![
        Request::KillSession(SessionId(9)),
        Request::RenameSession { session: SessionId(9), new_name: "x".to_string() },
        Request::NewWindow {
            session: SessionId(9),
            name: "w".to_string(),
            shell: "/bin/sh".to_string(),
            args: Vec::new(),
        },
        Request::KillWindow(window),
        Request::SelectWindow(window),
        Request::SplitPane {
            origin: pane,
            direction: Direction::Right,
            shell: "/bin/sh".to_string(),
            args: Vec::new(),
        },
        Request::KillPane(pane),
        Request::SelectPane(pane),
        Request::SetInputPolicy { id: pane, policy: InputPolicy::Locked },
        Request::StartPaneRecording(pane),
        Request::StopPaneRecording(pane),
    ];
    for req in requests {
        assert!(matches!(ask(&mut mux, req), Response::Refused(_)));
        assert_eq!(mux.list_sessions(), before);
        assert_eq!(mux.registry.count, count);
        assert_eq!(mux.grids.keys(), vec![first_pane(&mux, sid).0]);
        assert!(mux.recordings.keys().is_empty());
    }
}

#[test]
fn a_question_changes_nothing() {
    let mut mux = InProcess::new();
    let sid = open(&mut mux, "asked");
    let pane = first_pane(&mux, sid);
    let before = mux.list_sessions();
    let shown = mux.pane_snapshot(pane).unwrap();
    for req in vec![
        Request::ListSessions,
        Request::GetSession(sid),
        Request::GetPane(pane),
        Request::GetFreio,
        Request::PaneSubscriberCount(pane),
        Request::PaneRecordingStatus(pane),
        Request::PaneBlocksStatus(pane),
        Request::PaneSnapshot(pane),
        Request::Hello { client_version: VERSION.to_string() },
    ] {
        let _ = ask(&mut mux, req);
        assert_eq!(mux.list_sessions(), before);
        assert_eq!(mux.pane_snapshot(pane).unwrap(), shown);
    }
}

// ── around a request ──

#[test]
fn the_configuration_is_answered_by_how_the_work_came_out() {
    assert_eq!(config_work(&Request::GetConfig), Some(ConfigWork::Show));
    assert_eq!(config_work(&Request::ReloadConfig), Some(ConfigWork::Reload));
    let set = Request::SetConfig("a: 1".to_string());
    assert_eq!(config_work(&set), Some(ConfigWork::Replace("a: 1".to_string())));
    assert_eq!(config_work(&Request::ListSessions), None);
    let ok = || Ok("x: 2".to_string());
    let err = || Err("no luck".to_string());
    assert_eq!(
        config_done(&ConfigWork::Show, ok()),
        Response::ConfigYaml("x: 2".to_string())
    );
    assert_eq!(config_done(&ConfigWork::Reload, ok()), Response::Done);
    let replace = ConfigWork::Replace("a: 1".to_string());
    assert_eq!(config_done(&replace, ok()), Response::Done);
    assert_eq!(
        config_done(&ConfigWork::Show, err()),
        Response::Refused(WireError::Internal(
            "failed to serialise TearConfig as YAML: no luck".to_string()
        ))
    );
    assert_eq!(
        config_done(&ConfigWork::Reload, err()),
        Response::Refused(WireError::Internal("config reload failed: no luck".to_string()))
    );
    assert_eq!(
        config_done(&replace, err()),
        Response::Refused(WireError::Rejected(
            "SetConfig payload did not parse as TearConfig YAML: no luck".to_string()
        ))
    );
}

#[test]
fn what_is_kept_of_a_request_depends_on_its_answer() {
    let id = SessionId(3);
    let refusal = Response::Refused(WireError::NoSuchSession(id));
    let kill = Request::KillSession(id);
    assert_eq!(flush_first(&kill), Some(id));
    assert_eq!(flush_first(&Request::ListSessions), None);
    let (event, lesson) = aftermath(&kill, None, &Response::Done, 8);
    assert_eq!(event, Some(AuditEvent::SessionKill { ts_ms: 8, sid: id.to_string() }));
    assert_eq!(lesson, Lesson::Killed(id));
    assert_eq!(aftermath(&kill, None, &refusal, 8), (None, Lesson::Nothing));
    let rename = Request::RenameSession { session: id, new_name: "tide".to_string() };
    assert_eq!(
        aftermath(&rename, None, &Response::Done, 8),
        (None, Lesson::Renamed(id, "tide".to_string()))
    );
    assert_eq!(aftermath(&rename, None, &refusal, 8), (None, Lesson::Nothing));
    let (event, lesson) = aftermath(&new_session("n"), None, &Response::SessionId(id), 8);
    assert!(matches!(event, Some(AuditEvent::SessionCreate { .. })));
    assert_eq!(lesson, Lesson::Created(id));
}

#[test]
fn what_is_kept_of_places_comes_back() {
    let tide = SessionId::from_seed("tide");
    let root = || Some("/code/pleme-io/mado".to_string());
    let mut p = Praca::new();
    learn(&mut p, Lesson::Created(tide), root(), root(), 1_700);
    learn(&mut p, Lesson::Created(tide), root(), root(), 1_999);
    learn(&mut p, Lesson::Created(SessionId(4)), Some("/tmp".to_string()), None, 5);
    learn(&mut p, Lesson::Renamed(tide, "low".to_string()), None, None, 6);
    learn(&mut p, Lesson::Nothing, None, None, 7);
    let kept = p.keep();
    assert_eq!(kept.records.len(), 2);
    assert_eq!(kept.bindings.len(), 2);
    let again = Praca::restore(kept);
    assert_eq!(again.lookup("/code/pleme-io/mado"), Some(tide));
    assert_eq!(again.lookup("/tmp"), Some(SessionId(4)));
    let r = again.record(tide).unwrap();
    assert_eq!(r.last_seen, 1_999);
    assert_eq!(r.visits, 2);
    assert_eq!(r.custom_name.as_deref(), Some("low"));
    assert_eq!(again.keep(), p.keep());
    learn(&mut p, Lesson::Killed(tide), None, None, 8);
    assert_eq!(p.lookup("/code/pleme-io/mado"), None);
}

#[test]
fn a_resized_terminal_resizes_its_record_and_its_screen() {
    let mut mux = InProcess::new();
    let sid = open(&mut mux, "sized");
    let pane = first_pane(&mux, sid);
    assert_eq!(resize_done(&mut mux, pane, 100, 40, Ok(())), Response::Done);
    assert_eq!(mux.get_pane(pane).unwrap().size_cells, (100, 40));
    let s = mux.pane_snapshot(pane).unwrap();
    assert_eq!((s.cols, s.rows), (100, 40));
    let refused = resize_done(&mut mux, pane, 7, 7, Err("gone".to_string()));
    assert_eq!(refused, Response::Refused(WireError::Internal("gone".to_string())));
    assert_eq!(mux.get_pane(pane).unwrap().size_cells, (100, 40));
}

#[test]
fn a_copy_of_an_event_is_the_same_event() {
    let events = vec![
        AuditEvent::SessionCreate {
            ts_ms: 1,
            sid: "s".into(),
            name: "n".into(),
            shell: "/bin/sh".into(),
            source: "human".into(),
        },
        AuditEvent::SessionKill { ts_ms: 2, sid: "s".into() },
        AuditEvent::SetInputPolicy { ts_ms: 3, pid: "p".into(), policy: "free".into() },
        AuditEvent::StartRecording { ts_ms: 4, pid: "p".into() },
        AuditEvent::StopRecording { ts_ms: 5, pid: "p".into() },
        AuditEvent::SetConfig { ts_ms: 6, config_hash: "h".into() },
    ];
    for e in &events {
        assert_eq!(e.clone(), *e);
    }
}
