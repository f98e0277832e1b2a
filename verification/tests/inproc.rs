//! The multiplexer.
use ishou_tokens::FleetStateVar;
use std::time::{Duration, Instant};
use tear::arrange::{compute_rects, divider_share, from_kind, with_divider};
use tear::cast::CastRow;
use tear::control::ControlError;
use tear::dispatch::HALF;
use tear::id::{PaneId, SessionId, WindowId};
use tear::inproc::{InProcess, SpawnPlan};
use tear::layout::{Direction, LayoutKind, LayoutNode, Rect};
use tear::pane::{InputPolicy, PaneState};
use tear::session::SessionSource;
use tear::spawn_env::SpawnEnv;
use tear::yurai::Yurai;

const NOW: u64 = 1_780_000_000;

fn start(mux: &mut InProcess, name: &str, shell: &str) -> SessionId {
    let (id, plan) = mux.new_session(name, shell, Vec::new(), NOW);
    assert!(mux.spawned(plan.pane));
    id
}

fn first_pane(mux: &InProcess, sid: SessionId) -> PaneId {
    PaneId(mux.get_session(sid).unwrap().panes.keys()[0])
}

fn active_pane(mux: &InProcess, sid: SessionId) -> PaneId {
    let s = mux.get_session(sid).unwrap();
    s.windows.get(s.active_window.0).unwrap().active_pane
}

fn split(mux: &mut InProcess, origin: PaneId, direction: Direction) -> PaneId {
    let (_, _, plan) =
        mux.split_pane(origin, direction, HALF, "/bin/sh", &Vec::new(), Vec::new(), NOW).unwrap();
    assert!(mux.spawned(plan.pane));
    plan.pane
}

fn value<'a>(plan: &'a SpawnPlan, key: &str) -> Option<&'a str> {
    plan.env.iter().rev().find(|(k, _)| k == key).map(|(_, v)| v.as_str())
}

#[test]
fn new_inproc_starts_empty() {
    let mux = InProcess::new();
    assert!(mux.list_sessions().is_empty());
}

#[test]
fn kill_pane_refuses_when_tree_and_pane_map_have_diverged() {
    let mut mux = InProcess::new();
    let sid = start(&mut mux, "divergence", "/bin/sh");
    let pane = first_pane(&mux, sid);
    let mut s = mux.registry.sessions.remove(sid.0).unwrap();
    let wid = s.windows.keys()[0];
    let mut w = s.windows.remove(wid).unwrap();
    w.layout = LayoutNode::leaf(PaneId::from_seed("decoy"));
    s.windows.insert(wid, w);
    mux.registry.sessions.insert(sid.0, s);
    let err = mux
        .kill_pane(pane)
        .expect_err("a diverged tree must be refused, not silently healed");
    assert!(
        matches!(err, ControlError::NoSuchPane(p) if p == pane),
        "expected NoSuchPane for the diverged pane, got {err:?}"
    );
}

#[test]
fn pane_env_var_names_come_from_fleet_state_contract() {
    assert_eq!(FleetStateVar::TearSessionId.name(), "TEAR_SESSION_ID");
    assert_eq!(FleetStateVar::TearSessionName.name(), "TEAR_SESSION_NAME");
    assert_eq!(FleetStateVar::TearPaneId.name(), "TEAR_PANE_ID");
    assert_eq!(FleetStateVar::TearSocket.name(), "TEAR_SOCKET");
}

#[test]
fn pty_env_path_includes_nix_profile_dirs() {
    let mut mux = InProcess::new();
    let inherited = vec![
        ("PATH".to_string(), "/usr/bin:/bin".to_string()),
        ("HOME".to_string(), "/home/me".to_string()),
        ("USER".to_string(), "me".to_string()),
    ];
    let (_, plan) = mux.new_session("path-test", "/bin/sh", inherited, NOW);
    let path = value(&plan, "PATH").unwrap();
    assert!(path.contains("/etc/profiles/per-user/me/bin"), "{path}");
    assert!(path.contains("/home/me/.nix-profile/bin"), "{path}");
    assert!(path.contains("/run/current-system/sw/bin"), "{path}");
    assert!(path.contains("/usr/bin:/bin"), "{path}");
}

#[test]
fn pty_env_provides_term_default_when_parent_lacks_it() {
    let mut mux = InProcess::new();
    let (_, plan) = mux.new_session("term-test", "/bin/sh", Vec::new(), NOW);
    assert_eq!(value(&plan, "TERM"), Some("xterm-256color"));
    let inherited = vec![("TERM".to_string(), "screen".to_string())];
    let (_, plan) = mux.new_session("term-test", "/bin/sh", inherited, NOW);
    assert_eq!(value(&plan, "TERM"), Some("screen"));
}

#[test]
fn pty_env_includes_tear_session_pane_socket_vars() {
    let mut mux = InProcess::new();
    mux.set_socket_path("/tmp/tear-test-env.sock".to_string());
    let (sid, plan) = mux.new_session("env-test", "/bin/sh", Vec::new(), NOW);
    assert_eq!(value(&plan, "TEAR"), Some("1"));
    assert_eq!(value(&plan, "TEAR_SESSION_NAME"), Some("env-test"));
    assert_eq!(value(&plan, "TEAR_SESSION_ID"), Some(sid.to_string().as_str()));
    assert_eq!(value(&plan, "TEAR_PANE_ID"), Some(plan.pane.to_string().as_str()));
    assert_eq!(value(&plan, "TEAR_SOCKET"), Some("/tmp/tear-test-env.sock"));
}

#[test]
fn spawn_env_override_reaches_child_and_wins_over_fallback() {
    let mut mux = InProcess::new();
    mux.set_spawn_env(SpawnEnv::from_overrides(vec![
        ("TERM".to_string(), "xterm-ghostty".to_string()),
        ("COLORTERM".to_string(), "truecolor".to_string()),
    ]));
    let (_, plan) = mux.new_session("spawnenv-test", "/bin/sh", Vec::new(), NOW);
    assert_eq!(value(&plan, "TERM"), Some("xterm-ghostty"));
    assert_eq!(value(&plan, "COLORTERM"), Some("truecolor"));
}

#[test]
fn a_spawn_directory_reaches_the_plan() {
    let mut mux = InProcess::new();
    mux.set_spawn_env(SpawnEnv::none().with_cwd(Some("/code".to_string())));
    assert_eq!(mux.spawn_cwd().as_deref(), Some("/code"));
    let (_, plan) = mux.new_session("cwd", "/bin/sh", Vec::new(), NOW);
    assert_eq!(plan.cwd.as_deref(), Some("/code"));
    assert_eq!(plan.size, (80, 24));
}

#[test]
fn get_nonexistent_session_errors() {
    let mux = InProcess::new();
    let err = mux.get_session(SessionId(99)).unwrap_err();
    assert!(matches!(err, ControlError::NoSuchSession(_)));
}

#[test]
fn subscribe_pane_bytes_on_nonexistent_pane_returns_nosuch() {
    let mut mux = InProcess::new();
    let pane = PaneId::from_seed("phantom");
    let err = mux.subscribe_pane_bytes(pane).unwrap_err();
    assert!(matches!(err, ControlError::NoSuchPane(p) if p == pane));
}

#[test]
fn child_exit_disconnects_subscribers_and_marks_pane_exited() {
    let mut mux = InProcess::new();
    let sid = start(&mut mux, "exit-test", "/bin/sh");
    let pane = first_pane(&mux, sid);
    let reader = mux.subscribe_pane_bytes(pane).expect("subscribe");
    assert!(reader.open);
    let end = mux.on_exit(pane, Some(7));
    assert_eq!(end.closed, vec![reader.token], "the reader must be let go");
    let session = mux.get_session(sid).unwrap();
    let state = session.panes.get(pane.0).map(|p| p.state);
    assert_eq!(
        state,
        Some(PaneState::Exited { code: 7 }),
        "pane should be Exited{{ code: 7 }}, got {state:?}"
    );
    let late = mux
        .subscribe_pane_bytes(pane)
        .expect("subscribe after exit still resolves (remain-on-exit pane)");
    assert!(!late.open, "post-exit subscribe must yield an immediately-disconnected reader");
    assert_eq!(mux.pane_subscriber_count(pane), Ok(0));
}

#[test]
fn fully_exited_unwatched_session_is_reaped() {
    let mut mux = InProcess::new();
    let sid = start(&mut mux, "reap-test", "/bin/sh");
    let pane = first_pane(&mux, sid);
    let end = mux.on_exit(pane, Some(0));
    assert_eq!(end.reaped, Some(sid));
    assert_eq!(end.gone, vec![pane]);
    assert!(
        mux.list_sessions().is_empty(),
        "fully-exited unwatched session was not reaped from the registry"
    );
    assert!(mux.live.is_empty(), "reap left a terminal behind");
    assert!(mux.grids.is_empty(), "reap left a grid behind");
    assert!(mux.readers.is_empty(), "reap left a subscriber entry behind");
}

#[test]
fn watched_session_survives_exit_with_remain_on_exit() {
    let mut mux = InProcess::new();
    let sid = start(&mut mux, "remain-test", "/bin/sh");
    let pane = first_pane(&mux, sid);
    let reader = mux.subscribe_pane_bytes(pane).expect("subscribe");
    let end = mux.on_exit(pane, Some(0));
    assert_eq!(end.closed, vec![reader.token]);
    let sessions = mux.list_sessions();
    assert_eq!(sessions.len(), 1, "watched session must remain-on-exit, not be reaped");
    let state = sessions[0].panes.get(pane.0).map(|p| p.state);
    assert!(
        matches!(state, Some(PaneState::Exited { .. })),
        "pane should be Exited, got {state:?}"
    );
}

#[test]
fn a_session_with_a_running_pane_is_not_reaped() {
    let mut mux = InProcess::new();
    let sid = start(&mut mux, "half", "/bin/sh");
    let a = first_pane(&mux, sid);
    let b = split(&mut mux, a, Direction::Right);
    let end = mux.on_exit(a, Some(1));
    assert_eq!(end.reaped, None);
    assert_eq!(mux.list_sessions().len(), 1);
    let end = mux.on_exit(b, None);
    assert_eq!(end.reaped, Some(sid));
}

#[test]
fn pane_snapshot_on_nonexistent_pane_returns_nosuch() {
    let mux = InProcess::new();
    let pane = PaneId::from_seed("phantom");
    let err = mux.pane_snapshot(pane).unwrap_err();
    assert!(matches!(err, ControlError::NoSuchPane(p) if p == pane));
}

#[test]
fn pane_resize_absolute_on_nonexistent_pane_returns_nosuch() {
    let mux = InProcess::new();
    let pane = PaneId::from_seed("phantom");
    let err = mux.pane_resize_absolute(pane).unwrap_err();
    assert!(matches!(err, ControlError::NoSuchPane(p) if p == pane));
}

#[test]
fn rename_session_to_same_name_is_idempotent() {
    let mut mux = InProcess::new();
    let sid = start(&mut mux, "work", "/bin/sh");
    mux.rename_session(sid, "work").unwrap();
    let s = mux.get_session(sid).unwrap();
    assert_eq!(s.name, "work");
    mux.rename_session(sid, "play").unwrap();
    let s2 = mux.get_session(sid).unwrap();
    assert_eq!(s2.name, "play");
    assert!(mux.rename_session(SessionId(1), "x").is_err());
}

#[test]
fn new_session_then_kill_then_subscribe_returns_nosuch() {
    let mut mux = InProcess::new();
    let sid = start(&mut mux, "temp", "/bin/sh");
    let pane = first_pane(&mux, sid);
    assert_eq!(mux.kill_session(sid), Ok(vec![pane]));
    let err = mux.subscribe_pane_bytes(pane).unwrap_err();
    assert!(matches!(err, ControlError::NoSuchPane(_)));
}

#[test]
fn send_keys_rejected_when_pane_locked() {
    let mut mux = InProcess::new();
    let sid = start(&mut mux, "policy", "/bin/sh");
    let pane_id = first_pane(&mux, sid);
    mux.set_input_policy(pane_id, InputPolicy::Locked).unwrap();
    let err = mux.send_keys(pane_id).unwrap_err();
    assert!(matches!(err, ControlError::Rejected(_)), "expected Rejected, got {err:?}");
    mux.set_input_policy(pane_id, InputPolicy::Free).unwrap();
    mux.send_keys(pane_id).unwrap();
}

#[test]
fn set_input_policy_on_nonexistent_pane_returns_nosuch() {
    let mut mux = InProcess::new();
    let err = mux.set_input_policy(PaneId(0xdead_beef), InputPolicy::Locked).unwrap_err();
    assert!(matches!(err, ControlError::NoSuchPane(_)));
}

#[test]
fn set_input_policy_is_idempotent() {
    let mut mux = InProcess::new();
    let sid = start(&mut mux, "idem", "/bin/sh");
    let pane_id = first_pane(&mux, sid);
    mux.set_input_policy(pane_id, InputPolicy::Locked).unwrap();
    mux.set_input_policy(pane_id, InputPolicy::Locked).unwrap();
    mux.set_input_policy(pane_id, InputPolicy::Free).unwrap();
    mux.set_input_policy(pane_id, InputPolicy::Free).unwrap();
}

#[test]
fn send_keys_treats_leader_as_free_at_inproc_layer() {
    let mut mux = InProcess::new();
    let sid = start(&mut mux, "leader-inproc", "/bin/sh");
    let pane_id = first_pane(&mux, sid);
    mux.set_input_policy(pane_id, InputPolicy::leader(7)).unwrap();
    mux.send_keys(pane_id).unwrap();
}

#[test]
fn send_keys_unaffected_when_policy_remains_free() {
    let mut mux = InProcess::new();
    let sid = start(&mut mux, "free-default", "/bin/sh");
    let pane_id = first_pane(&mux, sid);
    mux.send_keys(pane_id).unwrap();
}

#[test]
fn send_keys_after_unlock_round_trip() {
    let mut mux = InProcess::new();
    let sid = start(&mut mux, "rt", "/bin/sh");
    let pane_id = first_pane(&mux, sid);
    for round in 0..2 {
        mux.set_input_policy(pane_id, InputPolicy::Locked).unwrap();
        assert!(mux.send_keys(pane_id).is_err(), "round {round}: Locked accepted send_keys");
        mux.set_input_policy(pane_id, InputPolicy::Free).unwrap();
        mux.send_keys(pane_id)
            .unwrap_or_else(|e| panic!("round {round}: Free rejected send_keys: {e:?}"));
    }
}

#[test]
fn pane_blocks_captures_osc_133_round_trip() {
    let mut mux = InProcess::new();
    let sid = start(&mut mux, "blocks-test", "/bin/sh");
    let pane_id = first_pane(&mux, sid);
    for bytes in [
        b"\x1b]133;A\x07".as_slice(),
        b"$ ",
        b"\x1b]133;B\x07",
        b"echo hi",
        b"\x1b]133;C\x07",
        b"hi\r\n",
        b"\x1b]133;D;0\x07",
    ] {
        let _ = mux.on_bytes(pane_id, bytes);
    }
    let blocks = mux.pane_blocks_list(pane_id, 0, 10).unwrap();
    assert_eq!(blocks.len(), 1);
    let b = &blocks[0];
    assert_eq!(b.prompt, "$ ");
    assert_eq!(b.command, "echo hi");
    assert!(b.output.contains("hi"));
    assert_eq!(b.exit_code, Some(0));
    let (total, in_progress) = mux.pane_blocks_status(pane_id).unwrap();
    assert_eq!(total, 1);
    assert!(!in_progress);
    let one = mux.pane_block_at(pane_id, 0).unwrap();
    assert_eq!(one.index, 0);
}

#[test]
fn pane_block_at_on_missing_index_returns_rejected() {
    let mut mux = InProcess::new();
    let sid = start(&mut mux, "missing-block", "/bin/sh");
    let pane_id = first_pane(&mux, sid);
    let err = mux.pane_block_at(pane_id, 99).unwrap_err();
    assert!(matches!(err, ControlError::Rejected(_)));
}

#[test]
fn pane_blocks_on_nonexistent_pane_returns_nosuch() {
    let mux = InProcess::new();
    let err = mux.pane_blocks_list(PaneId(0xdead_beef), 0, 10).unwrap_err();
    assert!(matches!(err, ControlError::NoSuchPane(_)));
}

#[test]
fn list_sessions_returns_all_created_sessions() {
    let mut mux = InProcess::new();
    let a = start(&mut mux, "alpha", "/bin/sh");
    let b = start(&mut mux, "beta", "/bin/sh");
    let c = start(&mut mux, "gamma", "/bin/sh");
    let sessions = mux.list_sessions();
    assert_eq!(sessions.len(), 3);
    let mut names: Vec<&str> = sessions.iter().map(|s| s.name.as_str()).collect();
    names.sort();
    assert_eq!(names, vec!["alpha", "beta", "gamma"]);
    let ids: std::collections::HashSet<_> = sessions.iter().map(|s| s.id).collect();
    for id in [a, b, c] {
        assert!(ids.contains(&id));
    }
}

#[test]
fn split_pane_targets_the_origin_leaf_and_validates() {
    let mut mux = InProcess::new();
    let sid = start(&mut mux, "split", "/bin/sh");
    let origin = active_pane(&mux, sid);
    let new = split(&mut mux, origin, Direction::Right);
    let s = mux.get_session(sid).unwrap();
    let w = s.windows.get(s.active_window.0).unwrap();
    assert_eq!(w.layout.pane_count(), 2);
    assert_eq!(w.layout.panes(), vec![origin, new]);
    assert_eq!(w.active_pane, new);
    assert!(s.panes.contains_key(origin.0) && s.panes.contains_key(new.0));
    w.layout.validate().unwrap();
}

#[test]
fn a_split_to_the_left_puts_the_new_pane_first() {
    let mut mux = InProcess::new();
    let sid = start(&mut mux, "left", "/bin/sh");
    let origin = active_pane(&mux, sid);
    let new = split(&mut mux, origin, Direction::Left);
    let s = mux.get_session(sid).unwrap();
    assert_eq!(s.windows.get(s.active_window.0).unwrap().layout.panes(), vec![new, origin]);
}

#[test]
fn kill_pane_collapses_tree_without_dangling_leaf() {
    let mut mux = InProcess::new();
    let sid = start(&mut mux, "kill", "/bin/sh");
    let origin = active_pane(&mux, sid);
    let new = split(&mut mux, origin, Direction::Below);
    let killed = mux.kill_pane(new).unwrap();
    assert_eq!(killed.gone, vec![new]);
    let s = mux.get_session(sid).unwrap();
    let w = s.windows.get(s.active_window.0).unwrap();
    assert_eq!(w.layout, LayoutNode::leaf(origin));
    assert_eq!(w.active_pane, origin);
    assert!(!s.panes.contains_key(new.0));
    w.layout.validate().unwrap();
}

#[test]
fn killing_active_windows_last_pane_retargets_active_window() {
    let mut mux = InProcess::new();
    let sid = start(&mut mux, "multi", "/bin/sh");
    let w1 = mux.get_session(sid).unwrap().active_window;
    let (w2, plan) =
        mux.new_window(sid, "second", "/bin/sh", &Vec::new(), Vec::new(), NOW).unwrap();
    assert!(mux.spawned(plan.pane));
    mux.select_window(w2).unwrap();
    let only_pane_w2 = {
        let s = mux.get_session(sid).unwrap();
        s.windows.get(w2.0).unwrap().active_pane
    };
    mux.kill_pane(only_pane_w2).unwrap();
    let s = mux.get_session(sid).unwrap();
    assert!(!s.windows.contains_key(w2.0));
    assert_eq!(s.active_window, w1);
    assert!(s.windows.contains_key(s.active_window.0));
}

#[test]
fn kill_last_pane_closes_the_window() {
    let mut mux = InProcess::new();
    let sid = start(&mut mux, "solo", "/bin/sh");
    let only = active_pane(&mux, sid);
    let killed = mux.kill_pane(only).unwrap();
    assert_eq!(killed.reflow, None);
    let s = mux.get_session(sid).unwrap();
    assert!(s.windows.is_empty());
    assert!(!s.panes.contains_key(only.0));
}

#[test]
fn a_divider_moves_along_the_side_it_stands_on() {
    let mut mux = InProcess::new();
    let sid = start(&mut mux, "resize", "/bin/sh");
    let pane = active_pane(&mux, sid);
    let wid = mux.get_session(sid).unwrap().active_window;
    assert_eq!(mux.resize_pane(pane, Direction::Right), Ok((sid, wid, 80)));
    assert_eq!(mux.resize_pane(pane, Direction::Below), Ok((sid, wid, 24)));
    assert!(mux.resize_pane(PaneId(3), Direction::Left).is_err());
}

#[test]
fn rectangles_reach_the_panes_and_their_terminals() {
    let mut mux = InProcess::new();
    let sid = start(&mut mux, "rects", "/bin/sh");
    let a = active_pane(&mux, sid);
    let b = split(&mut mux, a, Direction::Right);
    let wid = mux.get_session(sid).unwrap().active_window;
    let rects = vec![
        (a, Rect { x: 0, y: 0, w: 40, h: 24 }),
        (b, Rect { x: 40, y: 0, w: 40, h: 24 }),
    ];
    let to_resize = mux.apply_layout_geometry(sid, wid, &rects);
    assert_eq!(to_resize, vec![(a, 40, 24), (b, 40, 24)]);
    let s = mux.get_session(sid).unwrap();
    let p = s.panes.get(b.0).unwrap();
    assert_eq!((p.origin_cells, p.size_cells), ((40, 0), (40, 24)));
}

#[test]
fn apply_layout_custom_leaves_the_tree_untouched() {
    let mut mux = InProcess::new();
    let sid = start(&mut mux, "custom", "/bin/sh");
    let wid = mux.get_session(sid).unwrap().active_window;
    let p0 = active_pane(&mux, sid);
    let _ = split(&mut mux, p0, Direction::Right);
    let before = mux.get_window(wid).unwrap().1.layout.clone();
    let tree = from_kind(LayoutKind::Custom, &before.panes(), &shares(2));
    mux.apply_layout(wid, tree).unwrap();
    assert_eq!(mux.get_window(wid).unwrap().1.layout, before);
}

#[test]
fn a_tree_of_the_same_panes_takes_the_place_of_another() {
    let mut mux = InProcess::new();
    let sid = start(&mut mux, "layout", "/bin/sh");
    let wid = mux.get_session(sid).unwrap().active_window;
    let p0 = active_pane(&mux, sid);
    let p1 = split(&mut mux, p0, Direction::Right);
    let mut tree = LayoutNode::leaf(p1);
    assert!(tree.split_leaf(p1, p0, Direction::Below, HALF));
    mux.apply_layout(wid, Some(tree)).unwrap();
    let w = mux.get_window(wid).unwrap().1;
    assert_eq!(w.layout.panes(), vec![p1, p0]);
    w.layout.validate().unwrap();
}

#[test]
fn apply_layout_unknown_window_is_no_such_window() {
    let mut mux = InProcess::new();
    let err = mux.apply_layout(WindowId::from_seed("ghost"), None).unwrap_err();
    assert!(matches!(err, ControlError::NoSuchWindow(_)));
}

#[test]
fn a_window_that_is_killed_takes_its_panes_along() {
    let mut mux = InProcess::new();
    let sid = start(&mut mux, "kw", "/bin/sh");
    let wid = mux.get_session(sid).unwrap().active_window;
    let a = active_pane(&mux, sid);
    let b = split(&mut mux, a, Direction::Right);
    assert_eq!(mux.kill_window(wid), Ok(vec![a, b]));
    let s = mux.get_session(sid).unwrap();
    assert!(s.windows.is_empty() && s.panes.is_empty());
    assert_eq!(s.active_window, WindowId::null());
    assert!(mux.kill_window(wid).is_err());
}

#[test]
fn a_program_that_did_not_start_takes_its_session_along() {
    let mut mux = InProcess::new();
    let (sid, _) = mux.new_session("gone", "/no/such/shell", Vec::new(), NOW);
    assert_eq!(mux.list_sessions().len(), 1);
    assert_eq!(mux.new_session_failed(sid), Vec::new());
    assert!(mux.list_sessions().is_empty());
}

#[test]
fn bytes_reach_readers_the_screen_and_the_recording() {
    let mut mux = InProcess::new();
    let sid = start(&mut mux, "bytes", "/bin/sh");
    let pane = first_pane(&mux, sid);
    let a = mux.subscribe_pane_bytes(pane).unwrap();
    let b = mux.subscribe_pane_bytes(pane).unwrap();
    assert_ne!(a.token, b.token);
    mux.enable_pane_recording(pane).unwrap();
    assert_eq!(mux.on_bytes(pane, b"hello"), vec![a.token, b.token]);
    assert!(mux.pane_snapshot(pane).unwrap().to_text().starts_with("hello"));
    assert_eq!(mux.pane_recording_status(pane), Ok((true, 1)));
    mux.prune_readers(pane, &vec![a.token]);
    assert_eq!(mux.on_bytes(pane, b"!"), vec![b.token]);
    assert_eq!(mux.pane_subscriber_count(pane), Ok(1));
    mux.disable_pane_recording(pane).unwrap();
    let _ = mux.on_bytes(pane, b"?");
    assert_eq!(mux.pane_recording_status(pane), Ok((false, 2)));
    let cast = mux.export_pane_recording(pane, "/bin/sh", 9).unwrap();
    assert_eq!(cast.lines().count(), 3);
}

#[test]
fn provenance_reaches_the_record_and_the_screen() {
    let mut mux = InProcess::new();
    let y = Yurai::Automation { label: Some("bot".to_string()) };
    let (sid, plan) = mux.new_session_yurai(
        "auto",
        "/bin/sh",
        &Vec::new(),
        SessionSource::Agent,
        (100, 30),
        y,
        Vec::new(),
        NOW,
    );
    assert_eq!(plan.size, (100, 30));
    assert!(mux.spawned(plan.pane));
    let s = mux.get_session(sid).unwrap();
    assert!(s.panes.get(plan.pane.0).unwrap().yurai.is_automation());
    for bytes in [b"\x1b]133;A\x07".as_slice(), b"\x1b]133;D;0\x07"] {
        let _ = mux.on_bytes(plan.pane, bytes);
    }
    assert!(mux.pane_block_at(plan.pane, 0).unwrap().yurai.is_automation());
}

#[test]
fn a_resized_terminal_resizes_its_screen() {
    let mut mux = InProcess::new();
    let sid = start(&mut mux, "size", "/bin/sh");
    let pane = first_pane(&mux, sid);
    mux.pane_resize_absolute(pane).unwrap();
    mux.pane_resized(pane, 100, 40);
    let s = mux.pane_snapshot(pane).unwrap();
    assert_eq!((s.cols, s.rows), (100, 40));
    assert_eq!(mux.pane_cursor_keys_mode(pane), Ok(false));
}

fn assert_sound(mux: &InProcess) {
    let sessions = mux.list_sessions();
    let recorded = |p: u64| sessions.iter().any(|s| s.panes.contains_key(p));
    for p in mux.grids.keys() {
        assert!(recorded(p), "a screen of no pane: {p}");
    }
    for p in mux.live.keys() {
        assert!(recorded(p), "a terminal of no pane: {p}");
    }
    for p in mux.readers.keys() {
        assert!(recorded(p), "readers of no pane: {p}");
    }
    for s in &sessions {
        for w in s.windows.keys() {
            let w = s.windows.get(w).unwrap();
            let panes = w.layout.panes();
            assert!(panes.contains(&w.active_pane));
            assert!(panes.iter().all(|p| s.panes.contains_key(p.0)));
        }
        assert!(s.windows.keys().is_empty() || s.windows.contains_key(s.active_window.0));
    }
}

#[test]
fn every_screen_belongs_to_a_pane_that_is_recorded() {
    let mut mux = InProcess::new();
    assert_sound(&mux);
    let a = start(&mut mux, "a", "/bin/sh");
    let b = start(&mut mux, "b", "/bin/sh");
    assert_sound(&mux);
    let first = first_pane(&mux, a);
    let second = split(&mut mux, first, Direction::Right);
    assert_sound(&mux);
    let (window, plan) =
        mux.new_window(a, "logs", "/bin/sh", &Vec::new(), Vec::new(), NOW).unwrap();
    assert!(mux.spawned(plan.pane));
    mux.subscribe_pane_bytes(plan.pane).unwrap();
    assert_sound(&mux);
    mux.select_window(window).unwrap();
    mux.select_pane(first).unwrap();
    assert_sound(&mux);
    mux.kill_pane(first).unwrap();
    assert_sound(&mux);
    mux.kill_window(window).unwrap();
    assert_sound(&mux);
    assert_eq!(mux.grids.keys().len(), 2);
    let _ = mux.on_exit(second, Some(0));
    assert_sound(&mux);
    assert!(mux.get_session(a).is_err());
    mux.kill_session(b).unwrap();
    assert_sound(&mux);
    assert!(mux.grids.keys().is_empty());
    assert!(mux.live.keys().is_empty());
}

#[test]
fn a_program_that_did_not_start_leaves_no_screen_behind() {
    let mut mux = InProcess::new();
    let other = start(&mut mux, "other", "/bin/sh");
    let (id, plan) = mux.new_session("lost", "/no/such/shell", Vec::new(), NOW);
    assert!(mux.grids.contains_key(plan.pane.0));
    assert_eq!(mux.new_session_failed(id), Vec::new());
    assert!(mux.get_session(id).is_err());
    assert!(!mux.grids.contains_key(plan.pane.0));
    assert_sound(&mux);
    assert_eq!(mux.new_session_failed(id), Vec::new());
    let pane = first_pane(&mux, other);
    assert_eq!(mux.new_session_failed(other), vec![pane]);
    assert!(mux.grids.keys().is_empty());
}

// ── places ──

fn cut(span: u16, bits: u32) -> u16 {
    (f32::from(span) * f32::from_bits(bits)).round() as u16
}

fn shares(upto: usize) -> Vec<u32> {
    (0..=upto).map(|n| (1.0 / n.max(1) as f32).to_bits()).collect()
}

fn reflow(mux: &mut InProcess, sid: SessionId, wid: WindowId) {
    let (tree, (w, h)) = mux.window_layout(sid, wid).unwrap();
    let rects = compute_rects(&tree, Rect { x: 0, y: 0, w, h }, &cut);
    let _ = mux.apply_layout_geometry(sid, wid, &rects);
}

#[test]
fn resize_pane_shifts_the_governing_divider() {
    let mut mux = InProcess::new();
    let sid = start(&mut mux, "resize", "/bin/sh");
    let origin = active_pane(&mux, sid);
    let _new = split(&mut mux, origin, Direction::Right);
    let wid = mux.get_session(sid).unwrap().active_window;
    reflow(&mut mux, sid, wid);
    let width = |m: &InProcess| m.get_session(sid).unwrap().panes.get(origin.0).unwrap().size_cells.0;
    let origin_w_before = width(&mux);
    assert_eq!(origin_w_before, 40);
    let (session, window, span) = mux.resize_pane(origin, Direction::Right).unwrap();
    let delta = f32::from((span / 4) as i16) / f32::from(span);
    let (tree, _) = mux.window_layout(session, window).unwrap();
    let bits = divider_share(&tree, origin, Direction::Right).unwrap();
    assert_eq!(bits, HALF);
    let tree =
        with_divider(tree, origin, Direction::Right, (f32::from_bits(bits) + delta).to_bits());
    assert!(mux.set_layout(session, window, tree));
    reflow(&mut mux, sid, wid);
    let origin_w_after = width(&mux);
    assert!(
        origin_w_after > origin_w_before,
        "origin pane should have widened: {origin_w_after} !> {origin_w_before}"
    );
    assert_eq!(origin_w_after, 60);
}

#[test]
fn apply_layout_rearranges_existing_panes_into_a_named_preset() {
    let mut mux = InProcess::new();
    let sid = start(&mut mux, "layout", "/bin/sh");
    let wid = mux.get_session(sid).unwrap().active_window;
    let p0 = active_pane(&mux, sid);
    let p1 = split(&mut mux, p0, Direction::Right);
    let _p2 = split(&mut mux, p1, Direction::Below);
    let panes = mux.get_window(wid).unwrap().1.layout.panes();
    let mut before = panes.clone();
    before.sort();

    let tree = from_kind(LayoutKind::EvenHorizontal, &panes, &shares(3));
    mux.apply_layout(wid, tree).unwrap();

    let w = mux.get_window(wid).unwrap().1;
    let mut after = w.layout.panes();
    after.sort();
    assert_eq!(before, after, "the same panes are preserved (PTYs kept)");
    w.layout.validate().unwrap();
    let rects = compute_rects(&w.layout, Rect { x: 0, y: 0, w: 90, h: 24 }, &cut);
    let mut widths: Vec<u16> = rects.iter().map(|(_, r)| r.w).collect();
    widths.sort_unstable();
    assert_eq!(widths, vec![30, 30, 30]);
}

#[test]
fn places_cover_the_window_whatever_the_cut() {
    let panes: Vec<PaneId> = (1..8).map(PaneId).collect();
    let area = Rect { x: 3, y: 2, w: 17, h: 11 };
    let kinds = [
        LayoutKind::EvenHorizontal,
        LayoutKind::EvenVertical,
        LayoutKind::MainHorizontal,
        LayoutKind::MainVertical,
        LayoutKind::Tiled,
    ];
    let wild = |span: u16, bits: u32| (bits % 97) as u16 + span / 3;
    for kind in kinds {
        let tree = from_kind(kind, &panes, &shares(7)).unwrap();
        assert_eq!(tree.panes(), panes);
        for rects in [compute_rects(&tree, area, &cut), compute_rects(&tree, area, &wild)] {
            for x in 0..30u16 {
                for y in 0..30u16 {
                    let hits = rects
                        .iter()
                        .filter(|(_, r)| {
                            r.x <= x && x < r.x + r.w && r.y <= y && y < r.y + r.h
                        })
                        .count();
                    let inside = (3..20).contains(&x) && (2..13).contains(&y);
                    assert_eq!(hits, usize::from(inside), "{kind:?} {x} {y}");
                }
            }
        }
    }
    assert_eq!(from_kind(LayoutKind::Tiled, &Vec::new(), &shares(2)), None);
}

#[test]
fn tiles_make_lines_of_a_square() {
    let panes: Vec<PaneId> = (1..6).map(PaneId).collect();
    let tree = from_kind(LayoutKind::Tiled, &panes, &shares(5)).unwrap();
    let rects = compute_rects(&tree, Rect { x: 0, y: 0, w: 90, h: 24 }, &cut);
    let at: Vec<(u16, u16, u16, u16)> = rects.iter().map(|(_, r)| (r.x, r.y, r.w, r.h)).collect();
    assert_eq!(
        at,
        vec![(0, 0, 30, 12), (30, 0, 30, 12), (60, 0, 30, 12), (0, 12, 45, 12), (45, 12, 45, 12)]
    );
    let main = from_kind(LayoutKind::MainVertical, &panes, &shares(5)).unwrap();
    let rects = compute_rects(&main, Rect { x: 0, y: 0, w: 80, h: 24 }, &cut);
    assert_eq!(rects[0].1, Rect { x: 0, y: 0, w: 40, h: 24 });
    assert_eq!(rects[4].1, Rect { x: 40, y: 18, w: 40, h: 6 });
}

#[test]
fn the_innermost_divider_governs() {
    let (a, b, c) = (PaneId(1), PaneId(2), PaneId(3));
    let mut tree = LayoutNode::leaf(a);
    assert!(tree.split_leaf(a, b, Direction::Right, 10));
    assert!(tree.split_leaf(b, c, Direction::Below, 20));
    assert_eq!(divider_share(&tree, c, Direction::Above), Some(20));
    assert_eq!(divider_share(&tree, c, Direction::Left), Some(10));
    assert_eq!(divider_share(&tree, a, Direction::Below), None);
    assert_eq!(divider_share(&tree, PaneId(9), Direction::Left), None);
    let before = tree.clone();
    let tree = with_divider(tree, c, Direction::Above, 21);
    assert_eq!(divider_share(&tree, b, Direction::Below), Some(21));
    assert_eq!(divider_share(&tree, b, Direction::Left), Some(10));
    assert_eq!(tree.panes(), before.panes());
    assert_eq!(with_divider(before.clone(), a, Direction::Below, 5), before);
}

#[test]
fn an_export_is_empty_while_nothing_was_captured() {
    let mut mux = InProcess::new();
    let sid = start(&mut mux, "quiet", "/bin/sh");
    let pane = first_pane(&mux, sid);
    assert_eq!(mux.export_pane_recording(pane, "/bin/sh", 9), Ok(String::new()));
    mux.enable_pane_recording(pane).unwrap();
    assert_eq!(mux.export_pane_recording(pane, "/bin/sh", 9), Ok(String::new()));
    let _ = mux.on_bytes(pane, b"x");
    assert_eq!(mux.export_pane_recording(pane, "/bin/sh", 9).unwrap().lines().count(), 2);
    assert!(mux.export_pane_recording(PaneId(1), "/bin/sh", 9).is_err());
}

#[test]
fn a_running_recording_takes_bytes_at_the_time_since_it_began() {
    let mut mux = InProcess::new();
    let sid = start(&mut mux, "stamps", "/bin/sh");
    let pane = first_pane(&mux, sid);
    let wall = std::time::UNIX_EPOCH + Duration::from_secs(1_700_000_000);
    let before = Instant::now();
    mux.enable_pane_recording(pane).unwrap();
    let after = Instant::now();
    let _ = mux.on_bytes_when(pane, b"x", wall, before + Duration::from_secs(40));
    let _ = mux.on_bytes_when(pane, b"y", wall, after + Duration::from_secs(60));
    let cast = mux.export_pane_recording(pane, "/bin/sh", 0).unwrap();
    let times: Vec<f64> = cast
        .lines()
        .skip(1)
        .map(|l| CastRow::parse(l).unwrap().time.parse().unwrap())
        .collect();
    assert!(times[0] <= 40.0 && times[0] > 20.0, "{times:?}");
    assert!(times[1] >= 60.0 && times[1] < 80.0, "{times:?}");
}
