//! Records of panes and sessions.
use tear::freio::Freio;
use tear::id::{PaneId, SessionId, WindowId};
use tear::live::{DefinitionId, Durability, LiveSession};
use tear::pane::{InputPolicy, PaneState, TearPane};
use tear::session::{SessionSource, SessionState, TearSession};
use tear::table::Table;
use tear::yurai::Yurai;


fn sample_session() -> TearSession {
    TearSession {
        id: SessionId(1234),
        name: "demo".into(),
        windows: Table::new(),
        panes: Table::new(),
        active_window: WindowId::null(),
        state: SessionState::Active,
        created_at_unix: 0,
        description: String::new(),
        source: SessionSource::Human,
        freio: Freio::Released,
    }
}

#[test]
fn durability_has_no_restart_surviving_value() {
    let d = Durability::default();
    match d {
        Durability::ProcessBound => {}
    }
}

#[test]
fn live_session_links_to_its_definition_and_is_process_bound() {
    let def = DefinitionId::from_project("/code/pleme-io/mado");
    let live = LiveSession::new(def, sample_session());
    assert_eq!(live.definition, def);
    assert_eq!(live.durability, Durability::ProcessBound);
    assert_eq!(live.instance(), live.session.id);
}

#[test]
fn a_copy_of_a_live_session_is_the_same_session() {
    let def = DefinitionId::from_project("/code/pleme-io/mado");
    let live = LiveSession::new(def, sample_session());
    let copy = live.clone();
    assert_eq!(copy, live);
}


#[test]
fn pane_state_default_is_spawning() {
    assert_eq!(PaneState::default(), PaneState::Spawning);
}

#[test]
fn input_policy_label_covers_every_variant() {
    assert_eq!(InputPolicy::Free.label(), "free");
    assert_eq!(InputPolicy::Locked.label(), "locked");
    assert_eq!(InputPolicy::leader(7).label(), "leader");
}

#[test]
fn input_policy_leader_constructor_matches_struct_form() {
    assert_eq!(InputPolicy::leader(99), InputPolicy::Leader { id: 99 });
}

#[test]
fn input_policy_leader_id_returns_some_for_leader_and_none_otherwise() {
    assert_eq!(InputPolicy::leader(5).leader_id(), Some(5));
    assert_eq!(InputPolicy::Free.leader_id(), None);
    assert_eq!(InputPolicy::Locked.leader_id(), None);
}

#[test]
fn pane_default_fields_are_constructible() {
    let p = TearPane {
        id: PaneId(42),
        shell: "/bin/zsh".into(),
        args: vec![],
        cwd: Some("/tmp".into()),
        env: vec![],
        size_cells: (120, 40),
        origin_cells: (0, 0),
        state: PaneState::Running,
        title: "zsh".into(),
        input_policy: InputPolicy::default(),
        yurai: Yurai::Unknown,
    };
    assert_eq!(p.state, PaneState::Running);
    assert_eq!(p.size_cells, (120, 40));
    assert_eq!(p.input_policy, InputPolicy::Free);
}

#[test]
fn input_policy_default_is_free() {
    assert_eq!(InputPolicy::default(), InputPolicy::Free);
}
