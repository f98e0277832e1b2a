//! What a daemon says it can do.
use std::collections::BTreeSet;
use tear::capability::{Capability, DaemonHello, DaemonIdentity};
use tear::control::ControlError;

#[test]
fn every_capability_wire_name_is_unique_and_round_trips() {
    let mut seen = BTreeSet::new();
    for cap in Capability::all() {
        assert!(
            seen.insert(cap.wire_name()),
            "duplicate wire name {}",
            cap.wire_name()
        );
        assert_eq!(Capability::from_wire(cap.wire_name()), Some(cap));
    }
}

#[test]
fn an_unknown_wire_name_is_a_quiet_miss() {
    assert_eq!(Capability::from_wire("spawn-cwd"), None);
    assert_eq!(Capability::from_wire(""), None);
}

#[test]
fn all_lists_every_variant() {
    for cap in Capability::all() {
        match cap {
            Capability::SpawnArgs => {
                assert!(Capability::all().contains(&Capability::SpawnArgs));
            }
        }
    }
    assert_eq!(Capability::all().len(), 1, "update this count with the vocabulary");
}

#[test]
fn this_builds_hello_advertises_spawn_args() {
    let hello = DaemonHello::for_this_build("9.9.9");
    assert_eq!(hello.daemon_version, "9.9.9");
    assert_eq!(hello.capabilities, vec!["spawn-args".to_owned()]);
}

#[test]
fn pre_capability_has_nothing_and_no_version() {
    let id = DaemonIdentity::pre_capability();
    assert!(id.is_pre_capability());
    assert_eq!(id.version(), None);
    assert!(!id.has(Capability::SpawnArgs));
    assert!(id.capability_names().is_empty());
}

#[test]
fn require_on_a_pre_capability_daemon_is_a_typed_unsupported() {
    let id = DaemonIdentity::pre_capability();
    let err = id
        .require(Capability::SpawnArgs, "new_window was given 2 argument(s)")
        .unwrap_err();
    match err {
        ControlError::Unsupported { capability, detail } => {
            assert_eq!(capability, "spawn-args");
            assert!(detail.contains("new_window was given 2 argument(s)"));
            assert!(detail.contains("predates capability negotiation"));
            assert!(detail.contains("restart the tear daemon"));
        }
        other => panic!("wrong error: {other:?}"),
    }
}

#[test]
fn require_on_a_capable_daemon_is_ok() {
    let id = DaemonIdentity::local("0.1.8");
    assert_eq!(id.version(), Some("0.1.8"));
    assert!(id.has(Capability::SpawnArgs));
    assert!(id.require(Capability::SpawnArgs, "whatever").is_ok());
}

#[test]
fn a_newer_daemons_unknown_capability_is_kept_but_never_matches() {
    let id = DaemonIdentity::from_hello(DaemonHello {
        daemon_version: "3.0.0".into(),
        capabilities: vec!["spawn-args".into(), "spawn-cwd".into()],
    });
    assert_eq!(id.capability_names(), vec!["spawn-args", "spawn-cwd"]);
    assert!(id.has(Capability::SpawnArgs));
    assert!(!id.is_pre_capability());
}

#[test]
fn an_answering_daemon_with_no_capabilities_still_reports_its_version() {
    let id = DaemonIdentity::from_hello(DaemonHello {
        daemon_version: "0.1.9".into(),
        capabilities: vec![],
    });
    assert!(!id.is_pre_capability());
    assert_eq!(id.version(), Some("0.1.9"));
    let err = id.require(Capability::SpawnArgs, "x").unwrap_err();
    assert!(err.to_string().contains("daemon 0.1.9 does not advertise it"));
}

#[test]
fn an_unknown_daemon_is_the_default_and_a_copy_is_the_same_daemon() {
    let none = DaemonIdentity::default();
    assert!(none.is_pre_capability());
    assert_eq!(none, DaemonIdentity::pre_capability());
    assert_eq!(none.clone(), none);
    let some = DaemonIdentity::local("0.1.8");
    assert_eq!(some.clone(), some);
    assert!(some.clone().has(Capability::SpawnArgs));
}
