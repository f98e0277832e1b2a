//! The registry of sessions.
use tear::id::{PaneId, SessionId};
use tear::registry::{mint_pane_id, mint_session_id, mint_window_id, Registry};

#[test]
fn create_session_lands_in_map() {
    let mut r = Registry::new();
    let id = r.create_session("work");
    assert!(r.sessions.contains_key(id.0));
    assert_eq!(r.sessions.get(id.0).unwrap().name, "work");
}

#[test]
fn add_window_creates_initial_pane_and_focuses_it() {
    let mut r = Registry::new();
    let sid = r.create_session("work");
    let (wid, pid) = r.add_window(sid, "main", "/bin/zsh", (80, 24)).unwrap();
    let s = r.sessions.get(sid.0).unwrap();
    assert!(s.windows.contains_key(wid.0));
    assert!(s.panes.contains_key(pid.0));
    assert_eq!(s.active_window, wid);
    assert_eq!(s.windows.get(wid.0).unwrap().active_pane, pid);
    assert_eq!(s.windows.get(wid.0).unwrap().layout.pane_count(), 1);
}

#[test]
fn locate_pane_finds_its_parent() {
    let mut r = Registry::new();
    let sid = r.create_session("work");
    let (wid, pid) = r.add_window(sid, "main", "/bin/zsh", (80, 24)).unwrap();
    assert_eq!(r.locate_pane(pid), Some((sid, wid)));
}

#[test]
fn sessions_are_listed_oldest_first() {
    let mut r = Registry::new();
    let b = r.create_session_at("b", 20);
    let a = r.create_session_at("a", 10);
    let c = r.create_session_at("c", 30);
    let order: Vec<_> = r.sessions_in_order().into_iter().map(|s| s.id).collect();
    assert_eq!(order, vec![a, b, c]);
}

#[test]
fn two_sessions_of_one_name_and_time_differ() {
    let mut r = Registry::new();
    let a = r.create_session_at("same", 1);
    let b = r.create_session_at("same", 1);
    assert_ne!(a, b);
    assert_eq!(r.sessions_in_order().len(), 2);
}

#[test]
fn a_window_of_an_unknown_session_is_refused() {
    let mut r = Registry::new();
    assert!(r.add_window(SessionId(7), "main", "/bin/sh", (80, 24)).is_none());
    assert_eq!(r.locate_pane(PaneId(7)), None);
}

#[test]
fn minted_numbers_are_digests_of_their_seeds() {
    assert_eq!(mint_session_id("work", 1700, 3), mint_session_id("work", 1700, 3));
    assert_ne!(mint_session_id("work", 1700, 3), mint_session_id("work", 1700, 4));
    assert_ne!(mint_session_id("work", 1700, 3), mint_session_id("work", 1701, 3));
    let s = mint_session_id("work", 1700, 3);
    assert_ne!(mint_window_id(s, "main", 1700, 4).0, s.0);
    let w = mint_window_id(s, "main", 1700, 4);
    assert_ne!(mint_pane_id(w, "/bin/sh", 1700, 5).0, w.0);
}

#[test]
fn identifiers_of_two_counts_differ() {
    let mut seen = Vec::new();
    for count in [0u64, 1, 2, 10, 11, 12, 111, u64::MAX] {
        seen.push(mint_session_id("a", 1, count).0);
        seen.push(mint_window_id(SessionId(1), "a", 1, count).0);
    }
    let all = seen.len();
    seen.sort_unstable();
    seen.dedup();
    assert_eq!(seen.len(), all);
    // The name runs up to the stamp, but the seed still ends in the count.
    assert_ne!(mint_session_id("a:1", 1, 2), mint_session_id("a", 1, 12));
}
