//! The small types.
use tear::clock::{millis_at, seconds_at, unix_millis, unix_seconds};
use tear::digest::HexError;
use tear::freio::{Admission, Freio, RefusalReason};
use tear::graphics::{Graphic, GraphicProtocol, GRAPHIC_PAYLOAD_MAX};
use tear::host_role::{HostRole, TearCaps};
use tear::id::{IdError, IdKind, PaneId, SessionId, WindowId};
use tear::keybind::{KeyChord, KeyTable, KeyTableMap, KeyTableName};
use tear::modes::{BracketedPaste, ModeSet, MouseTracking};
use tear::pty::{reap_step, ReapStep, REAP_DEADLINE_MS, REAP_POLL_MS};

#[test]
fn released_is_the_default_so_landing_freio_changes_nothing() {
    assert_eq!(Freio::default(), Freio::Released);
    assert!(!Freio::default().is_engaged());
    assert_eq!(Freio::default().engaged_at(), None);
}

#[test]
fn an_engaged_brake_remembers_when() {
    let f = Freio::Engaged {
        at_unix: 1_785_000_000,
    };
    assert!(f.is_engaged());
    assert_eq!(f.engaged_at(), Some(1_785_000_000));
}

#[test]
fn a_freio_refusal_is_not_a_policy_refusal() {
    assert_ne!(
        Admission::Refuse(RefusalReason::Freio),
        Admission::Refuse(RefusalReason::Policy)
    );
    assert_eq!(RefusalReason::Freio.label(), "freio");
}


#[test]
fn a_truncated_graphic_says_so_rather_than_pretending_to_be_whole() {
    let g = Graphic {
        protocol: GraphicProtocol::Sixel,
        params: String::new(),
        data: vec![0u8; 4],
        at_row: 2,
        at_col: 5,
        truncated: true,
    };
    assert!(g.truncated, "a renderer must be able to see the cut");
    assert_eq!(g.len(), 4);
}

#[test]
fn the_payload_bound_is_the_same_one_mado_uses() {
    assert_eq!(GRAPHIC_PAYLOAD_MAX, 8 * 1024 * 1024);
}

#[test]
fn relay_is_the_default_so_landing_the_host_path_changes_nothing() {
    assert_eq!(HostRole::default(), HostRole::Relay);
    assert!(!HostRole::default().answers_queries());
}

#[test]
fn host_answers() {
    assert!(HostRole::Host.answers_queries());
}

#[test]
fn primary_da_does_not_advertise_sixel_tear_cannot_render() {
    let da = String::from_utf8(TearCaps::primary_da()).unwrap();
    let params: Vec<&str> = da
        .trim_start_matches("\x1b[?")
        .trim_end_matches('c')
        .split(';')
        .collect();
    assert!(
        !params.contains(&"4"),
        "PRIMARY_DA advertises sixel (4) but PaneGrid implements no \
         hook/put/unhook — either add the DCS path or drop the claim: {da:?}"
    );
    assert!(params.contains(&"62"), "should advertise VT220");
    assert!(params.contains(&"22"), "should advertise ANSI colour");
}

#[test]
fn from_seed_is_deterministic() {
    assert_eq!(PaneId::from_seed("foo"), PaneId::from_seed("foo"));
    assert_ne!(PaneId::from_seed("foo"), PaneId::from_seed("bar"));
}

#[test]
fn display_round_trips_through_from_str() {
    let id = SessionId::from_seed("session-7");
    let s = id.to_string();
    assert_eq!(s.len(), 16);
    let parsed: SessionId = s.parse().unwrap();
    assert_eq!(id, parsed);
}

#[test]
fn null_is_distinct_from_any_seeded_id() {
    let seeded = WindowId::from_seed("test");
    assert_ne!(WindowId::null(), seeded);
    assert_eq!(WindowId::null().0, 0);
}

#[test]
fn from_tmux_normalises_chord_shorthand() {
    assert_eq!(KeyChord::from_tmux("C-a").0, "ctrl+a");
    assert_eq!(KeyChord::from_tmux("M-Left").0, "alt+left");
    assert_eq!(KeyChord::from_tmux("C-M-x").0, "ctrl+alt+x");
}

#[test]
fn a_mode_cannot_be_substituted_for_another() {
    fn sanitize(_text: &str, bracketed: BracketedPaste) -> bool {
        bracketed.enabled()
    }
    assert!(sanitize("x", BracketedPaste::new(true)));
    assert!(!sanitize("x", BracketedPaste::new(false)));
}

#[test]
fn mouse_levels_are_exclusive_by_construction() {
    let m = MouseTracking::Drag;
    assert!(m.is_on());
    assert_eq!(MouseTracking::default(), MouseTracking::Off);
    assert!(!MouseTracking::Off.is_on());
}

#[test]
fn modes_default_to_off_which_is_what_a_fresh_terminal_means() {
    let m = ModeSet::default();
    assert!(!m.bracketed_paste.enabled());
    assert!(!m.cursor_keys.enabled());
    assert!(!m.sync_output.enabled());
    assert!(!m.mouse.is_on());
}


fn bad(reason: HexError) -> IdError {
    IdError { kind: IdKind::Pane, reason }
}

#[test]
fn numbers_are_read_as_written_and_refused_otherwise() {
    assert_eq!(PaneId::parse("00000000000000ff"), Ok(PaneId(255)));
    assert_eq!(PaneId::parse("FF"), Ok(PaneId(255)));
    assert_eq!(PaneId::parse("+1f"), Ok(PaneId(31)));
    assert_eq!(PaneId::parse(""), Err(bad(HexError::Empty)));
    assert_eq!(PaneId::parse("xyz"), Err(bad(HexError::InvalidDigit)));
    assert_eq!(PaneId::parse("-1"), Err(bad(HexError::InvalidDigit)));
    assert_eq!(PaneId::parse("10000000000000000"), Err(bad(HexError::Overflow)));
    assert_eq!(SessionId(0xabc).to_string(), "0000000000000abc");
    let read: Result<SessionId, _> = "g".parse();
    assert!(read.is_err());
}

#[test]
fn a_bad_identifier_says_which_and_why() {
    assert_eq!(
        SessionId::parse("g").unwrap_err().to_string(),
        "invalid SessionId: invalid digit found in string"
    );
    assert_eq!(
        WindowId::parse("").unwrap_err().to_string(),
        "invalid WindowId: cannot parse integer from empty string"
    );
    assert_eq!(
        "10000000000000000".parse::<PaneId>().unwrap_err().to_string(),
        "invalid PaneId: number too large to fit in target type"
    );
    let why = u64::from_str_radix("", 16).unwrap_err().to_string();
    assert_eq!(HexError::Empty.to_string(), why);
    let why = u64::from_str_radix("-", 16).unwrap_err().to_string();
    assert_eq!(HexError::InvalidDigit.to_string(), why);
    let why = u64::from_str_radix("10000000000000000", 16).unwrap_err().to_string();
    assert_eq!(HexError::Overflow.to_string(), why);
}

#[test]
fn a_seed_gives_the_head_of_its_digest() {
    let d = blake3::hash(b"foo");
    let mut head = [0u8; 8];
    head.copy_from_slice(&d.as_bytes()[..8]);
    assert_eq!(PaneId::from_seed("foo").0, u64::from_le_bytes(head));
}

#[test]
fn chords_without_a_shorthand_are_lowered() {
    assert_eq!(KeyChord::from_tmux("S-Up").0, "shift+up");
    assert_eq!(KeyChord::from_tmux("x").0, "x");
}

#[test]
fn the_last_part_that_is_no_modifier_is_the_key() {
    assert_eq!(KeyChord::from_tmux("a-C").0, "ctrl+a");
    assert_eq!(KeyChord::from_tmux("C-F10-M").0, "ctrl+alt+f10");
    assert_eq!(KeyChord::from_tmux("C-x-y-S").0, "ctrl+shift+y");
    assert_eq!(KeyChord::from_tmux("").0, "");
}

#[test]
fn a_shorthand_of_modifiers_alone_ends_in_the_key() {
    assert_eq!(KeyChord::from_tmux("C-c").0, "ctrl+c");
    assert_eq!(KeyChord::from_tmux("c-D").0, "ctrl+d");
    assert_eq!(KeyChord::from_tmux("M-m").0, "alt+m");
    assert_eq!(KeyChord::from_tmux("D-s-M-C-S").0, "super+shift+alt+ctrl+s");
    assert_eq!(KeyChord::from_tmux("C").0, "c");
}

#[test]
fn a_time_is_counted_from_the_epoch() {
    let epoch = std::time::UNIX_EPOCH;
    let t = epoch + std::time::Duration::from_micros(1_234_567_899);
    assert_eq!(millis_at(t), 1_234_567);
    assert_eq!(seconds_at(t), 1_234);
    assert_eq!((millis_at(epoch), seconds_at(epoch)), (0, 0));
    let before = epoch - std::time::Duration::from_secs(5);
    assert_eq!((millis_at(before), seconds_at(before)), (0, 0));
    let far = epoch + std::time::Duration::from_secs(100_000_000_000_000_000);
    assert_eq!(millis_at(far), u64::MAX);
    assert_eq!(seconds_at(far), 100_000_000_000_000_000);
    assert!(unix_millis() / 1000 >= 1_600_000_000);
    assert!(unix_seconds() >= 1_600_000_000);
}

#[test]
fn tables_are_kept_by_name() {
    let mut tables = KeyTableMap::new();
    tables.insert(KeyTableName::root(), KeyTable::default());
    assert!(tables.contains_key(&KeyTableName::root()));
    assert!(!tables.contains_key(&KeyTableName::copy()));
}

#[test]
fn a_killed_program_is_waited_for_up_to_the_deadline() {
    assert_eq!((REAP_DEADLINE_MS, REAP_POLL_MS), (2000, 10));
    assert_eq!(reap_step(false, 0), ReapStep::Poll);
    assert_eq!(reap_step(false, 1999), ReapStep::Poll);
    assert_eq!(reap_step(false, 2000), ReapStep::HandOver);
    assert_eq!(reap_step(true, 0), ReapStep::Done);
    assert_eq!(reap_step(true, u64::MAX), ReapStep::Done);
}
