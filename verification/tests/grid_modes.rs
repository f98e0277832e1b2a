//! Modes, and answers to queries.
use tear::host_role::{HostRole, TearCaps};
use tear::modes::MouseTracking;
use tear::pane_grid::PaneGrid;
use tear::pane_snapshot::Color;

#[test]
fn a_fresh_pane_reports_xterm_defaults() {
    let g = PaneGrid::new(80, 24);
    let m = g.modes();
    assert!(m.autowrap.enabled(), "DECAWM is ON by default per xterm");
    assert!(m.cursor_visible.enabled());
    assert!(!m.bracketed_paste.enabled());
    assert!(!m.sync_output.enabled());
    assert!(!m.mouse.is_on());
}

#[test]
fn bracketed_paste_is_tracked() {
    let mut g = PaneGrid::new(80, 24);
    assert!(!g.modes().bracketed_paste.enabled());
    g.feed(b"\x1b[?2004h");
    assert!(g.modes().bracketed_paste.enabled(), "DEC 2004 set");
    g.feed(b"\x1b[?2004l");
    assert!(!g.modes().bracketed_paste.enabled(), "DEC 2004 reset");
}

#[test]
fn the_remaining_flag_modes_are_tracked() {
    let mut g = PaneGrid::new(80, 24);
    g.feed(b"\x1b[?1004h\x1b[?2026h\x1b[?1006h\x1b[?7l\x1b[?1h\x1b[?25l");
    let m = g.modes();
    assert!(m.focus_reporting.enabled(), "DEC 1004");
    assert!(m.sync_output.enabled(), "DEC 2026");
    assert!(m.mouse_sgr.enabled(), "DEC 1006");
    assert!(!m.autowrap.enabled(), "DEC 7 reset");
    assert!(m.cursor_keys.enabled(), "DEC 1 (DECCKM)");
    assert!(!m.cursor_visible.enabled(), "DEC 25 reset");
}

#[test]
fn mouse_tracking_levels_replace_rather_than_accumulate() {
    let mut g = PaneGrid::new(80, 24);
    g.feed(b"\x1b[?1000h");
    assert_eq!(g.modes().mouse, MouseTracking::Click);
    g.feed(b"\x1b[?1003h");
    assert_eq!(
        g.modes().mouse,
        MouseTracking::Motion,
        "the later level replaces the earlier one"
    );
    g.feed(b"\x1b[?1003l");
    assert_eq!(g.modes().mouse, MouseTracking::Off);
}

#[test]
fn alt_screen_is_reported_as_a_mode() {
    let mut g = PaneGrid::new(80, 24);
    assert!(!g.modes().alt_screen.enabled());
    g.feed(b"\x1b[?1049h");
    assert!(g.modes().alt_screen.enabled());
    g.feed(b"\x1b[?1049l");
    assert!(!g.modes().alt_screen.enabled());
}

#[test]
fn a_relay_answers_nothing_at_all() {
    let mut g = PaneGrid::new(80, 24);
    g.feed(b"\x1b[6n\x1b[5n\x1b[c\x1b[>c");
    assert!(
        g.take_response().is_none(),
        "a Relay must stay byte-for-byte silent — otherwise the shipped \
         mado+tear pair produces two answers per query"
    );
}

#[test]
fn a_host_answers_cursor_position_one_based() {
    let mut g = PaneGrid::new(80, 24);
    g.set_host_role(HostRole::Host);
    g.feed(b"hi\r\n");
    g.feed(b"\x1b[6n");
    let r = g.take_response().expect("host must answer CPR");
    assert_eq!(r, b"\x1b[2;1R".to_vec());
}

#[test]
fn a_host_reports_the_clamped_column_after_a_margin_flush_wide_glyph() {
    let mut g = PaneGrid::new(20, 3);
    g.set_host_role(HostRole::Host);
    g.feed("A".repeat(18).as_bytes());
    g.feed("你".as_bytes());
    g.feed(b"\x1b[6n");
    let r = g.take_response().expect("host must answer CPR");
    assert_eq!(r, b"\x1b[1;20R".to_vec(), "column is 1-based and clamped");
}

#[test]
fn a_host_answers_device_status_and_both_device_attributes() {
    let mut g = PaneGrid::new(80, 24);
    g.set_host_role(HostRole::Host);

    g.feed(b"\x1b[5n");
    assert_eq!(g.take_response().unwrap(), TearCaps::status_ok());

    g.feed(b"\x1b[c");
    assert_eq!(g.take_response().unwrap(), TearCaps::primary_da());

    g.feed(b"\x1b[>c");
    assert_eq!(g.take_response().unwrap(), TearCaps::secondary_da());
}

#[test]
fn a_query_leaves_no_residue_in_the_rendered_grid() {
    for role in [HostRole::Relay, HostRole::Host] {
        let mut g = PaneGrid::new(80, 24);
        g.set_host_role(role);
        g.feed(b"before|");
        g.feed(b"\x1b[6n");
        g.feed(b"|after");
        let row0 = g.snapshot().to_text_rows().into_iter().next().unwrap();
        assert_eq!(
            row0.trim_end(),
            "before||after",
            "query bytes must never reach the grid ({role:?})"
        );
    }
}

#[test]
fn taking_a_response_drains_it() {
    let mut g = PaneGrid::new(80, 24);
    g.set_host_role(HostRole::Host);
    g.feed(b"\x1b[5n");
    assert!(g.take_response().is_some());
    assert!(g.take_response().is_none(), "a reply is delivered once");
}

#[test]
fn a_soft_reset_frees_the_cursor_keys() {
    let mut g = PaneGrid::new(5, 1);
    g.feed(b"AB\x1b[?1h");
    assert!(g.cursor_keys_mode());
    g.feed(b"\x1b[!p");
    assert!(!g.cursor_keys_mode());
    let s = g.snapshot();
    assert!(!s.cursor_keys_mode);
    assert_eq!(s.cells[0][0].ch, 'A');
    assert_eq!(s.cursor_col, 2);
}

#[test]
fn switching_screens_never_touches_the_primary() {
    for code in ["47", "1047", "1049"] {
        let mut g = PaneGrid::new(5, 2);
        g.feed(b"AB\r\nCD");
        let before = g.snapshot();
        g.feed(format!("\x1b[?{code}l").as_bytes());
        let off = g.snapshot();
        assert!(!off.alt_screen_active);
        assert_eq!(off.cells, before.cells, "{code}");
        g.feed(format!("\x1b[?{code}h").as_bytes());
        assert!(g.snapshot().alt_screen_active);
        g.feed(b"\x1b[HXYZ");
        g.feed(format!("\x1b[?{code}l").as_bytes());
        assert_eq!(g.snapshot().cells, before.cells, "{code}");
    }
}

#[test]
fn the_alternate_screen_comes_back_blank_once_it_was_left() {
    let mut g = PaneGrid::new(5, 2);
    g.feed(b"\x1b[?1047hXY\x1b[?1047l\x1b[?47h");
    let s = g.snapshot();
    assert!(s.alt_screen_active);
    assert!(s.cells.iter().flatten().all(|c| c.ch == ' '));
}

#[test]
fn a_full_reset_shows_a_blank_primary_screen() {
    let mut g = PaneGrid::new(5, 2);
    g.feed(b"\x1b[31mAB\x1b[?1049hCD");
    g.feed(b"\x1bc");
    let s = g.snapshot();
    assert!(!s.alt_screen_active);
    assert!(s.cells.iter().flatten().all(|c| c.ch == ' ' && c.fg == Color::white()));
    assert_eq!((s.cursor_row, s.cursor_col), (0, 0));
    g.feed(b"\x1b[?47h");
    assert!(g.snapshot().cells.iter().flatten().all(|c| c.ch == ' '));
}

#[test]
fn leaving_a_screen_that_is_not_shown_keeps_what_it_holds() {
    for code in [1047, 1049] {
        let mut g = PaneGrid::new(5, 2);
        g.feed(b"\x1b[?47hKEPT\x1b[?47l");
        g.feed(format!("\x1b[?{code}l").as_bytes());
        assert!(!g.snapshot().alt_screen_active);
        g.feed(b"\x1b[?47h");
        let row: String = g.snapshot().cells[0].iter().map(|c| c.ch).collect();
        assert_eq!(row, "KEPT ", "{code}");
    }
}

#[test]
fn the_margins_reach_to_the_last_row_unless_told_otherwise() {
    let mut g = PaneGrid::new(1, 65_540);
    g.feed(b"\x1b[2r\x1b[4;1Hx\n");
    let s = g.snapshot();
    assert_eq!(s.cells[3][0].ch, 'x');
    assert_eq!(s.cursor_row, 4);
}
