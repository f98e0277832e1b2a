//! The screen of a terminal.
use tear::pane_grid::PaneGrid;
use tear::pane_snapshot::{ansi_bright_colors, ansi_colors, default_ansi_palette, CellAttrs, Color};


#[test]
fn print_plain_text() {
    let mut g = PaneGrid::new(10, 3);
    g.feed(b"hi");
    let snap = g.snapshot();
    assert_eq!(snap.cells[0][0].ch, 'h');
    assert_eq!(snap.cells[0][1].ch, 'i');
    assert_eq!(snap.cursor_row, 0);
    assert_eq!(snap.cursor_col, 2);
}

#[test]
fn newline_advances_row() {
    let mut g = PaneGrid::new(10, 3);
    g.feed(b"hi\r\nworld");
    let snap = g.snapshot();
    assert_eq!(snap.cells[0][0].ch, 'h');
    assert_eq!(snap.cells[1][0].ch, 'w');
    assert_eq!(snap.cursor_row, 1);
    assert_eq!(snap.cursor_col, 5);
}

#[test]
fn cursor_move_csi_cup() {
    let mut g = PaneGrid::new(10, 5);
    g.feed(b"\x1b[3;5H");
    let snap = g.snapshot();
    assert_eq!(snap.cursor_row, 2);
    assert_eq!(snap.cursor_col, 4);
}

#[test]
fn erase_in_display_clear_all() {
    let mut g = PaneGrid::new(5, 2);
    g.feed(b"abcde\r\nfghij");
    g.feed(b"\x1b[2J");
    let snap = g.snapshot();
    for row in snap.cells {
        for cell in row {
            assert_eq!(cell.ch, ' ');
        }
    }
}

#[test]
fn auto_wrap_overflows_to_next_row() {
    let mut g = PaneGrid::new(3, 3);
    g.feed(b"abcdef");
    let snap = g.snapshot();
    assert_eq!(snap.cells[0][2].ch, 'c');
    assert_eq!(snap.cells[1][0].ch, 'd');
}

#[test]
fn scroll_into_scrollback_on_overflow() {
    let mut g = PaneGrid::with_scrollback(3, 2, 100);
    g.feed(b"a\r\nb\r\nc");
    let snap = g.snapshot();
    assert_eq!(snap.cells[0][0].ch, 'b');
    assert_eq!(snap.cells[1][0].ch, 'c');
    assert!(g.scrollback_len() >= 1);
}

#[test]
fn sgr_red_foreground_sticks_through_a_word() {
    let mut g = PaneGrid::new(10, 1);
    g.feed(b"\x1b[31mRED\x1b[0m");
    let snap = g.snapshot();
    let red = ansi_colors()[1];
    assert_eq!(snap.cells[0][0].ch, 'R');
    assert_eq!(snap.cells[0][0].fg, red);
    assert_eq!(snap.cells[0][1].fg, red);
    assert_eq!(snap.cells[0][2].fg, red);
}

#[test]
fn sgr_truecolor_fg() {
    let mut g = PaneGrid::new(10, 1);
    g.feed(b"\x1b[38;2;200;100;50mORANGE");
    let snap = g.snapshot();
    assert_eq!(snap.cells[0][0].fg, Color::new(200, 100, 50));
    assert_eq!(snap.cells[0][5].fg, Color::new(200, 100, 50));
}

#[test]
fn sgr_256_color_index() {
    let mut g = PaneGrid::new(10, 1);
    g.feed(b"\x1b[38;5;196mX");
    let snap = g.snapshot();
    assert!(snap.cells[0][0].fg.r > 200);
}

#[test]
fn sgr_bold_attr_sticks() {
    let mut g = PaneGrid::new(10, 1);
    g.feed(b"\x1b[1mBOLD");
    let snap = g.snapshot();
    assert!(snap.cells[0][0].attrs.contains(CellAttrs::bold()));
}

#[test]
fn no_sgr_form_leaves_underline_stuck_on_the_pen() {
    let cases: &[(&str, &[u8])] = &[
        ("4m then 24m", b"\x1b[4mU\x1b[24mX"),
        ("4m then 0m", b"\x1b[4mU\x1b[0mX"),
        ("4:3m then 4:0m", b"\x1b[4:3mU\x1b[4:0mX"),
        ("4:3m then 24m", b"\x1b[4:3mU\x1b[24mX"),
        ("21m (double-underline)", b"\x1b[21mX"),
        ("58:2::255:0:0 then 59m", b"\x1b[58:2::255:0:0mU\x1b[59mX"),
        ("fg truecolor semicolon", b"\x1b[38;2;177;185;249mX"),
        ("fg truecolor COLON", b"\x1b[38:2::177:185:249mX"),
        ("fg 256 semicolon", b"\x1b[38;5;4mX"),
        ("fg 256 COLON", b"\x1b[38:5:4mX"),
        ("bold+italic only", b"\x1b[1;3mX"),
    ];
    let mut leaked = Vec::new();
    for (name, bytes) in cases {
        let mut g = PaneGrid::new(20, 1);
        g.feed(bytes);
        let snap = g.snapshot();
        let marker = snap.cells[0]
            .iter()
            .rev()
            .find(|c| c.ch == 'X')
            .expect("marker X present");
        if marker.attrs.contains(CellAttrs::underline()) {
            leaked.push(*name);
        }
    }
    assert!(
        leaked.is_empty(),
        "these SGR forms leave UNDERLINE stuck on the pen: {leaked:?}"
    );
}

fn marker_attrs(seq: &[u8]) -> CellAttrs {
    let mut g = PaneGrid::new(20, 1);
    let mut buf = seq.to_vec();
    buf.push(b'X');
    g.feed(&buf);
    g.snapshot().cells[0]
        .iter()
        .rev()
        .find(|c| c.ch == 'X')
        .expect("marker X present")
        .attrs
}

#[test]
fn xtmodkeys_is_not_sgr() {
    let attrs = marker_attrs(b"\x1b[>4;2m");
    assert!(
        !attrs.contains(CellAttrs::underline()),
        "CSI >4;2m (XTMODKEYS) must not set UNDERLINE"
    );
    assert!(
        !attrs.contains(CellAttrs::dim()),
        "CSI >4;2m (XTMODKEYS) must not set DIM"
    );
    assert_eq!(attrs, CellAttrs::none(), "XTMODKEYS must touch no attribute");
}

#[test]
fn private_parameter_csi_never_runs_the_standard_command() {
    for seq in [
        &b"\x1b[>4;2m"[..],
        &b"\x1b[>1m"[..],
        &b"\x1b[?4m"[..],
        &b"\x1b[=4m"[..],
        &b"\x1b[<4m"[..],
    ] {
        assert_eq!(
            marker_attrs(seq),
            CellAttrs::none(),
            "private CSI {:?} must not act as SGR",
            String::from_utf8_lossy(seq),
        );
    }

    for seq in [
        &b"\x1b[>5A"[..],
        &b"\x1b[>5C"[..],
        &b"\x1b[?5G"[..],
        &b"\x1b[>2;3H"[..],
    ] {
        let mut g = PaneGrid::new(20, 3);
        g.feed(b"\x1b[H");
        g.feed(seq);
        let snap = g.snapshot();
        assert_eq!(
            (snap.cursor_row, snap.cursor_col),
            (0, 0),
            "private CSI {:?} must not move the cursor",
            String::from_utf8_lossy(seq),
        );
    }

    let mut g = PaneGrid::new(20, 1);
    g.feed(b"keep\x1b[H\x1b[?2J\x1b[?0K");
    let row: String = g.snapshot().cells[0].iter().map(|c| c.ch).collect();
    assert!(
        row.starts_with("keep"),
        "private CSI ?J/?K must not erase; row was {row:?}"
    );
}

fn marker_fg(seq: &[u8]) -> Color {
    let mut g = PaneGrid::new(20, 1);
    let mut buf = seq.to_vec();
    buf.push(b'X');
    g.feed(&buf);
    g.snapshot().cells[0]
        .iter()
        .rev()
        .find(|c| c.ch == 'X')
        .expect("marker X present")
        .fg
}

#[test]
fn semicolon_and_colon_extended_colour_agree() {
    let cases: &[(&[u8], &[u8], Color)] = &[
        (
            b"\x1b[38;2;248;248;242m",
            b"\x1b[38:2::248:248:242m",
            Color::new(248, 248, 242),
        ),
        (
            b"\x1b[38;2;177;185;249m",
            b"\x1b[38:2::177:185:249m",
            Color::new(177, 185, 249),
        ),
        (
            b"\x1b[38;2;4;4;4m",
            b"\x1b[38:2::4:4:4m",
            Color::new(4, 4, 4),
        ),
    ];
    for (semi, colon, want) in cases {
        assert_eq!(marker_fg(semi), *want, "semicolon form {semi:?}");
        assert_eq!(marker_fg(colon), *want, "COLON form {colon:?}");
    }
    assert_eq!(
        marker_fg(b"\x1b[38:2:10:20:30m"),
        Color::new(10, 20, 30),
        "5-slot colon truecolor"
    );
}

#[test]
fn extended_colour_never_leaks_an_attribute() {
    let mut leaked = Vec::new();
    for seq in [
        &b"\x1b[38;2;4;4;4m"[..],
        &b"\x1b[38:2::4:4:4m"[..],
        &b"\x1b[48;2;4;4;4m"[..],
        &b"\x1b[48:2::4:4:4m"[..],
        &b"\x1b[38;5;4m"[..],
        &b"\x1b[38:5:4m"[..],
        &b"\x1b[48;5;4m"[..],
        &b"\x1b[58;5;4m"[..],
        &b"\x1b[58;2;4;4;4m"[..],
        &b"\x1b[58:2::255:0:0m"[..],
        &b"\x1b[59m"[..],
        &b"\x1b[38m"[..],
        &b"\x1b[38;2m"[..],
        &b"\x1b[38;5m"[..],
    ] {
        if marker_attrs(seq) != CellAttrs::none() {
            leaked.push(String::from_utf8_lossy(seq).replace('\x1b', "ESC"));
        }
    }
    assert!(
        leaked.is_empty(),
        "these forms leaked an attribute: {leaked:?}"
    );
}

#[test]
fn styled_underline_subparams() {
    assert!(marker_attrs(b"\x1b[4:3m").contains(CellAttrs::underline()));
    assert!(
        !marker_attrs(b"\x1b[4:3m").contains(CellAttrs::italic()),
        "4:3 is a curly underline, not underline + italic"
    );
    assert!(!marker_attrs(b"\x1b[4:0m").contains(CellAttrs::underline()));
    assert!(!marker_attrs(b"\x1b[4mU\x1b[4:0m").contains(CellAttrs::underline()));
}

#[test]
fn plain_sgr_still_works() {
    assert!(marker_attrs(b"\x1b[1m").contains(CellAttrs::bold()));
    assert!(marker_attrs(b"\x1b[3m").contains(CellAttrs::italic()));
    assert!(marker_attrs(b"\x1b[1;3m").contains(CellAttrs::bold()));
    assert!(marker_attrs(b"\x1b[1;3m").contains(CellAttrs::italic()));
    assert_eq!(marker_attrs(b"\x1b[1;3m\x1b[0m"), CellAttrs::none());
    assert_eq!(
        marker_attrs(b"\x1b[1m\x1b[m"),
        CellAttrs::none(),
        "bare ESC[m resets"
    );
    assert_eq!(marker_fg(b"\x1b[31m"), default_ansi_palette()[1]);
    assert_eq!(marker_fg(b"\x1b[31m\x1b[39m"), Color::white());
}

#[test]
fn dec_private_modes_still_dispatch() {
    let mut g = PaneGrid::new(20, 2);
    g.feed(b"\x1b[?25l");
    assert!(
        !g.snapshot().cursor_visible,
        "DECTCEM reset must hide cursor"
    );
    g.feed(b"\x1b[?25h");
    assert!(g.snapshot().cursor_visible, "DECTCEM set must show cursor");
}

#[test]
fn sgr_reset_returns_default_pen() {
    let mut g = PaneGrid::new(10, 1);
    g.feed(b"\x1b[31m\x1b[0mX");
    let snap = g.snapshot();
    assert_eq!(snap.cells[0][0].fg, Color::white());
}

#[test]
fn alt_screen_isolates_writes_and_preserves_primary() {
    let mut g = PaneGrid::new(5, 2);
    g.feed(b"AAAAA\r\nBBBBB");
    g.feed(b"\x1b[?1049h");
    let alt_snap = g.snapshot();
    assert!(alt_snap.alt_screen_active);
    assert_eq!(alt_snap.cells[0][0].ch, ' ');
    g.feed(b"ZZZZZ");
    g.feed(b"\x1b[?1049l");
    let primary_snap = g.snapshot();
    assert!(!primary_snap.alt_screen_active);
    assert_eq!(primary_snap.cells[0][0].ch, 'A');
    assert_eq!(primary_snap.cells[1][0].ch, 'B');
}

#[test]
fn save_restore_cursor_via_decsc_decrc() {
    let mut g = PaneGrid::new(10, 5);
    g.feed(b"\x1b[3;5H");
    g.feed(b"\x1b7");
    g.feed(b"\x1b[1;1H");
    g.feed(b"\x1b8");
    let snap = g.snapshot();
    assert_eq!(snap.cursor_row, 2);
    assert_eq!(snap.cursor_col, 4);
}

#[test]
fn snapshot_text_helpers() {
    let mut g = PaneGrid::new(5, 2);
    g.feed(b"hi\r\nbye");
    let snap = g.snapshot();
    let rows = snap.to_text_rows();
    assert_eq!(rows[0], "hi   ");
    assert_eq!(rows[1], "bye  ");
}

#[test]
fn osc_2_sets_window_title() {
    let mut g = PaneGrid::new(10, 1);
    g.feed(b"\x1b]2;hello world\x07");
    assert_eq!(g.title(), Some("hello world"));
    let snap = g.snapshot();
    assert_eq!(snap.title.as_deref(), Some("hello world"));
}

#[test]
fn dec_25_hides_cursor() {
    let mut g = PaneGrid::new(10, 1);
    let snap_before = g.snapshot();
    assert!(snap_before.cursor_visible);
    g.feed(b"\x1b[?25l");
    let snap_hidden = g.snapshot();
    assert!(!snap_hidden.cursor_visible);
    g.feed(b"\x1b[?25h");
    let snap_back = g.snapshot();
    assert!(snap_back.cursor_visible);
}

#[test]
fn ich_inserts_cells_and_shifts_right() {
    let mut g = PaneGrid::new(6, 1);
    g.feed(b"abcdef");
    g.feed(b"\x1b[1;1H");
    g.feed(b"\x1b[2@");
    let snap = g.snapshot();
    assert_eq!(snap.cells[0][0].ch, ' ');
    assert_eq!(snap.cells[0][1].ch, ' ');
    assert_eq!(snap.cells[0][2].ch, 'a');
    assert_eq!(snap.cells[0][3].ch, 'b');
}

#[test]
fn dch_deletes_cells_and_shifts_left() {
    let mut g = PaneGrid::new(6, 1);
    g.feed(b"abcdef");
    g.feed(b"\x1b[1;2H");
    g.feed(b"\x1b[2P");
    let snap = g.snapshot();
    assert_eq!(snap.cells[0][0].ch, 'a');
    assert_eq!(snap.cells[0][1].ch, 'd');
    assert_eq!(snap.cells[0][2].ch, 'e');
    assert_eq!(snap.cells[0][3].ch, 'f');
}

#[test]
fn ech_erases_in_place() {
    let mut g = PaneGrid::new(6, 1);
    g.feed(b"abcdef");
    g.feed(b"\x1b[1;2H");
    g.feed(b"\x1b[2X");
    let snap = g.snapshot();
    assert_eq!(snap.cells[0][0].ch, 'a');
    assert_eq!(snap.cells[0][1].ch, ' ');
    assert_eq!(snap.cells[0][2].ch, ' ');
    assert_eq!(snap.cells[0][3].ch, 'd');
}

#[test]
fn il_dl_insert_delete_line() {
    let mut g = PaneGrid::new(3, 4);
    g.feed(b"AAA\r\nBBB\r\nCCC\r\nDDD");
    g.feed(b"\x1b[2;1H");
    g.feed(b"\x1b[1L");
    let snap1 = g.snapshot();
    assert_eq!(snap1.cells[0][0].ch, 'A');
    assert_eq!(snap1.cells[1][0].ch, ' ');
    assert_eq!(snap1.cells[2][0].ch, 'B');
    g.feed(b"\x1b[1M");
    let snap2 = g.snapshot();
    assert_eq!(snap2.cells[1][0].ch, 'B');
}

#[test]
fn rep_repeats_last_printable_char() {
    let mut g = PaneGrid::new(10, 1);
    g.feed(b"X\x1b[5b");
    let snap = g.snapshot();
    for c in 0..6 {
        assert_eq!(snap.cells[0][c].ch, 'X', "col {c}");
    }
}

#[test]
fn irm_inserts_on_print() {
    let mut g = PaneGrid::new(6, 1);
    g.feed(b"abcdef");
    g.feed(b"\x1b[1;1H");
    g.feed(b"\x1b[4hZ");
    let snap = g.snapshot();
    assert_eq!(snap.cells[0][0].ch, 'Z');
    assert_eq!(snap.cells[0][1].ch, 'a');
    assert_eq!(snap.cells[0][2].ch, 'b');
}

#[test]
fn ri_scrolls_down_at_top_of_region() {
    let mut g = PaneGrid::new(3, 3);
    g.feed(b"a\r\nb\r\nc");
    g.feed(b"\x1b[1;1H");
    g.feed(b"\x1bM");
    let snap = g.snapshot();
    assert_eq!(snap.cells[0][0].ch, ' ');
    assert_eq!(snap.cells[1][0].ch, 'a');
}

#[test]
fn resize_preserves_top_left_content() {
    let mut g = PaneGrid::new(5, 3);
    g.feed(b"HELLO\r\nWORLD\r\nTHERE");
    g.resize(4, 2);
    let snap = g.snapshot();
    assert_eq!(snap.cols, 4);
    assert_eq!(snap.rows, 2);
    assert_eq!(snap.cells[0][0].ch, 'H');
    assert_eq!(snap.cells[0][3].ch, 'L');
    assert_eq!(snap.cells[1][0].ch, 'W');
    assert_eq!(snap.cursor_row, 1);
    assert_eq!(snap.cursor_col, 3);
}

#[test]
fn resize_grow_pads_with_blanks() {
    let mut g = PaneGrid::new(3, 2);
    g.feed(b"AB\r\nCD");
    g.resize(5, 4);
    let snap = g.snapshot();
    assert_eq!(snap.cols, 5);
    assert_eq!(snap.rows, 4);
    assert_eq!(snap.cells[0][0].ch, 'A');
    assert_eq!(snap.cells[0][3].ch, ' ');
    assert_eq!(snap.cells[2][0].ch, ' ');
}

#[test]
fn scrollback_caps_at_configured_size() {
    let mut g = PaneGrid::with_scrollback(3, 2, 3);
    for i in 0..10u8 {
        g.feed(&[b'a' + i, b'\r', b'\n']);
    }
    assert!(g.scrollback_len() <= 3);
}

#[test]
fn sgr_truecolor_with_missing_params_does_not_panic() {
    let mut g = PaneGrid::new(5, 1);
    g.feed(b"\x1b[38;2;200mX");
    let snap = g.snapshot();
    assert_eq!(snap.cells[0][0].ch, 'X');
}

#[test]
fn sgr_256_with_missing_index_does_not_panic() {
    let mut g = PaneGrid::new(5, 1);
    g.feed(b"\x1b[38;5mX");
    let snap = g.snapshot();
    assert_eq!(snap.cells[0][0].ch, 'X');
}

#[test]
fn sgr_unknown_param_is_ignored() {
    let mut g = PaneGrid::new(5, 1);
    g.feed(b"\x1b[999mX");
    let snap = g.snapshot();
    assert_eq!(snap.cells[0][0].ch, 'X');
    assert_eq!(snap.cells[0][0].fg, Color::white());
}

#[test]
fn sgr_empty_params_resets() {
    let mut g = PaneGrid::new(5, 1);
    g.feed(b"\x1b[31m");
    g.feed(b"\x1b[m");
    g.feed(b"X");
    let snap = g.snapshot();
    assert_eq!(snap.cells[0][0].fg, Color::white());
}

#[test]
fn sgr_bright_bg_100_107() {
    let mut g = PaneGrid::new(3, 1);
    g.feed(b"\x1b[104mX");
    let snap = g.snapshot();
    let bright_blue = ansi_bright_colors()[4];
    assert_eq!(snap.cells[0][0].bg, bright_blue);
}

#[test]
fn sgr_disable_attrs_21_to_29() {
    let mut g = PaneGrid::new(3, 1);
    g.feed(b"\x1b[1;4;7m");
    g.feed(b"\x1b[22;24;27m");
    g.feed(b"X");
    let snap = g.snapshot();
    assert!(snap.cells[0][0].attrs.is_empty());
}

#[test]
fn ech_past_end_of_row_clamps() {
    let mut g = PaneGrid::new(3, 1);
    g.feed(b"abc");
    g.feed(b"\x1b[1;2H");
    g.feed(b"\x1b[100X");
    let snap = g.snapshot();
    assert_eq!(snap.cells[0][0].ch, 'a');
    assert_eq!(snap.cells[0][1].ch, ' ');
    assert_eq!(snap.cells[0][2].ch, ' ');
}

#[test]
fn ich_at_end_of_row_no_overflow() {
    let mut g = PaneGrid::new(3, 1);
    g.feed(b"abc");
    g.feed(b"\x1b[1;3H");
    g.feed(b"\x1b[5@");
    let snap = g.snapshot();
    assert_eq!(snap.cells[0][0].ch, 'a');
    assert_eq!(snap.cells[0][1].ch, 'b');
    assert_eq!(snap.cells[0][2].ch, ' ');
}

#[test]
fn dch_more_than_row_clamps() {
    let mut g = PaneGrid::new(3, 1);
    g.feed(b"abc");
    g.feed(b"\x1b[1;1H");
    g.feed(b"\x1b[100P");
    let snap = g.snapshot();
    for c in 0..3 {
        assert_eq!(snap.cells[0][c].ch, ' ', "col {c}");
    }
}

#[test]
fn osc_with_no_params_is_dropped() {
    let mut g = PaneGrid::new(3, 1);
    g.feed(b"\x1b]\x07");
    let snap = g.snapshot();
    assert!(snap.title.is_none());
}

#[test]
fn osc_very_long_title_works() {
    let mut g = PaneGrid::new(3, 1);
    let long_title: String = "x".repeat(1000);
    let payload = format!("\x1b]2;{}\x07", long_title);
    g.feed(payload.as_bytes());
    assert_eq!(g.title().map(str::len), Some(1000));
}

#[test]
fn dec_1049_save_and_restore_cursor_around_alt_screen() {
    let mut g = PaneGrid::new(10, 3);
    g.feed(b"AAA\r\nBBB");
    g.feed(b"\x1b[?1049h");
    g.feed(b"\x1b[5;5H");
    let alt = g.snapshot();
    assert!(alt.alt_screen_active);
    g.feed(b"\x1b[?1049l");
    let back = g.snapshot();
    assert!(!back.alt_screen_active);
    assert_eq!(back.cursor_row, 1);
    assert_eq!(back.cursor_col, 3);
    assert_eq!(back.cells[0][0].ch, 'A');
    assert_eq!(back.cells[1][0].ch, 'B');
}

#[test]
fn dec_25_cursor_visibility_round_trip() {
    let mut g = PaneGrid::new(3, 1);
    g.feed(b"\x1b[?25l");
    assert!(!g.snapshot().cursor_visible);
    g.feed(b"\x1b[?25h");
    assert!(g.snapshot().cursor_visible);
    g.feed(b"\x1b[?25l");
    assert!(!g.snapshot().cursor_visible);
}

#[test]
fn bel_does_not_crash_or_consume_cell() {
    let mut g = PaneGrid::new(3, 1);
    g.feed(b"A\x07B");
    let snap = g.snapshot();
    assert_eq!(snap.cells[0][0].ch, 'A');
    assert_eq!(snap.cells[0][1].ch, 'B');
}

#[test]
fn tab_aligns_to_next_multiple_of_8() {
    let mut g = PaneGrid::new(20, 1);
    g.feed(b"\tX");
    let snap = g.snapshot();
    assert_eq!(snap.cells[0][8].ch, 'X');
}

#[test]
fn resize_to_zero_clamps_safely() {
    let mut g = PaneGrid::new(5, 3);
    g.feed(b"hello");
    g.resize(0, 0);
    let snap = g.snapshot();
    assert_eq!(snap.cursor_row, 0);
    assert_eq!(snap.cursor_col, 0);
}

#[test]
fn ris_resets_pen_and_clears_screen() {
    let mut g = PaneGrid::new(5, 2);
    g.feed(b"\x1b[31m");
    g.feed(b"AB\r\nCD");
    g.feed(b"\x1bc");
    let snap = g.snapshot();
    for row in snap.cells {
        for cell in row {
            assert_eq!(cell.ch, ' ');
            assert_eq!(cell.fg, Color::white());
        }
    }
    assert_eq!(snap.cursor_row, 0);
    assert_eq!(snap.cursor_col, 0);
}

#[test]
fn cursor_keys_mode_defaults_to_false() {
    let g = PaneGrid::new(5, 1);
    assert!(!g.cursor_keys_mode());
    assert!(!g.snapshot().cursor_keys_mode);
}

#[test]
fn decckm_set_via_csi_question_1_h() {
    let mut g = PaneGrid::new(5, 1);
    g.feed(b"\x1b[?1h");
    assert!(g.cursor_keys_mode());
    assert!(g.snapshot().cursor_keys_mode);
}

#[test]
fn decckm_reset_via_csi_question_1_l() {
    let mut g = PaneGrid::new(5, 1);
    g.feed(b"\x1b[?1h");
    g.feed(b"\x1b[?1l");
    assert!(!g.cursor_keys_mode());
    assert!(!g.snapshot().cursor_keys_mode);
}

#[test]
fn decckm_survives_unrelated_modes() {
    let mut g = PaneGrid::new(5, 1);
    g.feed(b"\x1b[?1h");
    g.feed(b"\x1b[?25l");
    g.feed(b"\x1b[?1049h");
    assert!(
        g.cursor_keys_mode(),
        "DECCKM must persist across cursor-visibility + alt-screen toggles"
    );
}

#[test]
fn ris_resets_cursor_keys_mode() {
    let mut g = PaneGrid::new(5, 1);
    g.feed(b"\x1b[?1h");
    assert!(g.cursor_keys_mode());
    g.feed(b"\x1bc");
    assert!(
        !g.cursor_keys_mode(),
        "RIS must reset DECCKM to normal mode"
    );
}

#[test]
fn decckm_multi_param_csi() {
    let mut g = PaneGrid::new(5, 1);
    g.feed(b"\x1b[?25l");
    g.feed(b"\x1b[?1;25h");
    assert!(g.cursor_keys_mode());
    assert!(g.snapshot().cursor_visible);
}

#[test]
fn a_cursor_move_drops_a_deferred_wrap() {
    let shown = |bytes: &[u8]| {
        let mut g = PaneGrid::new(5, 3);
        g.feed(bytes);
        g.snapshot()
    };
    assert_eq!(shown(b"AAAAA\x1bcX").cells[0][0].ch, 'X');
    assert_eq!(shown(b"AAAAA\x1b8X").cells[0][4].ch, 'X');
    assert_eq!(shown(b"AAAAA\x1bDX").cells[1][4].ch, 'X');
    assert_eq!(shown(b"AAAAA\x1bEX").cells[1][0].ch, 'X');
    assert_eq!(shown(b"\r\nAAAAA\x1bMX").cells[0][4].ch, 'X');
    // Saving the cursor moves nothing.
    assert_eq!(shown(b"AAAAA\x1b7X").cells[1][0].ch, 'X');
}
