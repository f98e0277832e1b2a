//! Wide glyphs and combining marks.
use tear::pane_grid::PaneGrid;

#[test]
fn wide_glyph_advances_two_columns() {
    let mut g = PaneGrid::new(20, 3);
    g.feed("你".as_bytes());
    let s = g.snapshot();
    assert_eq!(s.cells[0][0].ch, '你', "lead cell holds the glyph");
    assert_eq!(s.cells[0][0].width, 2, "lead is marked double-width");
    assert_eq!(s.cells[0][1].width, 0, "col 1 is a continuation cell");
    assert_eq!(s.cursor_col, 2, "cursor advances by the glyph's WIDTH");
}

#[test]
fn later_cells_are_not_displaced_by_wide_glyphs() {
    let mut g = PaneGrid::new(20, 3);
    g.feed("你好X".as_bytes());
    let s = g.snapshot();
    assert_eq!(s.cells[0][0].ch, '你');
    assert_eq!(s.cells[0][2].ch, '好', "second glyph starts at col 2, not 1");
    assert_eq!(s.cells[0][4].ch, 'X', "ASCII lands at col 4, not 2");
    assert_eq!(s.cursor_col, 5);
}

#[test]
fn wide_glyph_that_does_not_fit_wraps_whole() {
    let mut g = PaneGrid::new(20, 3);
    g.feed("A".repeat(19).as_bytes());
    g.feed("你".as_bytes());
    let s = g.snapshot();
    assert_eq!(s.cells[0][19].ch, ' ', "last col of row 0 stays blank");
    assert_eq!(s.cells[1][0].ch, '你', "glyph moved to the next row whole");
    assert_eq!(s.cells[1][1].width, 0);
}

#[test]
fn wide_glyph_flush_to_margin_parks_at_last_column() {
    let mut g = PaneGrid::new(20, 3);
    g.feed("A".repeat(18).as_bytes());
    g.feed("你".as_bytes());
    let s = g.snapshot();
    assert_eq!(s.cells[0][18].ch, '你');
    assert_eq!(s.cells[0][19].width, 0);
    assert_eq!(s.cursor_col, 19, "parked at the last column, not at 18");
}

#[test]
fn overwriting_a_wide_pair_clears_its_orphan() {
    let mut g = PaneGrid::new(20, 3);
    g.feed("你".as_bytes());
    g.feed(b"\x1b[1;1H");
    g.feed(b"X");
    let s = g.snapshot();
    assert_eq!(s.cells[0][0].ch, 'X');
    assert_eq!(s.cells[0][0].width, 1);
    assert_eq!(
        s.cells[0][1].ch, ' ',
        "the orphaned continuation is cleared, not left as a half-glyph"
    );
    assert_eq!(s.cells[0][1].width, 1);
}

#[test]
fn a_combining_mark_attaches_to_the_base_cell() {
    let mut g = PaneGrid::new(20, 3);
    g.feed("e\u{301}X".as_bytes());
    let s = g.snapshot();
    assert_eq!(s.cells[0][0].ch, 'e');
    assert_eq!(
        s.cells[0][0].marks(&s.combining),
        &['\u{301}'],
        "the mark belongs to the base cell"
    );
    assert_eq!(s.cells[0][1].ch, 'X', "X is at col 1, not col 2");
    assert_eq!(s.cursor_col, 2, "a mark consumes no column");
}

#[test]
fn stacked_marks_accumulate_on_one_cell() {
    let mut g = PaneGrid::new(20, 3);
    g.feed("a\u{301}\u{308}".as_bytes());
    let s = g.snapshot();
    assert_eq!(s.cells[0][0].marks(&s.combining), &['\u{301}', '\u{308}']);
    assert_eq!(s.cursor_col, 1);
}

#[test]
fn a_mark_after_a_margin_flush_wide_glyph_lands_on_the_lead() {
    let mut g = PaneGrid::new(20, 3);
    g.feed("A".repeat(18).as_bytes());
    g.feed("你\u{301}".as_bytes());
    let s = g.snapshot();
    assert_eq!(s.cells[0][18].ch, '你', "lead at col 18");
    assert_eq!(
        s.cells[0][18].marks(&s.combining),
        &['\u{301}'],
        "the mark must attach to the LEAD, not the continuation"
    );
    assert!(
        s.cells[0][19].marks(&s.combining).is_empty(),
        "the continuation owns no marks"
    );
}

#[test]
fn a_mark_at_column_zero_is_dropped() {
    let mut g = PaneGrid::new(20, 3);
    g.feed("\u{301}".as_bytes());
    let s = g.snapshot();
    assert_eq!(s.cursor_col, 0, "no column consumed");
    assert!(s.combining.is_empty(), "no table entry minted");
    assert_eq!(s.cells[0][0].ch, ' ');
}

#[test]
fn rep_after_a_mark_repeats_the_base_glyph() {
    let mut g = PaneGrid::new(20, 3);
    g.feed("e\u{301}".as_bytes());
    g.feed(b"\x1b[2b");
    let s = g.snapshot();
    assert_eq!(s.cells[0][1].ch, 'e', "REP repeats the base, not the mark");
    assert_eq!(s.cells[0][2].ch, 'e');
}

#[test]
fn marks_survive_a_to_ansi_round_trip() {
    let mut a = PaneGrid::new(20, 3);
    a.feed("e\u{301}X".as_bytes());
    let first = a.snapshot();

    let mut b = PaneGrid::new(20, 3);
    b.feed(&first.to_ansi());
    let second = b.snapshot();

    assert_eq!(second.cells[0][0].ch, 'e');
    assert_eq!(second.cells[0][0].marks(&second.combining), &['\u{301}']);
    assert_eq!(second.cells[0][1].ch, 'X');
}

#[test]
fn to_ansi_round_trips_wide_glyphs_without_drift() {
    let mut a = PaneGrid::new(20, 3);
    a.feed("你好X".as_bytes());
    let first = a.snapshot();

    let mut b = PaneGrid::new(20, 3);
    b.feed(&first.to_ansi());
    let second = b.snapshot();

    for col in 0..20 {
        assert_eq!(
            first.cells[0][col].ch, second.cells[0][col].ch,
            "col {col} drifted across a to_ansi round-trip"
        );
        assert_eq!(
            first.cells[0][col].width, second.cells[0][col].width,
            "col {col} width drifted across a to_ansi round-trip"
        );
    }
}
