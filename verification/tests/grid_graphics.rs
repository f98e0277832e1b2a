//! Images that a terminal carries.
use tear::graphics::{GraphicProtocol, GRAPHIC_PAYLOAD_MAX};
use tear::pane_grid::PaneGrid;

#[test]
fn a_sixel_payload_reaches_the_snapshot() {
    let mut g = PaneGrid::new(80, 24);
    g.feed(b"\x1bPq#0;2;0;0;0#0~~@@vv@@~~@@~~$\x1b\\");
    let s = g.snapshot();
    assert_eq!(s.graphics.len(), 1, "the sixel must not vanish");
    assert_eq!(s.graphics[0].protocol, GraphicProtocol::Sixel);
    assert!(!s.graphics[0].data.is_empty());
    assert!(!s.graphics[0].truncated);
}

#[test]
fn a_kitty_payload_reaches_the_snapshot_with_its_params_split_off() {
    let mut g = PaneGrid::new(80, 24);
    g.feed(b"\x1b_Ga=T,f=100,s=2,v=2;iVBORw0KGgo=\x1b\\");
    let s = g.snapshot();
    assert_eq!(s.graphics.len(), 1, "the kitty image must not vanish");
    let img = &s.graphics[0];
    assert_eq!(img.protocol, GraphicProtocol::Kitty);
    assert_eq!(img.params, "a=T,f=100,s=2,v=2");
    assert_eq!(img.data, b"iVBORw0KGgo=".to_vec());
}

#[test]
fn an_apc_split_across_feeds_reassembles() {
    let whole = b"\x1b_Ga=T,f=100;PAYLOAD\x1b\\";
    for cut in 1..whole.len() {
        let mut g = PaneGrid::new(80, 24);
        g.feed(&whole[..cut]);
        g.feed(&whole[cut..]);
        let s = g.snapshot();
        assert_eq!(s.graphics.len(), 1, "lost the image when cut at {cut}");
        assert_eq!(s.graphics[0].data, b"PAYLOAD".to_vec(), "cut at {cut}");
        assert!(
            s.to_text_rows().iter().all(|r| r.trim().is_empty()),
            "APC bytes leaked into the grid when cut at {cut}"
        );
    }
}

#[test]
fn a_non_apc_escape_still_reaches_the_parser() {
    let mut g = PaneGrid::new(80, 24);
    g.feed(b"AB\x1b");
    g.feed(b"[1;1HX");
    let s = g.snapshot();
    assert_eq!(
        s.cells[0][0].ch, 'X',
        "the CUP that followed a withheld ESC must still be honoured"
    );
}

#[test]
fn an_apc_terminated_by_bel_is_accepted() {
    let mut g = PaneGrid::new(80, 24);
    g.feed(b"\x1b_Ga=T;DATA\x07");
    assert_eq!(g.snapshot().graphics.len(), 1, "BEL terminates APC too");
}

#[test]
fn a_kitty_control_command_without_a_payload_is_kept() {
    let mut g = PaneGrid::new(80, 24);
    g.feed(b"\x1b_Ga=d,d=A\x1b\\");
    let s = g.snapshot();
    assert_eq!(s.graphics.len(), 1);
    assert_eq!(s.graphics[0].params, "a=d,d=A");
    assert!(s.graphics[0].data.is_empty());
}

#[test]
fn an_unrecognised_apc_is_dropped_without_reaching_the_grid() {
    let mut g = PaneGrid::new(80, 24);
    g.feed(b"\x1b_Zsomething-else\x1b\\after");
    let s = g.snapshot();
    assert!(s.graphics.is_empty(), "not a kitty payload");
    assert_eq!(s.cells[0][0].ch, 'a', "the text after it still lands");
}

#[test]
fn an_oversized_payload_is_bounded_and_flagged() {
    let mut g = PaneGrid::new(80, 24);
    g.feed(b"\x1b_Ga=T;");
    let chunk = vec![b'x'; 1024 * 1024];
    for _ in 0..10 {
        g.feed(&chunk);
    }
    g.feed(b"\x1b\\");
    let s = g.snapshot();
    assert_eq!(s.graphics.len(), 1);
    assert!(s.graphics[0].truncated, "the cut must be visible");
    assert!(
        s.graphics[0].data.len() <= GRAPHIC_PAYLOAD_MAX + 1,
        "payload not bounded: {}",
        s.graphics[0].data.len()
    );
}

#[test]
fn image_bytes_leave_no_residue_in_the_grid() {
    let mut g = PaneGrid::new(80, 24);
    g.feed(b"before|");
    g.feed(b"\x1b_Ga=T,f=100;iVBORw0KGgo=\x1b\\");
    g.feed(b"\x1bPq#0;2;0;0;0#0~~$\x1b\\");
    g.feed(b"|after");
    let row0 = g.snapshot().to_text_rows().into_iter().next().unwrap();
    assert_eq!(row0.trim_end(), "before||after");
}

#[test]
fn an_image_stands_where_the_cursor_was_when_it_ended() {
    let mut g = PaneGrid::new(20, 3);
    g.feed(b"ab\x1b_Gf=100;AA\x1b\\cd\r\n\x1b_Gf=100;BB\x07e");
    let s = g.snapshot();
    assert_eq!(s.graphics.len(), 2);
    assert_eq!((s.graphics[0].at_row, s.graphics[0].at_col), (0, 2));
    assert_eq!(s.graphics[0].data, b"AA");
    assert_eq!((s.graphics[1].at_row, s.graphics[1].at_col), (1, 0));
    let mut by_byte = PaneGrid::new(20, 3);
    for b in b"ab\x1b_Gf=100;AA\x1b\\cd\r\n\x1b_Gf=100;BB\x07e" {
        by_byte.feed(&[*b]);
    }
    assert_eq!(by_byte.snapshot(), s);
}

#[test]
fn a_sixel_image_is_cut_only_past_the_bound() {
    for (extra, cut) in [(0usize, false), (1, true), (70_000, true)] {
        let mut g = PaneGrid::new(20, 3);
        g.feed(b"\x1bPq");
        let chunk = vec![b'?'; 64 * 1024];
        for _ in 0..GRAPHIC_PAYLOAD_MAX / chunk.len() {
            g.feed(&chunk);
        }
        g.feed(&vec![b'?'; extra]);
        g.feed(b"\x1b\\");
        let s = g.snapshot();
        assert_eq!(s.graphics.len(), 1);
        assert_eq!(s.graphics[0].truncated, cut);
        assert_eq!(s.graphics[0].data.len(), GRAPHIC_PAYLOAD_MAX);
    }
}
