//! What the modes, the replies, the images, a resize and a reset do, and what a
//! snapshot shows of it all.
use crate::csi_laws;
use crate::csi_laws::{number, ordinary, sequence, shown, unwrapped};
use crate::graphics::{GraphicProtocol, GraphicView, GRAPHIC_PAYLOAD_MAX};
use crate::grid_laws;
use crate::grid_model;
use crate::grid_model::GridView;
use crate::host_role::{HostRole, TearCaps};
use crate::modes::MouseTracking;
use crate::pane_snapshot::Cell;
use crate::sgr::Pen;
use crate::text;
use crate::vt::VtEventView;
use vstd::prelude::*;

verus! {

/// `CSI ? code h` or `CSI ? code l`.
pub open spec fn mode_sequence(code: u16, set: bool) -> VtEventView {
    VtEventView::Csi {
        params: seq![seq![code]],
        intermediates: seq![0x3fu8],
        action: if set {
            'h'
        } else {
            'l'
        },
    }
}

proof fn lemma_one_mode(v: GridView, code: u16, set: bool, now: u64)
    ensures
        v.perform(mode_sequence(code, set), now) == unwrapped(v).dec_mode(code, set),
{
    reveal(GridView::perform);
    reveal(GridView::csi);
    reveal(GridView::private_csi);
    let params = seq![seq![code]];
    assert(params.last() == seq![code]);
    assert(params.last()[0] == code);
    assert(params.drop_last().len() == 0);
    let u = unwrapped(v);
    assert(u.dec_modes(params.drop_last(), set) == u);
}

/// Each private mode switches the one thing it is for, and nothing else: 1 the
/// cursor keys, 7 the wrap, 25 the cursor, 1004 the reports of focus, 1006 the
/// mouse's format, 2004 the bracketed paste, 2026 the synchronised output; 1000,
/// 1002 and 1003 set how much of the mouse is told, and any of them reset tells
/// nothing of it. A mode that is not known does nothing.
pub proof fn lemma_modes_switch_what_they_are_for(v: GridView, code: u16, set: bool, now: u64)
    requires
        code != 47 && code != 1047 && code != 1049,
    ensures
        v.perform(mode_sequence(code, set), now) == (GridView {
            cursor_keys_mode: if code == 1 {
                set
            } else {
                v.cursor_keys_mode
            },
            autowrap: if code == 7 {
                set
            } else {
                v.autowrap
            },
            cursor_visible: if code == 25 {
                set
            } else {
                v.cursor_visible
            },
            focus_reporting: if code == 1004 {
                set
            } else {
                v.focus_reporting
            },
            mouse_sgr: if code == 1006 {
                set
            } else {
                v.mouse_sgr
            },
            bracketed_paste: if code == 2004 {
                set
            } else {
                v.bracketed_paste
            },
            sync_output: if code == 2026 {
                set
            } else {
                v.sync_output
            },
            mouse: if code != 1000 && code != 1002 && code != 1003 {
                v.mouse
            } else if !set {
                MouseTracking::Off
            } else if code == 1000 {
                MouseTracking::Click
            } else if code == 1002 {
                MouseTracking::Drag
            } else {
                MouseTracking::Motion
            },
            wrap_pending: false,
            ..v
        }),
{
    lemma_one_mode(v, code, set, now);
    reveal(GridView::dec_mode);
}

/// Several modes of one sequence are switched one after the other.
pub proof fn lemma_modes_are_switched_in_order(
    v: GridView,
    params: Seq<Seq<u16>>,
    code: u16,
    set: bool,
)
    ensures
        v.dec_modes(params.push(seq![code]), set) == v.dec_modes(params, set).dec_mode(code, set),
        v.dec_modes(Seq::empty(), set) == v,
{
    let more = params.push(seq![code]);
    assert(more.drop_last() =~= params);
    assert(more.last() == seq![code]);
    assert(more.last()[0] == code);
}

/// The modes of the alternate screen show it or hide it: 47 as it stands; 1047 and
/// 1049 clear it on the way in, with the cursor in its first cell, and on the way
/// out where it was shown; 1049 also puts the cursor aside on the way in. The
/// primary screen and its history stay as they are.
pub proof fn lemma_entering_the_alternate_screen(
    v: GridView,
    code: u16,
    now: u64,
    r: int,
    c: int,
)
    requires
        v.wf(),
        code == 47 || code == 1047 || code == 1049,
        0 <= r < v.rows,
        0 <= c < v.cols,
        v.rows <= usize::MAX,
        v.cols <= usize::MAX,
    ensures
        ({
            let w = v.perform(mode_sequence(code, true), now);
            &&& w == (GridView {
                alt_active: true,
                alternate: w.alternate,
                cursor_row: if code == 47 {
                    v.cursor_row
                } else {
                    0
                },
                cursor_col: if code == 47 {
                    v.cursor_col
                } else {
                    0
                },
                saved: w.saved,
                wrap_pending: false,
                ..v
            })
            &&& code != 1049 ==> w.saved == v.saved
            &&& code == 1049 ==> w.saved is Some && w.saved->0.row == v.cursor_row && w.saved->0.col
                == v.cursor_col && w.saved->0.pen == v.pen
            &&& w.alternate[r][c] == if code == 47 {
                v.alternate[r][c]
            } else {
                Cell::blank()
            }
        }),
{
    lemma_one_mode(v, code, true, now);
    reveal(GridView::dec_mode);
    reveal(GridView::enter_alt_screen);
    reveal(GridView::save_cursor);
    grid_laws::lemma_rectangle_row(v.alternate, v.cols, r);
}

/// Leaving the alternate screen: see entering it. 1049 brings back the cursor and
/// the pen that were put aside.
pub proof fn lemma_leaving_the_alternate_screen(
    v: GridView,
    code: u16,
    now: u64,
    r: int,
    c: int,
)
    requires
        v.wf(),
        code == 47 || code == 1047 || code == 1049,
        0 <= r < v.rows,
        0 <= c < v.cols,
    ensures
        ({
            let w = v.perform(mode_sequence(code, false), now);
            &&& w == (GridView {
                alt_active: false,
                alternate: w.alternate,
                cursor_row: w.cursor_row,
                cursor_col: w.cursor_col,
                pen: w.pen,
                wrap_pending: false,
                ..v
            })
            &&& code != 1049 || v.saved is None ==> w.cursor_row == v.cursor_row && w.cursor_col
                == v.cursor_col && w.pen == v.pen
            &&& code == 1049 ==> (v.saved matches Some(s) ==> {
                &&& w.cursor_row == csi_laws::held(s.row as int, v.rows)
                &&& w.cursor_col == csi_laws::held(s.col as int, v.cols)
                &&& w.pen == s.pen
            })
            &&& w.alternate[r][c] == if code != 47 && v.alt_active {
                csi_laws::pen_blank(v)
            } else {
                v.alternate[r][c]
            }
        }),
{
    lemma_one_mode(v, code, false, now);
    reveal(GridView::dec_mode);
    reveal(GridView::clear_alternate);
    reveal(GridView::restore_cursor);
    grid_laws::lemma_rectangle_row(v.alternate, v.cols, r);
}

/// A reply is added to those that are owed, on a pane that answers; `CSI 6 n` tells
/// the row and the column of the cursor, counted from one, `CSI 5 n` that all is
/// well, `CSI c` and `CSI > c` what the terminal is. Nothing else changes, and a
/// pane that only relays owes nothing.
pub proof fn lemma_replies(
    v: GridView,
    params: Seq<Seq<u16>>,
    intermediates: Seq<u8>,
    now: u64,
)
    requires
        ordinary(intermediates, 'n'),
    ensures
        ({
            let w = v.perform(sequence(params, intermediates, 'n'), now);
            let said: Seq<u8> = if number(params, 0, 0) == 5 {
                seq![0x1bu8, 0x5b, 0x30, 0x6e]
            } else if number(params, 0, 0) == 6 {
                seq![0x1bu8, 0x5b] + text::decimal_bytes((v.cursor_row + 1) as nat) + seq![0x3bu8]
                    + text::decimal_bytes((v.cursor_col + 1) as nat) + seq![0x52u8]
            } else {
                Seq::empty()
            };
            w == (GridView {
                response: if v.role == HostRole::Host {
                    v.response + said
                } else {
                    v.response
                },
                wrap_pending: false,
                ..v
            })
        }),
        v.role == HostRole::Relay ==> v.perform(sequence(params, intermediates, 'c'), now)
            == unwrapped(v),
        v.role == HostRole::Host ==> v.perform(sequence(params, intermediates, 'c'), now) == (
        GridView {
            response: v.response + seq![0x1bu8, 0x5b, 0x3f, 0x36, 0x32, 0x3b, 0x32, 0x32, 0x63],
            wrap_pending: false,
            ..v
        }),
        v.role == HostRole::Host ==> v.perform(sequence(params, seq![0x3eu8], 'c'), now) == (
        GridView {
            response: v.response + seq![0x1bu8, 0x5b, 0x3e, 0x31, 0x3b, 0x30, 0x3b, 0x30, 0x63],
            wrap_pending: false,
            ..v
        }),
{
    csi_laws::lemma_ordinary_sequence(v, params, intermediates, 'n', now);
    csi_laws::lemma_ordinary_sequence(v, params, intermediates, 'c', now);
    let u = unwrapped(v);
    assert(v.perform(sequence(params, seq![0x3eu8], 'c'), now) == u.answer(
        TearCaps::spec_secondary_da(),
    )) by {
        reveal(GridView::perform);
        reveal(GridView::csi);
        reveal(GridView::private_csi);
    }
    assert(u.standard_csi(params, 'c') == u.answer(TearCaps::spec_primary_da())) by {
        reveal(GridView::standard_csi);
    }
    assert(u.standard_csi(params, 'n') == if number(params, 0, 0) == 5 {
        u.answer(TearCaps::spec_status_ok())
    } else if number(params, 0, 0) == 6 {
        u.answer(u.cursor_report())
    } else {
        u
    }) by {
        reveal(GridView::standard_csi);
    }
    reveal(GridView::answer);
    assert(v.response + Seq::<u8>::empty() =~= v.response);
    assert(TearCaps::spec_status_ok() =~= seq![0x1bu8, 0x5b, 0x30, 0x6e]);
}

/// The decimal digits that a reply is written with read back as the number.
pub proof fn lemma_reply_digits_read_back(n: nat)
    ensures
        text::decimal_bytes(n).len() == text::decimal(n).len(),
        forall|i: int|
            0 <= i < text::decimal(n).len() ==> text::decimal(n)[i] as int
                == #[trigger] text::decimal_bytes(n)[i] as int,
    decreases n,
{
    if n >= 10 {
        lemma_reply_digits_read_back(n / 10);
    }
}

/// A sixel image is kept with all its bytes, in order, where the cursor stands when
/// it ends, and one that is longer than the bound is cut there and says so; an
/// empty one is dropped.
pub proof fn lemma_a_sixel_image_is_kept(v: GridView, data: Seq<u8>, now: u64)
    requires
        v.sixel is None,
    ensures
        ({
            let open = v.perform(VtEventView::Hook('q'), now);
            let full = open.run(Seq::new(data.len(), |i: int| VtEventView::Put(data[i])), now);
            let w = full.perform(VtEventView::Unhook, now);
            let cut = data.len() > GRAPHIC_PAYLOAD_MAX;
            w == (GridView {
                graphics: if data.len() == 0 {
                    v.graphics
                } else {
                    v.graphics.push(
                        GraphicView {
                            protocol: GraphicProtocol::Sixel,
                            params: Seq::empty(),
                            data: if cut {
                                data.take(GRAPHIC_PAYLOAD_MAX as int)
                            } else {
                                data
                            },
                            at_row: v.cursor_row,
                            at_col: v.cursor_col,
                            truncated: cut,
                        },
                    )
                },
                ..v
            })
        }),
{
    let open = v.perform(VtEventView::Hook('q'), now);
    assert(open == (GridView { sixel: Some(Seq::<u8>::empty()), ..v })) by {
        reveal(GridView::perform);
        reveal(GridView::hook);
    }
    let puts = Seq::new(data.len(), |i: int| VtEventView::Put(data[i]));
    lemma_bytes_gather(open, data, now);
    let full = open.run(puts, now);
    let buf = if data.len() > GRAPHIC_PAYLOAD_MAX {
        data.take(GRAPHIC_PAYLOAD_MAX + 1)
    } else {
        data
    };
    assert(full == (GridView { sixel: Some(buf), ..v }));
    assert(full.perform(VtEventView::Unhook, now) == full.unhook()) by {
        reveal(GridView::perform);
    }
    reveal(GridView::unhook);
    reveal(GridView::push_graphic);
    if data.len() > GRAPHIC_PAYLOAD_MAX {
        assert(buf.take(GRAPHIC_PAYLOAD_MAX as int) =~= data.take(GRAPHIC_PAYLOAD_MAX as int));
    }
}

proof fn lemma_bytes_gather(v: GridView, data: Seq<u8>, now: u64)
    requires
        v.sixel == Some(Seq::<u8>::empty()),
    ensures
        v.run(Seq::new(data.len(), |i: int| VtEventView::Put(data[i])), now) == (GridView {
            sixel: Some(
                if data.len() > GRAPHIC_PAYLOAD_MAX {
                    data.take(GRAPHIC_PAYLOAD_MAX + 1)
                } else {
                    data
                },
            ),
            ..v
        }),
    decreases data.len(),
{
    let evs = Seq::new(data.len(), |i: int| VtEventView::Put(data[i]));
    if data.len() == 0 {
        assert(data =~= Seq::<u8>::empty());
    } else {
        let rest = data.drop_last();
        lemma_bytes_gather(v, rest, now);
        assert(evs.drop_last() =~= Seq::new(rest.len(), |i: int| VtEventView::Put(rest[i])));
        assert(evs.last() == VtEventView::Put(data.last()));
        reveal(GridView::perform);
        reveal(GridView::put);
        assert(rest.push(data.last()) =~= data);
        if data.len() > GRAPHIC_PAYLOAD_MAX {
            if rest.len() > GRAPHIC_PAYLOAD_MAX {
                assert(rest.take(GRAPHIC_PAYLOAD_MAX + 1) =~= data.take(GRAPHIC_PAYLOAD_MAX + 1));
            } else {
                assert(data.take(GRAPHIC_PAYLOAD_MAX + 1) =~= data);
            }
        }
    }
}

proof fn lemma_first_byte(s: Seq<u8>, head: Seq<u8>, b: u8)
    requires
        !head.contains(b),
        s.len() >= head.len(),
        s.take(head.len() as int) == head,
        s.len() > head.len() ==> s[head.len() as int] == b,
    ensures
        grid_model::first_byte(s, b) == head.len(),
    decreases head.len(),
{
    if head.len() > 0 {
        assert(s[0] == head[0]);
        assert(head.contains(head[0]));
        let rest = s.drop_first();
        let tail = head.drop_first();
        assert(rest.take(tail.len() as int) =~= tail);
        assert forall|i: int| 0 <= i < tail.len() implies tail[i] != b by {
            assert(head.contains(head[i + 1]));
        }
        lemma_first_byte(rest, tail, b);
    }
}

/// A kitty image is kept where the cursor stands, its parameters being what stands
/// before the first semicolon and its data all that stands behind it; any other
/// application program command is dropped.
pub proof fn lemma_a_kitty_image_is_kept(
    v: GridView,
    head: Seq<u8>,
    data: Seq<u8>,
    other: Seq<u8>,
)
    requires
        !head.contains(0x3b),
        data.len() <= GRAPHIC_PAYLOAD_MAX,
        other.len() == 0 || other[0] != 0x47,
    ensures
        v.ingest_apc(seq![0x47u8] + head + seq![0x3bu8] + data, false) == (GridView {
            graphics: v.graphics.push(
                GraphicView {
                    protocol: GraphicProtocol::Kitty,
                    params: text::lossy_text(head),
                    data,
                    at_row: v.cursor_row,
                    at_col: v.cursor_col,
                    truncated: false,
                },
            ),
            ..v
        }),
        v.ingest_apc(other, false) == v,
{
    reveal(GridView::ingest_apc);
    reveal(GridView::push_graphic);
    let payload = seq![0x47u8] + head + seq![0x3bu8] + data;
    let rest = payload.skip(1);
    assert(rest =~= head + seq![0x3bu8] + data);
    let n = head.len() as int;
    assert(rest.take(n) =~= head);
    lemma_first_byte(rest, head, 0x3b);
    assert(rest.skip(n + 1) =~= data);
}

/// A pane at another size: each screen keeps what fits of its top left corner, and
/// what is new is blank; the cursor stays where it was, or on the edge; the margins
/// are the edges. Nothing else changes.
pub proof fn lemma_a_resized_pane(v: GridView, cols: int, rows: int, r: int, c: int)
    requires
        v.wf(),
        v.rows > 0,
        0 <= r < rows,
        0 <= c < cols,
    ensures
        ({
            let w = v.resize(cols, rows);
            &&& w == (GridView {
                rows,
                cols,
                primary: w.primary,
                alternate: w.alternate,
                cursor_row: csi_laws::held(v.cursor_row, rows),
                cursor_col: csi_laws::held(v.cursor_col, cols),
                scroll_top: 0,
                scroll_bottom: rows - 1,
                ..v
            })
            &&& w.primary.len() == rows
            &&& w.alternate.len() == rows
            &&& w.primary[r].len() == cols
            &&& w.alternate[r].len() == cols
            &&& w.primary[r][c] == if r < v.rows && c < v.cols {
                v.primary[r][c]
            } else {
                Cell::blank()
            }
            &&& w.alternate[r][c] == if r < v.rows && c < v.cols {
                v.alternate[r][c]
            } else {
                Cell::blank()
            }
        }),
{
    reveal(GridView::resize);
    if r < v.rows {
        grid_laws::lemma_rectangle_row(v.primary, v.cols, r);
        grid_laws::lemma_rectangle_row(v.alternate, v.cols, r);
    }
}

/// The full reset leaves a plain pen, no saved cursor, no title, the margins at the
/// edges, the cursor shown and in the first cell, the cursor keys plain, and the
/// primary screen shown and blank. The history, the blocks and the images stay.
pub proof fn lemma_the_full_reset(v: GridView, now: u64, r: int, c: int)
    requires
        v.wf(),
        0 <= r < v.rows,
        0 <= c < v.cols,
    ensures
        ({
            let w = v.perform(VtEventView::Esc(0x63), now);
            &&& w == (GridView {
                primary: w.primary,
                alternate: w.alternate,
                alt_active: false,
                pen: Pen::plain(),
                saved: None,
                title: None,
                scroll_top: 0,
                scroll_bottom: v.rows - 1,
                cursor_row: 0,
                cursor_col: 0,
                cursor_visible: true,
                cursor_keys_mode: false,
                wrap_pending: false,
                ..v
            })
            &&& w.primary[r][c] == Cell::blank()
            &&& !v.alt_active ==> w.alternate == v.alternate
            &&& v.alt_active ==> w.alternate[r][c] == Cell::blank()
        }),
{
    let u = unwrapped(v);
    assert(v.perform(VtEventView::Esc(0x63), now) == u.reset()) by {
        reveal(GridView::perform);
        reveal(GridView::esc);
    }
    reveal(GridView::reset);
    reveal(GridView::clear_alternate);
    reveal(GridView::cursor_set);
    reveal(GridView::erase_rows);
    grid_laws::lemma_rectangle_row(v.primary, v.cols, r);
    grid_laws::lemma_rectangle_row(v.alternate, v.cols, r);
}

/// The soft reset frees the cursor keys and does nothing else, and an escape
/// sequence that is not known does nothing at all.
pub proof fn lemma_the_soft_reset(v: GridView, params: Seq<Seq<u16>>, b: u8, now: u64)
    requires
        b != 0x37 && b != 0x38 && b != 0x44 && b != 0x45 && b != 0x4d && b != 0x63,
    ensures
        v.perform(sequence(params, seq![0x21u8], 'p'), now) == (GridView {
            cursor_keys_mode: false,
            wrap_pending: false,
            ..v
        }),
        v.perform(VtEventView::Esc(b), now) == v,
{
    reveal(GridView::perform);
    reveal(GridView::csi);
    reveal(GridView::esc);
}

/// A snapshot shows the screen, the cursor, the title and the modes as they are,
/// with the history of the primary screen while that is shown.
pub proof fn lemma_a_snapshot_shows_the_pane(v: GridView, r: int, c: int)
    ensures
        ({
            let s = v.snapshot();
            &&& s.rows == v.rows
            &&& s.cols == v.cols
            &&& s.cells[r][c] == shown(v, r, c)
            &&& s.cursor_row == v.cursor_row
            &&& s.cursor_col == v.cursor_col
            &&& s.alt_screen_active == v.alt_active
            &&& s.cursor_visible == v.cursor_visible
            &&& s.cursor_keys_mode == v.cursor_keys_mode
            &&& s.title == v.title
            &&& s.combining == v.combining
            &&& s.graphics == v.graphics
            &&& !v.alt_active ==> s.scrollback == v.scrollback
            &&& v.alt_active ==> s.scrollback.len() == 0
            &&& s.modes.bracketed_paste.on == v.bracketed_paste
            &&& s.modes.cursor_keys.on == v.cursor_keys_mode
            &&& s.modes.focus_reporting.on == v.focus_reporting
            &&& s.modes.sync_output.on == v.sync_output
            &&& s.modes.mouse == v.mouse
            &&& s.modes.mouse_sgr.on == v.mouse_sgr
            &&& s.modes.cursor_visible.on == v.cursor_visible
            &&& s.modes.autowrap.on == v.autowrap
            &&& s.modes.alt_screen.on == v.alt_active
        }),
{
}

/// A fresh pane is blank, with the cursor in its first cell, white on black, no
/// history, the margins at the edges, and every mode at its default: the cursor
/// shown, lines wrapped, and nothing else on.
pub proof fn lemma_a_fresh_pane(cols: int, rows: int, cap: int, r: int, c: int)
    requires
        0 <= r < rows,
        0 <= c < cols,
    ensures
        ({
            let v = GridView::start(cols, rows, cap);
            &&& v.cols == cols
            &&& v.rows == rows
            &&& v.primary.len() == rows
            &&& v.primary[r].len() == cols
            &&& v.primary[r][c] == Cell::blank()
            &&& v.alternate.len() == rows
            &&& v.alternate[r].len() == cols
            &&& v.alternate[r][c] == Cell::blank()
            &&& !v.alt_active
            &&& v.scrollback.len() == 0
            &&& v.scrollback_cap == cap
            &&& v.cursor_row == 0
            &&& v.cursor_col == 0
            &&& v.pen == Pen::plain()
            &&& v.saved is None
            &&& !v.wrap_pending
            &&& v.scroll_top == 0
            &&& v.scroll_bottom == rows - 1
            &&& !v.insert_mode
            &&& v.cursor_visible
            &&& !v.cursor_keys_mode
            &&& v.role == HostRole::Relay
            &&& v.autowrap
            &&& !v.focus_reporting
            &&& !v.bracketed_paste
            &&& !v.sync_output
            &&& v.mouse == MouseTracking::Off
            &&& !v.mouse_sgr
            &&& v.combining.len() == 0
            &&& v.graphics.len() == 0
            &&& v.response.len() == 0
            &&& v.title is None
            &&& v.blocks.blocks.len() == 0
            &&& v.blocks.current is None
            &&& v.blocks.cap == 10000
        }),
{
}

/// A switch says what it was set to, and the mouse is followed unless it is off.
pub proof fn lemma_switches_say_what_they_were_set_to(on: bool, mouse: MouseTracking)
    ensures
        crate::modes::BracketedPaste::new(on).enabled() == on,
        crate::modes::CursorKeys::new(on).enabled() == on,
        crate::modes::FocusReporting::new(on).enabled() == on,
        crate::modes::SyncOutput::new(on).enabled() == on,
        crate::modes::MouseSgr::new(on).enabled() == on,
        crate::modes::CursorVisible::new(on).enabled() == on,
        crate::modes::AutoWrap::new(on).enabled() == on,
        crate::modes::AltScreen::new(on).enabled() == on,
        mouse.is_on() <==> mouse != MouseTracking::Off,
{
}

} // verus!
