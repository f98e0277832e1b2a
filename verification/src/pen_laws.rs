//! What each SGR code does to the pen, and through it to what is printed.
use crate::csi_laws::{ordinary, sequence};
use crate::grid_model::GridView;
use crate::pane_snapshot;
use crate::pane_snapshot::{CellAttrs, Color};
use crate::sgr;
use crate::sgr::Pen;
use vstd::prelude::*;

verus! {

/// The attribute that an SGR code switches on: bold, dim, italic, underline, blink
/// (two speeds), inverse, hidden, strikethrough. Each is one bit.
pub open spec fn switched_on(p: u16) -> u16 {
    if p == 1 {
        1
    } else if p == 2 {
        2
    } else if p == 3 {
        4
    } else if p == 4 {
        8
    } else if p == 5 || p == 6 {
        16
    } else if p == 7 {
        32
    } else if p == 8 {
        64
    } else if p == 9 {
        128
    } else {
        0
    }
}

/// The attributes that an SGR code switches off; bold and dim go together.
pub open spec fn switched_off(p: u16) -> u16 {
    if p == 21 || p == 22 {
        3
    } else if p == 23 {
        4
    } else if p == 24 {
        8
    } else if p == 25 {
        16
    } else if p == 27 {
        32
    } else if p == 28 {
        64
    } else if p == 29 {
        128
    } else {
        0
    }
}

/// An SGR sequence of one plain code.
pub open spec fn one_code(p: u16) -> Seq<Seq<u16>> {
    seq![seq![p]]
}

proof fn lemma_one_code_is_walked(pen: Pen, p: u16, palette: Seq<Color>)
    requires
        p != 38 && p != 48 && p != 58,
    ensures
        pen.sgr(one_code(p), palette) == pen.code(p, palette),
{
    reveal_with_fuel(Pen::walk, 2);
    let items = one_code(p);
    assert(items[0] == seq![p]);
    assert(items[0][0] == p);
    assert(items.skip(1).len() == 0);
}

/// An SGR sequence changes nothing of a pane but its pen, and the pen by the
/// codes and the palette alone: not even a deferred wrap is dropped.
pub proof fn lemma_sgr_changes_only_the_pen(
    v: GridView,
    params: Seq<Seq<u16>>,
    intermediates: Seq<u8>,
    now: u64,
)
    requires
        ordinary(intermediates, 'm'),
    ensures
        v.perform(sequence(params, intermediates, 'm'), now) == (GridView {
            pen: v.pen.sgr(params, v.palette),
            ..v
        }),
{
    assert(v.perform(sequence(params, intermediates, 'm'), now) == v.standard_csi(params, 'm')) by {
        reveal(GridView::perform);
        reveal(GridView::csi);
    }
    reveal(GridView::standard_csi);
}

/// The colour codes: 30 to 37 take the foreground from the first half of the
/// palette and 90 to 97 from the second, 40 to 47 and 100 to 107 the background;
/// 39 makes the foreground white and 49 the background black. No other plain code
/// but the reset touches a colour.
pub proof fn lemma_colour_codes(pen: Pen, p: u16, palette: Seq<Color>)
    requires
        p != 38 && p != 48 && p != 58,
    ensures
        ({
            let after = pen.sgr(one_code(p), palette);
            &&& after.fg == if p == 0 || p == 39 {
                (Color { r: 255, g: 255, b: 255 })
            } else if 30 <= p <= 37 {
                palette[p - 30]
            } else if 90 <= p <= 97 {
                palette[p - 90 + 8]
            } else {
                pen.fg
            }
            &&& after.bg == if p == 0 || p == 49 {
                (Color { r: 0, g: 0, b: 0 })
            } else if 40 <= p <= 47 {
                palette[p - 40]
            } else if 100 <= p <= 107 {
                palette[p - 100 + 8]
            } else {
                pen.bg
            }
        }),
{
    lemma_one_code_is_walked(pen, p, palette);
}

/// The attribute codes: 1 to 9 switch one attribute on, 21 to 29 switch attributes
/// off, and no other plain code but the reset touches one.
pub proof fn lemma_attribute_codes(pen: Pen, p: u16, palette: Seq<Color>)
    requires
        p != 38 && p != 48 && p != 58,
    ensures
        ({
            let after = pen.sgr(one_code(p), palette);
            &&& p == 0 ==> after.attrs.bits == 0
            &&& p != 0 ==> after.attrs.bits == (pen.attrs.bits | switched_on(p)) & !switched_off(p)
        }),
{
    lemma_one_code_is_walked(pen, p, palette);
    let a = pen.attrs.bits;
    assert((a | 0) & !0u16 == a) by (bit_vector);
    assert((a | 1) & !0u16 == a | 1) by (bit_vector);
    assert((a | 2) & !0u16 == a | 2) by (bit_vector);
    assert((a | 4) & !0u16 == a | 4) by (bit_vector);
    assert((a | 8) & !0u16 == a | 8) by (bit_vector);
    assert((a | 16) & !0u16 == a | 16) by (bit_vector);
    assert((a | 32) & !0u16 == a | 32) by (bit_vector);
    assert((a | 64) & !0u16 == a | 64) by (bit_vector);
    assert((a | 128) & !0u16 == a | 128) by (bit_vector);
    assert(a | 0 == a) by (bit_vector);
    assert((a & !1u16) & !2u16 == a & !3u16) by (bit_vector);
}

/// An extended colour, by index or by its channels, is the foreground after 38 and
/// the background after 48; after 58 it colours nothing. The other colour and the
/// attributes stay.
pub proof fn lemma_extended_colours(
    pen: Pen,
    code: u16,
    n: u16,
    r: u16,
    g: u16,
    b: u16,
    palette: Seq<Color>,
)
    requires
        code == 38 || code == 48 || code == 58,
    ensures
        ({
            let by_index = pen.sgr(seq![seq![code], seq![5u16], seq![n]], palette);
            let by_channels = pen.sgr(
                seq![seq![code], seq![2u16], seq![r], seq![g], seq![b]],
                palette,
            );
            let index = pane_snapshot::spec_ansi_256_color(n, palette);
            let channels = Color { r: (r % 256) as u8, g: (g % 256) as u8, b: (b % 256) as u8 };
            &&& by_index == (Pen {
                fg: if code == 38 {
                    index
                } else {
                    pen.fg
                },
                bg: if code == 48 {
                    index
                } else {
                    pen.bg
                },
                attrs: pen.attrs,
            })
            &&& by_channels == (Pen {
                fg: if code == 38 {
                    channels
                } else {
                    pen.fg
                },
                bg: if code == 48 {
                    channels
                } else {
                    pen.bg
                },
                attrs: pen.attrs,
            })
        }),
{
    reveal_with_fuel(Pen::walk, 2);
    let one = seq![seq![code], seq![5u16], seq![n]];
    let two = seq![seq![code], seq![2u16], seq![r], seq![g], seq![b]];
    assert(one[0][0] == code);
    assert(two[0][0] == code);
    assert(sgr::first_of(one, 1) == Some(5u16));
    assert(sgr::first_of(one, 2) == Some(n));
    assert(sgr::first_of(two, 1) == Some(2u16));
    assert(sgr::first_of(two, 2) == Some(r));
    assert(sgr::first_of(two, 3) == Some(g));
    assert(sgr::first_of(two, 4) == Some(b));
    assert(one.skip(3).len() == 0);
    assert(two.skip(5).len() == 0);
}

/// The pen with a colour that a code sets: 38 that of letters, 48 that of the
/// background, 58 neither.
pub open spec fn coloured(pen: Pen, code: u16, c: Color) -> Pen {
    Pen {
        fg: if code == 38 {
            c
        } else {
            pen.fg
        },
        bg: if code == 48 {
            c
        } else {
            pen.bg
        },
        attrs: pen.attrs,
    }
}

/// A colour that is written in one parameter with its parts: by its number in the
/// table, or by its three channels, before which the number of a colour space may
/// stand and counts for nothing. One that is not complete changes nothing.
pub proof fn lemma_colours_in_one_parameter(
    pen: Pen,
    code: u16,
    n: u16,
    space: u16,
    r: u16,
    g: u16,
    b: u16,
    palette: Seq<Color>,
)
    requires
        code == 38 || code == 48 || code == 58,
    ensures
        ({
            let channels = Color { r: (r % 256) as u8, g: (g % 256) as u8, b: (b % 256) as u8 };
            &&& pen.sgr(seq![seq![code, 5u16, n]], palette) == coloured(
                pen,
                code,
                pane_snapshot::spec_ansi_256_color(n, palette),
            )
            &&& pen.sgr(seq![seq![code, 2u16, r, g, b]], palette) == coloured(pen, code, channels)
            &&& pen.sgr(seq![seq![code, 2u16, space, r, g, b]], palette) == coloured(
                pen,
                code,
                channels,
            )
            &&& pen.sgr(seq![seq![code, 2u16, r, g]], palette) == pen
            &&& pen.sgr(seq![seq![code, 5u16]], palette) == pen
            &&& n != 5 && n != 2 ==> pen.sgr(seq![seq![code, n, r]], palette) == pen
        }),
{
    reveal_with_fuel(Pen::walk, 2);
    lemma_alone(pen, seq![code, 5u16, n], palette);
    lemma_alone(pen, seq![code, 2u16, r, g, b], palette);
    lemma_alone(pen, seq![code, 2u16, space, r, g, b], palette);
    lemma_alone(pen, seq![code, 2u16, r, g], palette);
    lemma_alone(pen, seq![code, 5u16], palette);
    lemma_alone(pen, seq![code, n, r], palette);
}

proof fn lemma_alone(pen: Pen, param: Seq<u16>, palette: Seq<Color>)
    requires
        param.len() > 1,
    ensures
        pen.sgr(seq![param], palette) == pen.sub(param, palette),
{
    reveal_with_fuel(Pen::walk, 2);
    let items = seq![param];
    assert(items[0] == param);
    assert(items.skip(1).len() == 0);
}

/// What follows a parameter is read as if it stood alone: behind a parameter with
/// parts, behind a colour in three or in five parameters, and behind the start of a
/// colour that is none.
pub proof fn lemma_what_follows_is_read_on(
    pen: Pen,
    param: Seq<u16>,
    code: u16,
    n: u16,
    r: u16,
    g: u16,
    b: u16,
    rest: Seq<Seq<u16>>,
    palette: Seq<Color>,
)
    requires
        code == 38 || code == 48 || code == 58,
        param.len() > 1,
        rest.len() > 0,
    ensures
        pen.sgr(seq![param] + rest, palette) == pen.sgr(seq![param], palette).sgr(rest, palette),
        ({
            let by_index = seq![seq![code], seq![5u16], seq![n]];
            let by_channels = seq![seq![code], seq![2u16], seq![r], seq![g], seq![b]];
            &&& pen.sgr(by_index + rest, palette) == pen.sgr(by_index, palette).sgr(rest, palette)
            &&& pen.sgr(by_channels + rest, palette) == pen.sgr(by_channels, palette).sgr(
                rest,
                palette,
            )
        }),
        rest[0].len() > 0 && rest[0][0] != 5 && rest[0][0] != 2 ==> pen.sgr(
            seq![seq![code]] + rest,
            palette,
        ) == pen.sgr(rest, palette),
{
    lemma_alone(pen, param, palette);
    let a = seq![param] + rest;
    assert(a[0] == param);
    assert(a.skip(1) =~= rest);
    lemma_extended_colours(pen, code, n, r, g, b, palette);
    let one = seq![seq![code], seq![5u16], seq![n]] + rest;
    let two = seq![seq![code], seq![2u16], seq![r], seq![g], seq![b]] + rest;
    assert(one[0] == seq![code] && one[1] == seq![5u16] && one[2] == seq![n]);
    assert(two[0] == seq![code] && two[1] == seq![2u16] && two[2] == seq![r] && two[3] == seq![g]
        && two[4] == seq![b]);
    assert(sgr::first_of(one, 1) == Some(5u16));
    assert(sgr::first_of(one, 2) == Some(n));
    assert(sgr::first_of(two, 1) == Some(2u16));
    assert(sgr::first_of(two, 2) == Some(r));
    assert(sgr::first_of(two, 3) == Some(g));
    assert(sgr::first_of(two, 4) == Some(b));
    assert(one.skip(3) =~= rest);
    assert(two.skip(5) =~= rest);
    assert(one[0][0] == code && two[0][0] == code);
    let three = seq![seq![code]] + rest;
    assert(three[0] == seq![code] && three[0][0] == code);
    assert(three[1] == rest[0]);
    assert(three.skip(1) =~= rest);
}

/// A colour that is not complete changes nothing, and a code with parts that mean
/// nothing to it is the code.
pub proof fn lemma_what_is_not_complete(
    pen: Pen,
    code: u16,
    r: u16,
    g: u16,
    p: u16,
    x: u16,
    palette: Seq<Color>,
)
    requires
        code == 38 || code == 48 || code == 58,
        p != 4 && p != 38 && p != 48 && p != 58,
    ensures
        pen.sgr(seq![seq![code]], palette) == pen,
        pen.sgr(seq![seq![code], seq![5u16]], palette) == pen,
        pen.sgr(seq![seq![code], seq![2u16], seq![r], seq![g]], palette) == pen,
        pen.sgr(seq![seq![p, x]], palette) == pen.sgr(seq![seq![p]], palette),
{
    reveal_with_fuel(Pen::walk, 2);
    let a = seq![seq![code]];
    let b = seq![seq![code], seq![5u16]];
    let c = seq![seq![code], seq![2u16], seq![r], seq![g]];
    assert(a[0][0] == code && b[0][0] == code && c[0][0] == code);
    assert(sgr::first_of(b, 1) == Some(5u16));
    assert(sgr::first_of(b, 2) is None);
    assert(sgr::first_of(c, 1) == Some(2u16));
    assert(sgr::first_of(c, 4) is None);
    assert(a.skip(1).len() == 0);
    assert(b.skip(2).len() == 0);
    assert(c.skip(4).len() == 0);
    lemma_alone(pen, seq![p, x], palette);
    assert(seq![p, x][0] == p);
    let d = seq![seq![p]];
    assert(d[0][0] == p);
    assert(d.skip(1).len() == 0);
}

/// The 256-colour table: the palette, then a cube whose three levels run from dark
/// to bright with red the slowest and blue the fastest, then greys from dark to
/// bright, ten apart.
pub proof fn lemma_the_colour_table(palette: Seq<Color>, n: u16, red: int, green: int, blue: int)
    requires
        0 <= red < 6,
        0 <= green < 6,
        0 <= blue < 6,
    ensures
        n < 16 ==> pane_snapshot::spec_ansi_256_color(n, palette) == palette[n as int],
        ({
            let c = pane_snapshot::spec_ansi_256_color(
                (16 + 36 * red + 6 * green + blue) as u16,
                palette,
            );
            &&& c.r == seq![0int, 95, 135, 175, 215, 255][red]
            &&& c.g == seq![0int, 95, 135, 175, 215, 255][green]
            &&& c.b == seq![0int, 95, 135, 175, 215, 255][blue]
        }),
        232 <= n < 256 ==> {
            let c = pane_snapshot::spec_ansi_256_color(n, palette);
            c.r == 8 + 10 * (n - 232) && c.g == c.r && c.b == c.r
        },
        n >= 256 ==> pane_snapshot::spec_ansi_256_color(n, palette) == (Color {
            r: 255,
            g: 255,
            b: 255,
        }),
{
    let i = 36 * red + 6 * green + blue;
    assert(i / 36 == red && (i / 6) % 6 == green && i % 6 == blue) by (nonlinear_arith)
        requires
            i == 36 * red + 6 * green + blue,
            0 <= red < 6,
            0 <= green < 6,
            0 <= blue < 6,
    ;
    assert(0 <= i < 216);
    let s = seq![0int, 95, 135, 175, 215, 255];
    assert forall|k: int| 0 <= k < 6 implies #[trigger] s[k] == pane_snapshot::cube_level(k) by {
        assert(k == 0 || k == 1 || k == 2 || k == 3 || k == 4 || k == 5);
    }
}

/// The palette of a fresh pane: black, red, green, yellow, blue, magenta, cyan and
/// white, first muted and then bright.
pub proof fn lemma_the_palette_of_a_fresh_pane(cols: int, rows: int, cap: int)
    ensures
        ({
            let p = GridView::start(cols, rows, cap).palette;
            &&& p.len() == 16
            &&& p[0] == (Color { r: 0, g: 0, b: 0 })
            &&& p[1] == (Color { r: 205, g: 0, b: 0 })
            &&& p[2] == (Color { r: 0, g: 205, b: 0 })
            &&& p[3] == (Color { r: 205, g: 205, b: 0 })
            &&& p[4] == (Color { r: 0, g: 0, b: 238 })
            &&& p[5] == (Color { r: 205, g: 0, b: 205 })
            &&& p[6] == (Color { r: 0, g: 205, b: 205 })
            &&& p[7] == (Color { r: 229, g: 229, b: 229 })
            &&& p[8] == (Color { r: 127, g: 127, b: 127 })
            &&& p[9] == (Color { r: 255, g: 0, b: 0 })
            &&& p[10] == (Color { r: 0, g: 255, b: 0 })
            &&& p[11] == (Color { r: 255, g: 255, b: 0 })
            &&& p[12] == (Color { r: 92, g: 92, b: 255 })
            &&& p[13] == (Color { r: 255, g: 0, b: 255 })
            &&& p[14] == (Color { r: 0, g: 255, b: 255 })
            &&& p[15] == (Color { r: 255, g: 255, b: 255 })
        }),
{
}

/// The underline with its own sub-parameter: `4:0` takes it off, `4:n` puts it on,
/// and neither touches anything else.
pub proof fn lemma_underline_styles(pen: Pen, style: u16, palette: Seq<Color>)
    ensures
        pen.sgr(seq![seq![4u16, style]], palette) == (Pen {
            attrs: CellAttrs {
                bits: if style == 0 {
                    pen.attrs.bits & !8u16
                } else {
                    pen.attrs.bits | 8
                },
            },
            ..pen
        }),
{
    reveal_with_fuel(Pen::walk, 2);
    let items = seq![seq![4u16, style]];
    assert(items[0] == seq![4u16, style]);
    assert(items[0].len() == 2 && items[0][0] == 4 && items[0][1] == style);
    assert(items.skip(1).len() == 0);
}

/// A parameter stands for itself: it carries its own sub-parameters, or is no
/// directive that takes the parameters behind it.
pub open spec fn stands_alone(param: Seq<u16>) -> bool {
    param.len() == 0 || param.len() > 1 || (param[0] != 38 && param[0] != 48 && param[0] != 58)
}

/// Codes are applied one after the other: a sequence whose parameters each stand
/// for themselves does what its first parameter does, and then what the rest do.
pub proof fn lemma_codes_are_applied_in_order(
    pen: Pen,
    first: Seq<u16>,
    rest: Seq<Seq<u16>>,
    palette: Seq<Color>,
)
    requires
        stands_alone(first),
        rest.len() > 0,
    ensures
        pen.sgr(seq![first] + rest, palette) == pen.sgr(seq![first], palette).sgr(rest, palette),
{
    reveal_with_fuel(Pen::walk, 2);
    let all = seq![first] + rest;
    assert(all[0] == first);
    assert(all.skip(1) =~= rest);
    assert(seq![first][0] == first);
    assert(seq![first].skip(1).len() == 0);
}

} // verus!
