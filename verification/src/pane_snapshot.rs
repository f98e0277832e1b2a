//! What a client sees of a pane: cells with their colours and attributes, and
//! the snapshot that carries a whole screen.
use vstd::prelude::*;

verus! {

/// An RGB colour.
#[derive(Clone, Copy, Debug, PartialEq, Eq, Structural)]
pub struct Color {
    pub r: u8,
    pub g: u8,
    pub b: u8,
}

impl Color {
    #[verifier::allow_in_spec]
    pub fn new(r: u8, g: u8, b: u8) -> Color
        returns
            (Color { r, g, b }),
    {
        Color { r, g, b }
    }

    /// The default foreground.
    #[verifier::allow_in_spec]
    pub fn white() -> Color
        returns
            (Color { r: 255, g: 255, b: 255 }),
    {
        Color { r: 255, g: 255, b: 255 }
    }

    /// The default background.
    #[verifier::allow_in_spec]
    pub fn black() -> Color
        returns
            (Color { r: 0, g: 0, b: 0 }),
    {
        Color { r: 0, g: 0, b: 0 }
    }
}

/// A set of text attributes, one bit each.
#[derive(Clone, Copy, Debug, PartialEq, Eq, Structural)]
pub struct CellAttrs {
    pub bits: u16,
}

impl CellAttrs {
    #[verifier::allow_in_spec]
    pub fn none() -> CellAttrs
        returns
            (CellAttrs { bits: 0 }),
    {
        CellAttrs { bits: 0 }
    }

    #[verifier::allow_in_spec]
    pub fn bold() -> CellAttrs
        returns
            (CellAttrs { bits: 1 }),
    {
        CellAttrs { bits: 1 }
    }

    #[verifier::allow_in_spec]
    pub fn dim() -> CellAttrs
        returns
            (CellAttrs { bits: 2 }),
    {
        CellAttrs { bits: 2 }
    }

    #[verifier::allow_in_spec]
    pub fn italic() -> CellAttrs
        returns
            (CellAttrs { bits: 4 }),
    {
        CellAttrs { bits: 4 }
    }

    #[verifier::allow_in_spec]
    pub fn underline() -> CellAttrs
        returns
            (CellAttrs { bits: 8 }),
    {
        CellAttrs { bits: 8 }
    }

    #[verifier::allow_in_spec]
    pub fn blink() -> CellAttrs
        returns
            (CellAttrs { bits: 16 }),
    {
        CellAttrs { bits: 16 }
    }

    #[verifier::allow_in_spec]
    pub fn inverse() -> CellAttrs
        returns
            (CellAttrs { bits: 32 }),
    {
        CellAttrs { bits: 32 }
    }

    #[verifier::allow_in_spec]
    pub fn hidden() -> CellAttrs
        returns
            (CellAttrs { bits: 64 }),
    {
        CellAttrs { bits: 64 }
    }

    #[verifier::allow_in_spec]
    pub fn strikethrough() -> CellAttrs
        returns
            (CellAttrs { bits: 128 }),
    {
        CellAttrs { bits: 128 }
    }

    /// Both sets together.
    #[verifier::allow_in_spec]
    pub fn with(self, other: CellAttrs) -> CellAttrs
        returns
            (CellAttrs { bits: self.bits | other.bits }),
    {
        CellAttrs { bits: self.bits | other.bits }
    }

    /// This set without the attributes of `other`.
    #[verifier::allow_in_spec]
    pub fn without(self, other: CellAttrs) -> CellAttrs
        returns
            (CellAttrs { bits: self.bits & !other.bits }),
    {
        CellAttrs { bits: self.bits & !other.bits }
    }

    pub fn insert(&mut self, other: CellAttrs)
        ensures
            *final(self) == old(self).with(other),
    {
        *self = self.with(other);
    }

    pub fn remove(&mut self, other: CellAttrs)
        ensures
            *final(self) == old(self).without(other),
    {
        *self = self.without(other);
    }

    /// True when every attribute of `other` is in this set.
    #[verifier::allow_in_spec]
    pub fn contains(self, other: CellAttrs) -> bool
        returns
            (self.bits & other.bits == other.bits),
    {
        self.bits & other.bits == other.bits
    }

    #[verifier::allow_in_spec]
    pub fn is_empty(self) -> bool
        returns
            (self.bits == 0),
    {
        self.bits == 0
    }
}

/// An attribute that was inserted is contained, and one that was removed is
/// not; neither touches an attribute with no bit in common.
pub proof fn lemma_attrs_insert_remove(a: CellAttrs, x: CellAttrs, y: CellAttrs)
    requires
        x.bits & y.bits == 0,
    ensures
        a.with(x).contains(x),
        x.bits != 0 ==> !a.without(x).contains(x),
        a.with(x).contains(y) == a.contains(y),
        a.without(x).contains(y) == a.contains(y),
        a.with(x).without(x) == a.without(x),
{
    let (p, q, r) = (a.bits, x.bits, y.bits);
    assert((p | q) & q == q) by (bit_vector);
    assert(q != 0 ==> (p & !q) & q != q) by (bit_vector);
    assert(q & r == 0 ==> (((p | q) & r == r) == (p & r == r))) by (bit_vector);
    assert(q & r == 0 ==> (((p & !q) & r == r) == (p & r == r))) by (bit_vector);
    assert((p | q) & !q == p & !q) by (bit_vector);
}

/// One character cell.
#[derive(Clone, Copy, Debug, PartialEq, Eq, Structural)]
pub struct Cell {
    pub ch: char,
    pub fg: Color,
    pub bg: Color,
    pub attrs: CellAttrs,
    /// Display width: `1` a normal glyph, `2` the lead of a double-width
    /// glyph, `0` the continuation of one.
    pub width: u8,
    /// 1-based index into the combining-mark table; `0` means no marks.
    pub combining: u16,
}

impl Cell {
    /// A space in the default colours.
    #[verifier::allow_in_spec]
    pub fn blank() -> Cell
        returns
            (Cell {
                ch: ' ',
                fg: Color { r: 255, g: 255, b: 255 },
                bg: Color { r: 0, g: 0, b: 0 },
                attrs: CellAttrs { bits: 0 },
                width: 1,
                combining: 0,
            }),
    {
        Cell {
            ch: ' ',
            fg: Color { r: 255, g: 255, b: 255 },
            bg: Color { r: 0, g: 0, b: 0 },
            attrs: CellAttrs { bits: 0 },
            width: 1,
            combining: 0,
        }
    }

    /// True of the second half of a double-width glyph.
    #[verifier::allow_in_spec]
    pub fn is_continuation(self) -> bool
        returns
            (self.width == 0),
    {
        self.width == 0
    }

    /// The marks of this cell in a mark table.
    pub open spec fn spec_marks(self, table: Seq<Seq<char>>) -> Seq<char> {
        if 1 <= self.combining <= table.len() {
            table[self.combining - 1]
        } else {
            Seq::empty()
        }
    }

    /// The combining marks stacked on this cell, looked up in `table`.
    pub fn marks(self, table: &Vec<Vec<char>>) -> (r: Vec<char>)
        ensures
            r@ == self.spec_marks(crate::seqops::views(table@)),
    {
        if self.combining >= 1 && self.combining as usize <= table.len() {
            crate::seqops::copied(&table[self.combining as usize - 1])
        } else {
            Vec::new()
        }
    }
}

/// The eight standard terminal colours.
pub open spec fn spec_ansi_colors() -> Seq<Color> {
    seq![
        Color { r: 0x00, g: 0x00, b: 0x00 },
        Color { r: 0xcd, g: 0x00, b: 0x00 },
        Color { r: 0x00, g: 0xcd, b: 0x00 },
        Color { r: 0xcd, g: 0xcd, b: 0x00 },
        Color { r: 0x00, g: 0x00, b: 0xee },
        Color { r: 0xcd, g: 0x00, b: 0xcd },
        Color { r: 0x00, g: 0xcd, b: 0xcd },
        Color { r: 0xe5, g: 0xe5, b: 0xe5 },
    ]
}

/// The eight bright terminal colours.
pub open spec fn spec_ansi_bright_colors() -> Seq<Color> {
    seq![
        Color { r: 0x7f, g: 0x7f, b: 0x7f },
        Color { r: 0xff, g: 0x00, b: 0x00 },
        Color { r: 0x00, g: 0xff, b: 0x00 },
        Color { r: 0xff, g: 0xff, b: 0x00 },
        Color { r: 0x5c, g: 0x5c, b: 0xff },
        Color { r: 0xff, g: 0x00, b: 0xff },
        Color { r: 0x00, g: 0xff, b: 0xff },
        Color { r: 0xff, g: 0xff, b: 0xff },
    ]
}

pub fn ansi_colors() -> (r: Vec<Color>)
    ensures
        r@ == spec_ansi_colors(),
{
    let r = vec![
        Color { r: 0x00, g: 0x00, b: 0x00 },
        Color { r: 0xcd, g: 0x00, b: 0x00 },
        Color { r: 0x00, g: 0xcd, b: 0x00 },
        Color { r: 0xcd, g: 0xcd, b: 0x00 },
        Color { r: 0x00, g: 0x00, b: 0xee },
        Color { r: 0xcd, g: 0x00, b: 0xcd },
        Color { r: 0x00, g: 0xcd, b: 0xcd },
        Color { r: 0xe5, g: 0xe5, b: 0xe5 },
    ];
    assert(r@ =~= spec_ansi_colors());
    r
}

pub fn ansi_bright_colors() -> (r: Vec<Color>)
    ensures
        r@ == spec_ansi_bright_colors(),
{
    let r = vec![
        Color { r: 0x7f, g: 0x7f, b: 0x7f },
        Color { r: 0xff, g: 0x00, b: 0x00 },
        Color { r: 0x00, g: 0xff, b: 0x00 },
        Color { r: 0xff, g: 0xff, b: 0x00 },
        Color { r: 0x5c, g: 0x5c, b: 0xff },
        Color { r: 0xff, g: 0x00, b: 0xff },
        Color { r: 0x00, g: 0xff, b: 0xff },
        Color { r: 0xff, g: 0xff, b: 0xff },
    ];
    assert(r@ =~= spec_ansi_bright_colors());
    r
}

/// The sixteen-colour palette a fresh pane starts with: the standard colours,
/// then the bright ones.
pub fn default_ansi_palette() -> (r: Vec<Color>)
    ensures
        r@ == spec_ansi_colors() + spec_ansi_bright_colors(),
        r@.len() == 16,
{
    let mut r = ansi_colors();
    let mut bright = ansi_bright_colors();
    r.append(&mut bright);
    r
}

/// One channel of the 6x6x6 colour cube.
pub open spec fn cube_level(i: int) -> int {
    if i == 0 {
        0
    } else {
        55 + 40 * i
    }
}

/// The colour of index `n` of the 256-colour table: sixteen palette entries, a
/// 6x6x6 cube, then twenty-four greys. An index past the table is white.
pub open spec fn spec_ansi_256_color(n: u16, palette: Seq<Color>) -> Color {
    if n < 16 {
        palette[n as int]
    } else if n < 232 {
        let i = n - 16;
        Color {
            r: cube_level(i / 36) as u8,
            g: cube_level((i / 6) % 6) as u8,
            b: cube_level(i % 6) as u8,
        }
    } else if n < 256 {
        let v = (8 + (n - 232) * 10) as u8;
        Color { r: v, g: v, b: v }
    } else {
        Color::white()
    }
}

fn cube_channel(i: u16) -> (r: u8)
    requires
        i < 6,
    ensures
        r == cube_level(i as int),
{
    if i == 0 {
        0
    } else {
        (55 + 40 * i) as u8
    }
}

/// Resolves an index of the 256-colour table against `palette`.
pub fn ansi_256_color(n: u16, palette: &Vec<Color>) -> (r: Color)
    requires
        palette@.len() == 16,
    ensures
        r == spec_ansi_256_color(n, palette@),
{
    if n < 16 {
        palette[n as usize]
    } else if n < 232 {
        let i: u16 = n - 16;
        Color { r: cube_channel(i / 36), g: cube_channel((i / 6) % 6), b: cube_channel(i % 6) }
    } else if n < 256 {
        let v: u8 = (8 + (n - 232) * 10) as u8;
        Color { r: v, g: v, b: v }
    } else {
        Color::white()
    }
}

} // verus!
