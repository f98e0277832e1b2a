//! The pen of a terminal, and the SGR sequences that set it.
//!
//! An extended colour has two spellings. `38;2;r;g;b` is five parameters;
//! `38:2:cs:r:g:b` is one parameter with six sub-parameters. So parameters are
//! walked one by one, and one that carries sub-parameters stands for itself.
use crate::pane_snapshot;
use crate::pane_snapshot::{ansi_256_color, CellAttrs, Color};
use crate::seqops;
use vstd::prelude::*;

verus! {

/// What a newly printed cell inherits.
#[derive(Clone, Copy, Debug, PartialEq, Eq, Structural)]
pub struct Pen {
    pub fg: Color,
    pub bg: Color,
    pub attrs: CellAttrs,
}

/// The low byte of a parameter, as a colour channel.
#[verifier::allow_in_spec]
pub fn channel(x: u16) -> u8
    returns
        ((x % 256) as u8),
{
    (x % 256) as u8
}

/// The first sub-parameter of parameter `i`, where there is one.
pub open spec fn first_of(items: Seq<Seq<u16>>, i: int) -> Option<u16> {
    if 0 <= i < items.len() && items[i].len() > 0 {
        Some(items[i][0])
    } else {
        None
    }
}

/// The colour that follows a 38, 48 or 58 in its semicolon spelling, and how
/// many parameters the directive takes in all.
pub open spec fn extended_color(items: Seq<Seq<u16>>, palette: Seq<Color>) -> (Option<Color>, int) {
    match first_of(items, 1) {
        Some(5) => match first_of(items, 2) {
            Some(n) => (Some(pane_snapshot::spec_ansi_256_color(n, palette)), 3),
            None => (None, 2),
        },
        Some(2) => match (first_of(items, 2), first_of(items, 3), first_of(items, 4)) {
            (Some(r), Some(g), Some(b)) => (
                Some(Color { r: channel(r), g: channel(g), b: channel(b) }),
                5,
            ),
            _ => (None, seqops::imin(items.len() as int, 5)),
        },
        _ => (None, 1),
    }
}

/// The colour of a 38, 48 or 58 that carries its own sub-parameters. The colour
/// space of the six-slot form is skipped.
pub open spec fn sub_color(param: Seq<u16>, palette: Seq<Color>) -> Option<Color> {
    if param[1] == 5 {
        if param.len() > 2 {
            Some(pane_snapshot::spec_ansi_256_color(param[2], palette))
        } else {
            None
        }
    } else if param[1] == 2 {
        if param.len() >= 6 {
            Some(Color { r: channel(param[3]), g: channel(param[4]), b: channel(param[5]) })
        } else if param.len() == 5 {
            Some(Color { r: channel(param[2]), g: channel(param[3]), b: channel(param[4]) })
        } else {
            None
        }
    } else {
        None
    }
}

impl Pen {
    /// White on black, no attributes.
    #[verifier::allow_in_spec]
    pub fn plain() -> Pen
        returns
            (Pen {
                fg: Color { r: 255, g: 255, b: 255 },
                bg: Color { r: 0, g: 0, b: 0 },
                attrs: CellAttrs { bits: 0 },
            }),
    {
        Pen {
            fg: Color { r: 255, g: 255, b: 255 },
            bg: Color { r: 0, g: 0, b: 0 },
            attrs: CellAttrs { bits: 0 },
        }
    }

    pub open spec fn adds(self, a: CellAttrs) -> Pen {
        Pen { attrs: self.attrs.with(a), ..self }
    }

    pub open spec fn drops(self, a: CellAttrs) -> Pen {
        Pen { attrs: self.attrs.without(a), ..self }
    }

    /// What a single SGR code does to the pen.
    pub open spec fn code(self, p: u16, palette: Seq<Color>) -> Pen {
        if p == 0 {
            Pen::plain()
        } else if p == 1 {
            self.adds(CellAttrs::bold())
        } else if p == 2 {
            self.adds(CellAttrs::dim())
        } else if p == 3 {
            self.adds(CellAttrs::italic())
        } else if p == 4 {
            self.adds(CellAttrs::underline())
        } else if p == 5 || p == 6 {
            self.adds(CellAttrs::blink())
        } else if p == 7 {
            self.adds(CellAttrs::inverse())
        } else if p == 8 {
            self.adds(CellAttrs::hidden())
        } else if p == 9 {
            self.adds(CellAttrs::strikethrough())
        } else if p == 21 || p == 22 {
            self.drops(CellAttrs::bold()).drops(CellAttrs::dim())
        } else if p == 23 {
            self.drops(CellAttrs::italic())
        } else if p == 24 {
            self.drops(CellAttrs::underline())
        } else if p == 25 {
            self.drops(CellAttrs::blink())
        } else if p == 27 {
            self.drops(CellAttrs::inverse())
        } else if p == 28 {
            self.drops(CellAttrs::hidden())
        } else if p == 29 {
            self.drops(CellAttrs::strikethrough())
        } else if 30 <= p <= 37 {
            Pen { fg: palette[p - 30], ..self }
        } else if p == 39 {
            Pen { fg: Color::white(), ..self }
        } else if 40 <= p <= 47 {
            Pen { bg: palette[p - 40], ..self }
        } else if p == 49 {
            Pen { bg: Color::black(), ..self }
        } else if 90 <= p <= 97 {
            Pen { fg: palette[p - 82], ..self }
        } else if 100 <= p <= 107 {
            Pen { bg: palette[p - 92], ..self }
        } else {
            self
        }
    }

    /// The pen with an extended colour: 38 sets the foreground, 48 the
    /// background, and 58 (underline colour) nothing.
    pub open spec fn extended(self, code: u16, colour: Option<Color>) -> Pen {
        match colour {
            Some(c) => if code == 38 {
                Pen { fg: c, ..self }
            } else if code == 48 {
                Pen { bg: c, ..self }
            } else {
                self
            },
            None => self,
        }
    }

    /// What a parameter with sub-parameters does to the pen.
    pub open spec fn sub(self, param: Seq<u16>, palette: Seq<Color>) -> Pen {
        if param[0] == 4 {
            if param[1] == 0 {
                self.drops(CellAttrs::underline())
            } else {
                self.adds(CellAttrs::underline())
            }
        } else if param[0] == 38 || param[0] == 48 || param[0] == 58 {
            self.extended(param[0], sub_color(param, palette))
        } else {
            self.code(param[0], palette)
        }
    }

    /// The pen after the parameters `items`, from the first on.
    pub open spec fn walk(self, items: Seq<Seq<u16>>, palette: Seq<Color>) -> Pen
        decreases items.len(),
    {
        if items.len() == 0 {
            self
        } else {
            let param = items[0];
            if param.len() == 0 {
                self.walk(items.skip(1), palette)
            } else if param.len() > 1 {
                self.sub(param, palette).walk(items.skip(1), palette)
            } else if param[0] == 38 || param[0] == 48 || param[0] == 58 {
                let (colour, taken) = extended_color(items, palette);
                if 1 <= taken <= items.len() {
                    self.extended(param[0], colour).walk(items.skip(taken), palette)
                } else {
                    self
                }
            } else {
                self.code(param[0], palette).walk(items.skip(1), palette)
            }
        }
    }

    /// What an SGR sequence does to the pen; one without parameters resets it.
    pub open spec fn sgr(self, items: Seq<Seq<u16>>, palette: Seq<Color>) -> Pen {
        if items.len() == 0 {
            Pen::plain()
        } else {
            self.walk(items, palette)
        }
    }

    /// Applies a whole SGR sequence.
    pub fn apply_sgr(&mut self, items: &Vec<Vec<u16>>, palette: &Vec<Color>)
        requires
            palette@.len() == 16,
        ensures
            *final(self) == old(self).sgr(seqops::views(items@), palette@),
    {
        if items.len() == 0 {
            self.sgr_reset();
            return;
        }
        let ghost all = seqops::views(items@);
        let ghost start = *self;
        let mut idx: usize = 0;
        assert(all.skip(0) =~= all);
        while idx < items.len()
            invariant
                idx <= items@.len(),
                all == seqops::views(items@),
                palette@.len() == 16,
                self.walk(all.skip(idx as int), palette@) == start.walk(all, palette@),
            decreases items@.len() - idx,
        {
            let ghost rest = all.skip(idx as int);
            let param = &items[idx];
            assert(rest[0] == param@);
            assert(rest.skip(1) =~= all.skip(idx + 1));
            if param.len() == 0 {
                idx = idx + 1;
                continue;
            }
            let code: u16 = param[0];
            if param.len() > 1 {
                self.apply_sgr_subparams(param, palette);
                idx = idx + 1;
                continue;
            }
            if code == 38 || code == 48 || code == 58 {
                let (colour, taken) = parse_extended_color_params(items, idx, palette);
                self.set_extended(code, colour);
                assert(rest.skip(taken as int) =~= all.skip(idx + taken));
                idx = idx + taken;
                continue;
            }
            self.apply_sgr_code(code, palette);
            idx = idx + 1;
        }
        assert(all.skip(idx as int).len() == 0);
    }

    fn set_extended(&mut self, code: u16, colour: Option<Color>)
        ensures
            *final(self) == old(self).extended(code, colour),
    {
        match colour {
            Some(c) => {
                if code == 38 {
                    self.fg = c;
                } else if code == 48 {
                    self.bg = c;
                }
            },
            None => {},
        }
    }

    /// Applies one directive spelled with sub-parameters.
    pub fn apply_sgr_subparams(&mut self, param: &Vec<u16>, palette: &Vec<Color>)
        requires
            param@.len() > 1,
            palette@.len() == 16,
        ensures
            *final(self) == old(self).sub(param@, palette@),
    {
        let code: u16 = param[0];
        if code == 4 {
            if param[1] == 0 {
                self.attrs.remove(CellAttrs::underline());
            } else {
                self.attrs.insert(CellAttrs::underline());
            }
        } else if code == 38 || code == 48 || code == 58 {
            let kind: u16 = param[1];
            let colour = if kind == 5 {
                if param.len() > 2 {
                    Some(ansi_256_color(param[2], palette))
                } else {
                    None
                }
            } else if kind == 2 {
                if param.len() >= 6 {
                    Some(Color::new(channel(param[3]), channel(param[4]), channel(param[5])))
                } else if param.len() == 5 {
                    Some(Color::new(channel(param[2]), channel(param[3]), channel(param[4])))
                } else {
                    None
                }
            } else {
                None
            };
            self.set_extended(code, colour);
        } else {
            self.apply_sgr_code(code, palette);
        }
    }

    /// Applies one plain SGR code.
    pub fn apply_sgr_code(&mut self, p: u16, palette: &Vec<Color>)
        requires
            palette@.len() == 16,
        ensures
            *final(self) == old(self).code(p, palette@),
    {
        match p {
            0 => self.sgr_reset(),
            1 => self.attrs.insert(CellAttrs::bold()),
            2 => self.attrs.insert(CellAttrs::dim()),
            3 => self.attrs.insert(CellAttrs::italic()),
            4 => self.attrs.insert(CellAttrs::underline()),
            5 | 6 => self.attrs.insert(CellAttrs::blink()),
            7 => self.attrs.insert(CellAttrs::inverse()),
            8 => self.attrs.insert(CellAttrs::hidden()),
            9 => self.attrs.insert(CellAttrs::strikethrough()),
            21 | 22 => {
                self.attrs.remove(CellAttrs::bold());
                self.attrs.remove(CellAttrs::dim());
            },
            23 => self.attrs.remove(CellAttrs::italic()),
            24 => self.attrs.remove(CellAttrs::underline()),
            25 => self.attrs.remove(CellAttrs::blink()),
            27 => self.attrs.remove(CellAttrs::inverse()),
            28 => self.attrs.remove(CellAttrs::hidden()),
            29 => self.attrs.remove(CellAttrs::strikethrough()),
            30..=37 => {
                self.fg = palette[(p - 30) as usize];
            },
            39 => {
                self.fg = Color::white();
            },
            40..=47 => {
                self.bg = palette[(p - 40) as usize];
            },
            49 => {
                self.bg = Color::black();
            },
            90..=97 => {
                self.fg = palette[(p - 82) as usize];
            },
            100..=107 => {
                self.bg = palette[(p - 92) as usize];
            },
            _ => {},
        }
    }

    /// Resets the pen.
    pub fn sgr_reset(&mut self)
        ensures
            *final(self) == Pen::plain(),
    {
        *self = Pen::plain();
    }
}

fn first_at(items: &Vec<Vec<u16>>, i: usize) -> (r: Option<u16>)
    ensures
        r == first_of(seqops::views(items@), i as int),
{
    if i < items.len() && items[i].len() > 0 {
        Some(items[i][0])
    } else {
        None
    }
}

/// Reads the colour that follows the directive at `at`, and tells how many
/// parameters the directive takes: at least the directive itself, and never
/// more than there are.
pub fn parse_extended_color_params(items: &Vec<Vec<u16>>, at: usize, palette: &Vec<Color>) -> (r: (
    Option<Color>,
    usize,
))
    requires
        at < items@.len(),
        palette@.len() == 16,
    ensures
        r.0 == extended_color(seqops::views(items@).skip(at as int), palette@).0,
        r.1 == extended_color(seqops::views(items@).skip(at as int), palette@).1,
        1 <= r.1 <= items@.len() - at,
{
    let left: usize = items.len() - at;
    let ghost rest = seqops::views(items@).skip(at as int);
    let second = if left > 1 {
        first_at(items, at + 1)
    } else {
        None
    };
    assert(second == first_of(rest, 1));
    let third = if left > 2 {
        first_at(items, at + 2)
    } else {
        None
    };
    assert(third == first_of(rest, 2));
    match second {
        Some(5) => match third {
            Some(n) => (Some(ansi_256_color(n, palette)), 3),
            None => (None, 2),
        },
        Some(2) => {
            let fourth = if left > 3 {
                first_at(items, at + 3)
            } else {
                None
            };
            assert(fourth == first_of(rest, 3));
            let fifth = if left > 4 {
                first_at(items, at + 4)
            } else {
                None
            };
            assert(fifth == first_of(rest, 4));
            match (third, fourth, fifth) {
                (Some(r), Some(g), Some(b)) => (
                    Some(Color::new(channel(r), channel(g), channel(b))),
                    5,
                ),
                _ => (None, seqops::min_usize(left, 5)),
            }
        },
        _ => (None, 1),
    }
}

/// The two spellings of a true colour agree, with or without a colour space,
/// and neither touches an attribute.
pub proof fn lemma_truecolor_spellings_agree(
    pen: Pen,
    code: u16,
    cs: u16,
    r: u16,
    g: u16,
    b: u16,
    palette: Seq<Color>,
)
    requires
        code == 38 || code == 48 || code == 58,
    ensures
        ({
            let semicolons = seq![seq![code], seq![2u16], seq![r], seq![g], seq![b]];
            let colons = seq![seq![code, 2u16, cs, r, g, b]];
            let short = seq![seq![code, 2u16, r, g, b]];
            &&& pen.sgr(semicolons, palette) == pen.sgr(colons, palette)
            &&& pen.sgr(semicolons, palette) == pen.sgr(short, palette)
            &&& pen.sgr(semicolons, palette).attrs == pen.attrs
        }),
{
    reveal_with_fuel(Pen::walk, 2);
    let semicolons = seq![seq![code], seq![2u16], seq![r], seq![g], seq![b]];
    let colons = seq![seq![code, 2u16, cs, r, g, b]];
    let short = seq![seq![code, 2u16, r, g, b]];
    let c = Color { r: channel(r), g: channel(g), b: channel(b) };
    assert(first_of(semicolons, 1) == Some(2u16));
    assert(first_of(semicolons, 2) == Some(r));
    assert(first_of(semicolons, 3) == Some(g));
    assert(first_of(semicolons, 4) == Some(b));
    assert(extended_color(semicolons, palette) == (Some(c), 5int));
    assert(semicolons.skip(5).len() == 0);
    assert(colons.skip(1).len() == 0);
    assert(short.skip(1).len() == 0);
    assert(sub_color(colons[0], palette) == Some(c));
    assert(sub_color(short[0], palette) == Some(c));
    assert(pen.walk(semicolons, palette) == pen.extended(code, Some(c)));
    assert(pen.walk(colons, palette) == pen.extended(code, Some(c)));
    assert(pen.walk(short, palette) == pen.extended(code, Some(c)));
}

/// The two spellings of an indexed colour agree, and neither touches an
/// attribute.
pub proof fn lemma_indexed_spellings_agree(pen: Pen, code: u16, n: u16, palette: Seq<Color>)
    requires
        code == 38 || code == 48 || code == 58,
    ensures
        ({
            let semicolons = seq![seq![code], seq![5u16], seq![n]];
            let colons = seq![seq![code, 5u16, n]];
            &&& pen.sgr(semicolons, palette) == pen.sgr(colons, palette)
            &&& pen.sgr(semicolons, palette).attrs == pen.attrs
        }),
{
    reveal_with_fuel(Pen::walk, 2);
    let semicolons = seq![seq![code], seq![5u16], seq![n]];
    let colons = seq![seq![code, 5u16, n]];
    let c = pane_snapshot::spec_ansi_256_color(n, palette);
    assert(first_of(semicolons, 1) == Some(5u16));
    assert(first_of(semicolons, 2) == Some(n));
    assert(extended_color(semicolons, palette) == (Some(c), 3int));
    assert(semicolons.skip(3).len() == 0);
    assert(colons.skip(1).len() == 0);
    assert(sub_color(colons[0], palette) == Some(c));
    assert(pen.walk(semicolons, palette) == pen.extended(code, Some(c)));
    assert(pen.walk(colons, palette) == pen.extended(code, Some(c)));
}

/// The reset undoes everything: after a lone `0`, and after no parameter at
/// all, the pen is plain.
pub proof fn lemma_reset_is_plain(pen: Pen, palette: Seq<Color>)
    ensures
        pen.sgr(seq![seq![0u16]], palette) == Pen::plain(),
        pen.sgr(Seq::<Seq<u16>>::empty(), palette) == Pen::plain(),
{
    reveal_with_fuel(Pen::walk, 2);
    let items = seq![seq![0u16]];
    assert(items.skip(1).len() == 0);
    assert(items[0][0] == 0);
}

} // verus!
