//! The snapshot of a pane: everything a client needs to draw it, taken at one
//! instant, and its replay as terminal output.
use crate::graphics;
use crate::graphics::{Graphic, GraphicView};
use crate::modes::ModeSet;
use crate::pane_snapshot::{Cell, CellAttrs, Color};
use crate::seqops;
use crate::sgr::Pen;
use crate::text;
use crate::text::push_decimal;
use crate::yurai;
use vstd::prelude::*;
use vstd::string::StringExecFns;

verus! {

/// A pane at one instant.
#[derive(Debug, PartialEq, Eq)]
pub struct PaneSnapshot {
    pub rows: usize,
    pub cols: usize,
    pub cells: Vec<Vec<Cell>>,
    pub cursor_row: usize,
    pub cursor_col: usize,
    pub alt_screen_active: bool,
    pub cursor_visible: bool,
    pub title: Option<String>,
    pub cursor_keys_mode: bool,
    /// Rows that rolled off the primary screen, oldest first; empty while the
    /// alternate screen is shown.
    pub scrollback: Vec<Vec<Cell>>,
    /// Combining marks, indexed by [`Cell::combining`].
    pub combining: Vec<Vec<char>>,
    pub modes: ModeSet,
    pub graphics: Vec<Graphic>,
}

/// The contents of a [`PaneSnapshot`].
#[verifier::ext_equal]
pub struct SnapshotView {
    pub rows: int,
    pub cols: int,
    pub cells: Seq<Seq<Cell>>,
    pub cursor_row: int,
    pub cursor_col: int,
    pub alt_screen_active: bool,
    pub cursor_visible: bool,
    pub title: Option<Seq<char>>,
    pub cursor_keys_mode: bool,
    pub scrollback: Seq<Seq<Cell>>,
    pub combining: Seq<Seq<char>>,
    pub modes: ModeSet,
    pub graphics: Seq<GraphicView>,
}

impl View for PaneSnapshot {
    type V = SnapshotView;

    open spec fn view(&self) -> SnapshotView {
        SnapshotView {
            rows: self.rows as int,
            cols: self.cols as int,
            cells: seqops::views(self.cells@),
            cursor_row: self.cursor_row as int,
            cursor_col: self.cursor_col as int,
            alt_screen_active: self.alt_screen_active,
            cursor_visible: self.cursor_visible,
            title: yurai::opt_text(self.title),
            cursor_keys_mode: self.cursor_keys_mode,
            scrollback: seqops::views(self.scrollback@),
            combining: seqops::views(self.combining@),
            modes: self.modes,
            graphics: graphics::graphics_view(self.graphics@),
        }
    }
}

/// Copies a list of images.
pub fn clone_graphics(v: &Vec<Graphic>) -> (r: Vec<Graphic>)
    ensures
        graphics::graphics_view(r@) == graphics::graphics_view(v@),
{
    let mut r: Vec<Graphic> = Vec::new();
    let mut i: usize = 0;
    while i < v.len()
        invariant
            i <= v@.len(),
            r@.len() == i,
            forall|j: int| 0 <= j < i ==> (#[trigger] r@[j])@ == v@[j]@,
        decreases v@.len() - i,
    {
        r.push(v[i].clone());
        i = i + 1;
    }
    assert(graphics::graphics_view(r@) =~= graphics::graphics_view(v@));
    r
}

impl Clone for PaneSnapshot {
    fn clone(&self) -> (r: PaneSnapshot)
        ensures
            r@ == self@,
    {
        PaneSnapshot {
            rows: self.rows,
            cols: self.cols,
            cells: seqops::copied_rows(&self.cells),
            cursor_row: self.cursor_row,
            cursor_col: self.cursor_col,
            alt_screen_active: self.alt_screen_active,
            cursor_visible: self.cursor_visible,
            title: yurai::clone_opt(&self.title),
            cursor_keys_mode: self.cursor_keys_mode,
            scrollback: seqops::copied_rows(&self.scrollback),
            combining: seqops::copied_rows(&self.combining),
            modes: self.modes,
            graphics: clone_graphics(&self.graphics),
        }
    }
}

/// The characters of a row of cells, one for each cell.
pub open spec fn row_chars(row: Seq<Cell>) -> Seq<char> {
    Seq::new(row.len(), |i: int| row[i].ch)
}

/// The rows as text, with a line feed between each two.
pub open spec fn screen_text(cells: Seq<Seq<Cell>>) -> Seq<char> {
    text::join(Seq::new(cells.len(), |i: int| row_chars(cells[i])), '\n')
}

/// `ESC [ row ; col H`, counted from one.
pub open spec fn move_to(row: nat, col: nat) -> Seq<char> {
    "\x1b["@ + text::decimal(row) + ";"@ + text::decimal(col) + "H"@
}

/// The SGR code of an attribute that a set holds.
#[verifier::opaque]
pub open spec fn attr_code(attrs: CellAttrs, a: CellAttrs, code: Seq<char>) -> Seq<char> {
    if attrs.contains(a) {
        code
    } else {
        Seq::empty()
    }
}

/// The SGR codes of a set of attributes.
pub open spec fn attr_codes(attrs: CellAttrs) -> Seq<char> {
    attr_code(attrs, CellAttrs::bold(), ";1"@) + attr_code(attrs, CellAttrs::dim(), ";2"@)
        + attr_code(attrs, CellAttrs::italic(), ";3"@) + attr_code(
        attrs,
        CellAttrs::underline(),
        ";4"@,
    ) + attr_code(attrs, CellAttrs::blink(), ";5"@) + attr_code(
        attrs,
        CellAttrs::inverse(),
        ";7"@,
    ) + attr_code(attrs, CellAttrs::hidden(), ";8"@) + attr_code(
        attrs,
        CellAttrs::strikethrough(),
        ";9"@,
    )
}

/// The three channels of a colour.
pub open spec fn color_chars(c: Color) -> Seq<char> {
    text::decimal(c.r as nat) + ";"@ + text::decimal(c.g as nat) + ";"@ + text::decimal(
        c.b as nat,
    )
}

/// The SGR sequence that sets the pen from any state: reset, attributes, both
/// colours.
pub open spec fn pen_chars(p: Pen) -> Seq<char> {
    "\x1b[0"@ + attr_codes(p.attrs) + ";38;2;"@ + color_chars(p.fg) + ";48;2;"@ + color_chars(
        p.bg,
    ) + "m"@
}

/// The pen that a cell was printed with.
pub open spec fn cell_pen(c: Cell) -> Pen {
    Pen { fg: c.fg, bg: c.bg, attrs: c.attrs }
}

/// The replay of the first `n` cells of a row, and the pen it leaves. A
/// continuation is not printed: its lead takes both columns.
pub open spec fn row_replay(row: Seq<Cell>, table: Seq<Seq<char>>, n: nat) -> (Seq<char>, Pen)
    decreases n,
{
    if n == 0 {
        (Seq::empty(), Pen::plain())
    } else {
        let (done, pen) = row_replay(row, table, (n - 1) as nat);
        let c = row[n - 1];
        if c.width == 0 {
            (done, pen)
        } else {
            let set = if cell_pen(c) == pen {
                done
            } else {
                done + pen_chars(cell_pen(c))
            };
            (set.push(c.ch) + c.spec_marks(table), cell_pen(c))
        }
    }
}

/// The replay of the first `n` rows, each from its own first column and with
/// the pen put back after it.
pub open spec fn screen_replay(cells: Seq<Seq<Cell>>, table: Seq<Seq<char>>, n: nat) -> Seq<char>
    decreases n,
{
    if n == 0 {
        Seq::empty()
    } else {
        let (row, pen) = row_replay(cells[n - 1], table, cells[n - 1].len());
        let tail = if pen == Pen::plain() {
            Seq::empty()
        } else {
            "\x1b[0m"@
        };
        screen_replay(cells, table, (n - 1) as nat) + move_to(n, 1) + row + tail
    }
}

impl SnapshotView {
    /// The output that paints the screen on a terminal: reset, clear and home,
    /// every row, and the cursor at its place, hidden where it is hidden.
    pub open spec fn replay(self) -> Seq<char> {
        "\x1b[0m\x1b[2J\x1b[H"@ + screen_replay(self.cells, self.combining, self.cells.len())
            + move_to((self.cursor_row + 1) as nat, (self.cursor_col + 1) as nat) + if self.cursor_visible {
            Seq::empty()
        } else {
            "\x1b[?25l"@
        }
    }
}

fn push_move(out: &mut String, row: u128, col: u128)
    ensures
        final(out)@ == old(out)@ + move_to(row as nat, col as nat),
{
    out.append("\x1b[");
    push_decimal(out, row);
    out.append(";");
    push_decimal(out, col);
    out.append("H");
    assert(out@ =~= old(out)@ + move_to(row as nat, col as nat));
}

fn push_attr(out: &mut String, attrs: CellAttrs, a: CellAttrs, code: &str)
    ensures
        final(out)@ == old(out)@ + attr_code(attrs, a, code@),
{
    proof {
        reveal(attr_code);
    }
    if attrs.contains(a) {
        out.append(code);
    } else {
        assert(out@ =~= old(out)@ + Seq::<char>::empty());
    }
}

fn push_color(out: &mut String, c: Color)
    ensures
        final(out)@ == old(out)@ + color_chars(c),
{
    push_decimal(out, c.r as u128);
    out.append(";");
    push_decimal(out, c.g as u128);
    out.append(";");
    push_decimal(out, c.b as u128);
    assert(out@ =~= old(out)@ + color_chars(c));
}

fn push_attrs(out: &mut String, attrs: CellAttrs)
    ensures
        final(out)@ == old(out)@ + attr_codes(attrs),
{
    push_attr(out, attrs, CellAttrs::bold(), ";1");
    push_attr(out, attrs, CellAttrs::dim(), ";2");
    push_attr(out, attrs, CellAttrs::italic(), ";3");
    push_attr(out, attrs, CellAttrs::underline(), ";4");
    push_attr(out, attrs, CellAttrs::blink(), ";5");
    push_attr(out, attrs, CellAttrs::inverse(), ";7");
    push_attr(out, attrs, CellAttrs::hidden(), ";8");
    push_attr(out, attrs, CellAttrs::strikethrough(), ";9");
    assert(out@ =~= old(out)@ + attr_codes(attrs));
}

fn push_pen(out: &mut String, p: Pen)
    ensures
        final(out)@ == old(out)@ + pen_chars(p),
{
    out.append("\x1b[0");
    push_attrs(out, p.attrs);
    out.append(";38;2;");
    push_color(out, p.fg);
    out.append(";48;2;");
    push_color(out, p.bg);
    out.append("m");
    assert(out@ =~= old(out)@ + pen_chars(p));
}

fn push_chars(out: &mut String, chars: &Vec<char>)
    ensures
        final(out)@ == old(out)@ + chars@,
{
    let mut i: usize = 0;
    assert(out@ =~= old(out)@ + chars@.take(0));
    while i < chars.len()
        invariant
            i <= chars@.len(),
            out@ == old(out)@ + chars@.take(i as int),
        decreases chars@.len() - i,
    {
        out.push(chars[i]);
        i = i + 1;
        assert(out@ =~= old(out)@ + chars@.take(i as int));
    }
    assert(chars@.take(chars@.len() as int) =~= chars@);
}

fn push_row(out: &mut String, row: &Vec<Cell>, table: &Vec<Vec<char>>) -> (pen: Pen)
    ensures
        final(out)@ == old(out)@ + row_replay(
            row@,
            seqops::views(table@),
            row@.len(),
        ).0,
        pen == row_replay(row@, seqops::views(table@), row@.len()).1,
{
    let ghost marks = seqops::views(table@);
    let mut pen = Pen::plain();
    let mut i: usize = 0;
    assert(out@ =~= old(out)@ + row_replay(row@, marks, 0).0);
    while i < row.len()
        invariant
            i <= row@.len(),
            marks == seqops::views(table@),
            out@ == old(out)@ + row_replay(row@, marks, i as nat).0,
            pen == row_replay(row@, marks, i as nat).1,
        decreases row@.len() - i,
    {
        let c = row[i];
        let ghost before = out@;
        if c.width != 0 {
            let own = Pen { fg: c.fg, bg: c.bg, attrs: c.attrs };
            if own != pen {
                push_pen(out, own);
                pen = own;
            }
            out.push(c.ch);
            let stacked = c.marks(table);
            push_chars(out, &stacked);
        }
        i = i + 1;
        assert(out@ =~= old(out)@ + row_replay(row@, marks, i as nat).0);
    }
    pen
}

impl PaneSnapshot {
    /// The rows as text, one character for each cell.
    pub fn to_text_rows(&self) -> (r: Vec<String>)
        ensures
            r@.len() == self@.cells.len(),
            forall|i: int| 0 <= i < r@.len() ==> (#[trigger] r@[i])@ == row_chars(self@.cells[i]),
    {
        let mut r: Vec<String> = Vec::new();
        let mut i: usize = 0;
        while i < self.cells.len()
            invariant
                i <= self.cells@.len(),
                r@.len() == i,
                forall|j: int| 0 <= j < i ==> (#[trigger] r@[j])@ == row_chars(self.cells@[j]@),
            decreases self.cells@.len() - i,
        {
            let row = &self.cells[i];
            let mut s: String = String::new();
            let mut k: usize = 0;
            while k < row.len()
                invariant
                    k <= row@.len(),
                    s@ == row_chars(row@).take(k as int),
                decreases row@.len() - k,
            {
                s.push(row[k].ch);
                k = k + 1;
                assert(s@ =~= row_chars(row@).take(k as int));
            }
            assert(s@ =~= row_chars(row@));
            r.push(s);
            i = i + 1;
        }
        r
    }

    /// The screen as text, with a line feed between each two rows.
    pub fn to_text(&self) -> (r: String)
        ensures
            r@ == screen_text(self@.cells),
    {
        let ghost rows = Seq::new(self@.cells.len(), |i: int| row_chars(self@.cells[i]));
        let mut parts: Vec<Vec<char>> = Vec::new();
        let mut i: usize = 0;
        while i < self.cells.len()
            invariant
                i <= self.cells@.len(),
                parts@.len() == i,
                forall|j: int| 0 <= j < i ==> (#[trigger] parts@[j])@ == row_chars(self.cells@[j]@),
            decreases self.cells@.len() - i,
        {
            let row = &self.cells[i];
            let mut s: Vec<char> = Vec::new();
            let mut k: usize = 0;
            while k < row.len()
                invariant
                    k <= row@.len(),
                    s@ == row_chars(row@).take(k as int),
                decreases row@.len() - k,
            {
                s.push(row[k].ch);
                k = k + 1;
                assert(s@ =~= row_chars(row@).take(k as int));
            }
            assert(s@ =~= row_chars(row@));
            parts.push(s);
            i = i + 1;
        }
        assert(seqops::views(parts@) =~= rows);
        text::string_of(&text::join_chars(&parts, '\n'))
    }

    /// The output that paints this snapshot on a terminal of its size.
    pub fn to_ansi(&self) -> (r: Vec<u8>)
        ensures
            r@ == vstd::utf8::encode_utf8(self@.replay()),
    {
        let ghost cells = self@.cells;
        let ghost table = self@.combining;
        let ghost prelude = "\x1b[0m\x1b[2J\x1b[H"@;
        let mut out: String = String::new();
        out.append("\x1b[0m\x1b[2J\x1b[H");
        assert(out@ =~= prelude + screen_replay(cells, table, 0));
        let mut i: usize = 0;
        while i < self.cells.len()
            invariant
                i <= self.cells@.len(),
                cells == self@.cells,
                table == self@.combining,
                out@ == prelude + screen_replay(cells, table, i as nat),
            decreases self.cells@.len() - i,
        {
            let ghost before = out@;
            push_move(&mut out, i as u128 + 1, 1);
            let pen = push_row(&mut out, &self.cells[i], &self.combining);
            if pen != Pen::plain() {
                out.append("\x1b[0m");
            }
            i = i + 1;
            proof {
                let (row, last) = row_replay(cells[i - 1], table, cells[i - 1].len());
                assert(out@ =~= before + move_to(i as nat, 1) + row + (if last == Pen::plain() {
                    Seq::empty()
                } else {
                    "\x1b[0m"@
                }));
                assert(out@ =~= prelude + screen_replay(cells, table, i as nat));
            }
        }
        push_move(&mut out, self.cursor_row as u128 + 1, self.cursor_col as u128 + 1);
        if !self.cursor_visible {
            out.append("\x1b[?25l");
        }
        assert(out@ =~= self@.replay());
        vstd::slice::slice_to_vec(out.as_str().as_bytes())
    }
}

} // verus!
