//! What a pane's screen is, and what each terminal event does to it.
//!
//! [`GridView`] is the screen as mathematical values. Each of its spec methods
//! gives the screen after one operation; `perform` gives it after one event.
use crate::blocks::BlocksView;
use crate::graphics::{GraphicProtocol, GraphicView, GRAPHIC_PAYLOAD_MAX};
use crate::host_role::{HostRole, TearCaps};
use crate::modes::MouseTracking;
use crate::pane_snapshot::{Cell, CellAttrs, Color};
use crate::seqops;
use crate::sgr;
use crate::sgr::Pen;
use crate::text;
use crate::vt;
use crate::vt::VtEventView;
use vstd::prelude::*;

verus! {

/// A cursor position and pen put aside.
#[derive(Clone, Copy, Debug, PartialEq, Eq, Structural)]
pub struct SavedCursor {
    pub row: usize,
    pub col: usize,
    pub pen: Pen,
}

/// The contents of a pane's grid.
pub struct GridView {
    pub rows: int,
    pub cols: int,
    pub primary: Seq<Seq<Cell>>,
    pub alternate: Seq<Seq<Cell>>,
    pub alt_active: bool,
    pub scrollback: Seq<Seq<Cell>>,
    pub scrollback_cap: int,
    pub cursor_row: int,
    pub cursor_col: int,
    pub pen: Pen,
    pub saved: Option<SavedCursor>,
    pub wrap_pending: bool,
    pub scroll_top: int,
    pub scroll_bottom: int,
    pub palette: Seq<Color>,
    pub insert_mode: bool,
    pub cursor_visible: bool,
    pub cursor_keys_mode: bool,
    pub last_printed: Option<char>,
    pub role: HostRole,
    pub autowrap: bool,
    pub focus_reporting: bool,
    pub bracketed_paste: bool,
    pub sync_output: bool,
    pub mouse: MouseTracking,
    pub mouse_sgr: bool,
    pub combining: Seq<Seq<char>>,
    pub graphics: Seq<GraphicView>,
    pub sixel: Option<Seq<u8>>,
    pub response: Seq<u8>,
    pub title: Option<Seq<char>>,
    pub blocks: BlocksView,
}

/// True when every row has `cols` cells.
#[verifier::opaque]
pub open spec fn rectangular(s: Seq<Seq<Cell>>, cols: int) -> bool {
    forall|i: int| 0 <= i < s.len() ==> (#[trigger] s[i]).len() == cols
}

/// A bounded history with one more row: a full one loses its oldest row first,
/// and one of no size keeps nothing.
pub open spec fn keep_row(history: Seq<Seq<Cell>>, cap: int, row: Seq<Cell>) -> Seq<Seq<Cell>> {
    if cap <= 0 {
        history
    } else if history.len() >= cap {
        history.drop_first().push(row)
    } else {
        history.push(row)
    }
}

/// `s` with the rows of `from..to` filled.
pub open spec fn fill_rows(s: Seq<Seq<Cell>>, from: int, to: int, fill: Cell) -> Seq<Seq<Cell>> {
    Seq::new(
        s.len(),
        |i: int|
            if from <= i < to {
                seqops::repeat(fill, s[i].len())
            } else {
                s[i]
            },
    )
}

/// `s` with row `row` replaced, where there is such a row.
pub open spec fn put_row(s: Seq<Seq<Cell>>, row: int, r: Seq<Cell>) -> Seq<Seq<Cell>> {
    if 0 <= row < s.len() {
        s.update(row, r)
    } else {
        s
    }
}

/// The place of the first `b` in `s`, or the length of `s`.
pub open spec fn first_byte(s: Seq<u8>, b: u8) -> int
    decreases s.len(),
{
    if s.len() == 0 || s[0] == b {
        0
    } else {
        1 + first_byte(s.drop_first(), b)
    }
}

/// The texts of the byte strings that are well-formed UTF-8.
pub open spec fn texts(fields: Seq<Seq<u8>>) -> Seq<Seq<char>>
    decreases fields.len(),
{
    if fields.len() == 0 {
        Seq::empty()
    } else if vstd::utf8::valid_utf8(fields.last()) {
        texts(fields.drop_last()).push(vstd::utf8::decode_utf8(fields.last()))
    } else {
        texts(fields.drop_last())
    }
}

/// `n`, but at least one.
pub open spec fn at_least_one(n: int) -> int {
    if n < 1 {
        1
    } else {
        n
    }
}

/// The first number of parameter `i`, or `default` where it is missing.
pub open spec fn param_or(params: Seq<Seq<u16>>, i: int, default: int) -> int {
    match sgr::first_of(params, i) {
        Some(n) => n as int,
        None => default,
    }
}

/// True when some parameter starts with `code`.
pub open spec fn has_param(params: Seq<Seq<u16>>, code: u16) -> bool {
    exists|i: int|
        0 <= i < params.len() && (#[trigger] params[i]).len() > 0 && params[i][0] == code
}

/// `pos` within `0..=limit`.
pub open spec fn clamp(pos: int, limit: int) -> int {
    if pos < 0 {
        0
    } else if pos > limit {
        limit
    } else {
        pos
    }
}

impl GridView {
    /// A fresh pane.
    pub open spec fn start(cols: int, rows: int, cap: int) -> GridView {
        GridView {
            rows,
            cols,
            primary: seqops::repeat(seqops::repeat(Cell::blank(), cols as nat), rows as nat),
            alternate: seqops::repeat(seqops::repeat(Cell::blank(), cols as nat), rows as nat),
            alt_active: false,
            scrollback: Seq::empty(),
            scrollback_cap: cap,
            cursor_row: 0,
            cursor_col: 0,
            pen: Pen::plain(),
            saved: None,
            wrap_pending: false,
            scroll_top: 0,
            scroll_bottom: if rows > 0 {
                rows - 1
            } else {
                0
            },
            palette: crate::pane_snapshot::spec_ansi_colors()
                + crate::pane_snapshot::spec_ansi_bright_colors(),
            insert_mode: false,
            cursor_visible: true,
            cursor_keys_mode: false,
            last_printed: None,
            role: HostRole::Relay,
            autowrap: true,
            focus_reporting: false,
            bracketed_paste: false,
            sync_output: false,
            mouse: MouseTracking::Off,
            mouse_sgr: false,
            combining: Seq::empty(),
            graphics: Seq::empty(),
            sixel: None,
            response: Seq::empty(),
            title: None,
            blocks: BlocksView::start(10000),
        }
    }

    /// The last row that the cursor can stand on.
    pub open spec fn last_row(self) -> int {
        if self.rows > 0 {
            self.rows - 1
        } else {
            0
        }
    }

    /// The last column that the cursor can stand on.
    pub open spec fn last_col(self) -> int {
        if self.cols > 0 {
            self.cols - 1
        } else {
            0
        }
    }

    /// The invariant of a grid: both screens are rectangles of the grid's size,
    /// the cursor and the margins lie inside, and no bound is exceeded. (A grid
    /// of no rows has no primary screen of its size to speak of.)
    pub open spec fn wf(self) -> bool {
        &&& 0 <= self.rows
        &&& 0 <= self.cols
        &&& rectangular(self.primary, self.cols)
        &&& rectangular(self.alternate, self.cols)
        &&& self.alternate.len() == self.rows
        &&& self.rows > 0 ==> self.primary.len() == self.rows
        &&& 0 <= self.cursor_row <= self.last_row()
        &&& 0 <= self.cursor_col <= self.last_col()
        &&& 0 <= self.scroll_top <= self.last_row()
        &&& 0 <= self.scroll_bottom <= self.last_row()
        &&& self.scrollback.len() <= self.scrollback_cap
        &&& self.palette.len() == 16
        &&& self.combining.len() <= 65535
    }

    /// The screen that is shown.
    pub open spec fn active(self) -> Seq<Seq<Cell>> {
        if self.alt_active {
            self.alternate
        } else {
            self.primary
        }
    }

    pub open spec fn with_active(self, s: Seq<Seq<Cell>>) -> GridView {
        if self.alt_active {
            GridView { alternate: s, ..self }
        } else {
            GridView { primary: s, ..self }
        }
    }

    /// The cell at a place of the active screen, where there is one.
    pub open spec fn cell_at(self, row: int, col: int) -> Option<Cell> {
        if 0 <= row < self.active().len() && 0 <= col < self.active()[row].len() {
            Some(self.active()[row][col])
        } else {
            None
        }
    }

    /// The grid with one cell replaced, where there is such a cell.
    #[verifier::opaque]
    pub open spec fn set_cell(self, row: int, col: int, cell: Cell) -> GridView {
        if self.cell_at(row, col) is Some {
            self.with_active(
                self.active().update(row, self.active()[row].update(col, cell)),
            )
        } else {
            self
        }
    }

    /// The grid with one row of the active screen replaced.
    pub open spec fn with_row(self, row: int, r: Seq<Cell>) -> GridView {
        self.with_active(put_row(self.active(), row, r))
    }

    /// A blank that keeps the pen's colours.
    pub open spec fn blank_cell(self) -> Cell {
        Cell {
            ch: ' ',
            fg: self.pen.fg,
            bg: self.pen.bg,
            attrs: CellAttrs { bits: 0 },
            width: 1,
            combining: 0,
        }
    }

    pub open spec fn blank_line(self) -> Seq<Cell> {
        seqops::repeat(self.blank_cell(), self.cols as nat)
    }

    /// The cell of a glyph of width `w` in the current pen.
    pub open spec fn print_cell(self, c: char, w: int) -> Cell {
        Cell {
            ch: c,
            fg: self.pen.fg,
            bg: self.pen.bg,
            attrs: self.pen.attrs,
            width: w as u8,
            combining: 0,
        }
    }

    /// The second half of a double-width glyph, in the lead's colours.
    pub open spec fn continuation_cell(self) -> Cell {
        Cell {
            ch: ' ',
            fg: self.pen.fg,
            bg: self.pen.bg,
            attrs: self.pen.attrs,
            width: 0,
            combining: 0,
        }
    }

    /// Scrolls the region up by one: the rows below its top move up, and its
    /// bottom row is blank. The top row goes to the history when the region is
    /// the whole primary screen.
    #[verifier::opaque]
    pub open spec fn scroll_region_up(self) -> GridView {
        if self.scroll_top > self.scroll_bottom {
            self
        } else if !self.alt_active && self.scroll_top == 0 && self.scroll_bottom
            == self.last_row() {
            if self.primary.len() == 0 {
                GridView { primary: seq![self.blank_line()], ..self }
            } else {
                GridView {
                    scrollback: keep_row(self.scrollback, self.scrollback_cap, self.primary[0]),
                    primary: self.primary.drop_first().push(self.blank_line()),
                    ..self
                }
            }
        } else if self.scroll_top < self.active().len() {
            self.with_active(
                seqops::close_gap(
                    self.active(),
                    self.scroll_top,
                    self.scroll_bottom + 1,
                    1,
                    self.blank_line(),
                ),
            )
        } else {
            self
        }
    }

    /// Scrolls the region up `n` times.
    pub open spec fn scroll_up(self, n: int) -> GridView
        decreases n,
    {
        if n <= 0 {
            self
        } else {
            self.scroll_up(n - 1).scroll_region_up()
        }
    }

    /// Scrolls the region down by `n`: blank rows come in at its top. Margins
    /// that stand the wrong way round take rows out between them instead.
    #[verifier::opaque]
    pub open spec fn scroll_down(self, n: int) -> GridView {
        if self.scroll_top < self.active().len() {
            if self.scroll_top <= self.scroll_bottom {
                self.with_active(
                    seqops::open_gap(
                        self.active(),
                        self.scroll_top,
                        self.scroll_bottom + 1,
                        n,
                        self.blank_line(),
                    ),
                )
            } else {
                self.with_active(
                    seqops::close_gap(
                        self.active(),
                        self.scroll_bottom + 1,
                        self.scroll_top,
                        n,
                        self.blank_line(),
                    ),
                )
            }
        } else {
            self
        }
    }

    /// One row down, scrolling at the bottom margin.
    #[verifier::opaque]
    pub open spec fn linefeed(self) -> GridView {
        if self.cursor_row == self.scroll_bottom {
            self.scroll_region_up()
        } else if self.cursor_row + 1 < self.rows {
            GridView { cursor_row: self.cursor_row + 1, ..self }
        } else {
            self
        }
    }

    /// One row up, scrolling down at the top margin.
    #[verifier::opaque]
    pub open spec fn reverse_index(self) -> GridView {
        if self.cursor_row == self.scroll_top {
            if !self.alt_active && self.primary.len() == 0 {
                GridView { primary: seq![self.blank_line()], ..self }
            } else {
                self.scroll_down(1)
            }
        } else if self.cursor_row > 0 {
            GridView { cursor_row: self.cursor_row - 1, ..self }
        } else {
            self
        }
    }

    pub open spec fn carriage_return(self) -> GridView {
        GridView { cursor_col: 0, ..self }
    }

    pub open spec fn backspace(self) -> GridView {
        if self.cursor_col > 0 {
            GridView { cursor_col: self.cursor_col - 1, ..self }
        } else {
            self
        }
    }

    /// To the next multiple of eight, or the last column.
    #[verifier::opaque]
    pub open spec fn tab_forward(self) -> GridView {
        GridView {
            cursor_col: seqops::imin((self.cursor_col / 8 + 1) * 8, self.last_col()),
            ..self
        }
    }

    #[verifier::opaque]
    pub open spec fn cursor_move(self, drow: int, dcol: int) -> GridView {
        GridView {
            cursor_row: clamp(self.cursor_row + drow, self.last_row()),
            cursor_col: clamp(self.cursor_col + dcol, self.last_col()),
            ..self
        }
    }

    #[verifier::opaque]
    pub open spec fn cursor_set(self, row: int, col: int) -> GridView {
        GridView {
            cursor_row: seqops::imin(row, self.last_row()),
            cursor_col: seqops::imin(col, self.last_col()),
            ..self
        }
    }

    /// Overwrites part of the cursor's row with blanks.
    #[verifier::opaque]
    pub open spec fn erase_in_line(self, from: int, to: int) -> GridView {
        self.with_row(
            self.cursor_row,
            seqops::fill_range(self.active()[self.cursor_row], from, to, self.blank_cell()),
        )
    }

    pub open spec fn erase_to_end_of_line(self) -> GridView {
        self.erase_in_line(self.cursor_col, self.cols)
    }

    pub open spec fn erase_from_start_of_line(self) -> GridView {
        self.erase_in_line(0, self.cursor_col + 1)
    }

    pub open spec fn erase_line(self) -> GridView {
        self.erase_in_line(0, self.cols)
    }

    #[verifier::opaque]
    pub open spec fn erase_rows(self, from: int, to: int) -> GridView {
        self.with_active(fill_rows(self.active(), from, to, self.blank_cell()))
    }

    #[verifier::opaque]
    pub open spec fn erase_below_cursor(self) -> GridView {
        self.erase_to_end_of_line().erase_rows(self.cursor_row + 1, self.rows)
    }

    #[verifier::opaque]
    pub open spec fn erase_above_cursor(self) -> GridView {
        self.erase_rows(0, self.cursor_row).erase_from_start_of_line()
    }

    pub open spec fn erase_all(self) -> GridView {
        self.erase_rows(0, self.rows)
    }

    #[verifier::opaque]
    pub open spec fn save_cursor(self) -> GridView {
        GridView {
            saved: Some(
                SavedCursor {
                    row: self.cursor_row as usize,
                    col: self.cursor_col as usize,
                    pen: self.pen,
                },
            ),
            ..self
        }
    }

    /// Back to the saved place and pen, within the present size.
    #[verifier::opaque]
    pub open spec fn restore_cursor(self) -> GridView {
        match self.saved {
            Some(s) => GridView {
                cursor_row: seqops::imin(s.row as int, self.last_row()),
                cursor_col: seqops::imin(s.col as int, self.last_col()),
                pen: s.pen,
                ..self
            },
            None => self,
        }
    }

    #[verifier::opaque]
    pub open spec fn enter_alt_screen(self, clear: bool) -> GridView {
        if clear {
            GridView {
                alt_active: true,
                alternate: fill_rows(
                    self.alternate,
                    0,
                    self.alternate.len() as int,
                    Cell::blank(),
                ),
                cursor_row: 0,
                cursor_col: 0,
                ..self
            }
        } else {
            GridView { alt_active: true, ..self }
        }
    }

    /// The alternate screen, where it is the one shown, is blank, in the pen's
    /// colours. While the primary one is shown nothing changes.
    #[verifier::opaque]
    pub open spec fn clear_alternate(self) -> GridView {
        if self.alt_active {
            GridView {
                alternate: fill_rows(
                    self.alternate,
                    0,
                    self.alternate.len() as int,
                    self.blank_cell(),
                ),
                ..self
            }
        } else {
            self
        }
    }

    pub open spec fn leave_alt_screen(self) -> GridView {
        GridView { alt_active: false, ..self }
    }

    /// The cursor parks on the last column, and the next glyph wraps first.
    pub open spec fn park_at_right_margin(self) -> GridView {
        GridView { cursor_col: self.last_col(), wrap_pending: true, ..self }
    }

    #[verifier::opaque]
    pub open spec fn advance(self, w: int) -> GridView {
        let adv = at_least_one(w);
        if self.cursor_col + adv >= self.cols {
            self.park_at_right_margin()
        } else {
            GridView { cursor_col: self.cursor_col + adv, ..self }
        }
    }

    /// Blanks the half-glyphs that writing `w` columns at a place orphans: the
    /// lead of a continuation that is overwritten, and the continuation of a
    /// lead that is.
    #[verifier::opaque]
    pub open spec fn clear_orphans(self, row: int, col: int, w: int) -> GridView {
        let left = match self.cell_at(row, col) {
            Some(cell) if col > 0 && cell.width == 0 => self.set_cell(
                row,
                col - 1,
                Cell::blank(),
            ),
            _ => self,
        };
        let last = col + at_least_one(w) - 1;
        match left.cell_at(row, last) {
            Some(cell) if cell.width == 2 && last + 1 < self.cols => left.set_cell(
                row,
                last + 1,
                Cell::blank(),
            ),
            _ => left,
        }
    }

    /// The column of the glyph that owns a place.
    pub open spec fn lead_col(self, row: int, col: int) -> int {
        match self.cell_at(row, col) {
            Some(cell) if col > 0 && cell.width == 0 => col - 1,
            _ => col,
        }
    }

    /// Attaches a mark to the glyph before the cursor. A mark with no glyph
    /// before it is dropped; so is one that the mark table has no room for.
    #[verifier::opaque]
    pub open spec fn combine(self, c: char) -> GridView {
        if !self.wrap_pending && self.cursor_col == 0 {
            self
        } else {
            let from = if self.wrap_pending {
                self.last_col()
            } else {
                self.cursor_col - 1
            };
            let row = self.cursor_row;
            let col = self.lead_col(row, from);
            if row >= self.rows || col >= self.cols {
                self
            } else {
                match self.cell_at(row, col) {
                    Some(cell) => if cell.combining == 0 {
                        if self.combining.len() + 1 > 65535 {
                            self
                        } else {
                            let next = (self.combining.len() + 1) as u16;
                            GridView {
                                combining: self.combining.push(seq![c]),
                                ..self.set_cell(row, col, Cell { combining: next, ..cell })
                            }
                        }
                    } else if cell.combining <= self.combining.len() {
                        GridView {
                            combining: self.combining.update(
                                cell.combining - 1,
                                self.combining[cell.combining - 1].push(c),
                            ),
                            ..self
                        }
                    } else {
                        self
                    },
                    None => self,
                }
            }
        }
    }

    /// A deferred wrap is carried out.
    #[verifier::opaque]
    pub open spec fn wrap_now(self) -> GridView {
        if self.wrap_pending {
            (GridView { wrap_pending: false, cursor_col: 0, ..self }).linefeed()
        } else {
            self
        }
    }

    /// A double-width glyph that does not fit before the margin goes to the
    /// next row whole.
    #[verifier::opaque]
    pub open spec fn wrap_wide(self, w: int) -> GridView {
        if w == 2 && self.cursor_col + 1 >= self.cols {
            (GridView { cursor_col: 0, ..self }).linefeed()
        } else {
            self
        }
    }

    /// The glyph stands at the cursor.
    #[verifier::opaque]
    pub open spec fn place(self, c: char, w: int) -> GridView {
        let row = self.cursor_row;
        let col = self.cursor_col;
        let cell = self.print_cell(c, w);
        if self.insert_mode {
            let r = self.active()[row];
            if 0 <= row < self.active().len() && col < r.len() {
                if w == 2 {
                    self.with_row(
                        row,
                        seqops::open_gap(
                            r,
                            col,
                            r.len() as int,
                            2,
                            self.continuation_cell(),
                        ).update(col, cell),
                    )
                } else {
                    self.with_row(row, seqops::open_gap(r, col, r.len() as int, 1, cell))
                }
            } else {
                self
            }
        } else {
            let put = self.clear_orphans(row, col, w).set_cell(row, col, cell);
            if w == 2 && col + 1 < self.cols {
                put.set_cell(row, col + 1, self.continuation_cell())
            } else {
                put
            }
        }
    }

    /// Prints a glyph of width `w`.
    #[verifier::opaque]
    pub open spec fn put_char(self, c: char, w: int) -> GridView {
        let put = self.wrap_now().wrap_wide(w).place(c, w);
        (GridView { last_printed: Some(c), ..put }).advance(w)
    }

    /// Prints a character: a mark joins the glyph before it, and anything else
    /// takes the columns it is wide.
    #[verifier::opaque]
    pub open spec fn print(self, c: char) -> GridView {
        let seen = GridView { blocks: self.blocks.print(c), ..self };
        let w = match vt::char_columns(c) {
            Some(w) => w as int,
            None => 1,
        };
        if w == 0 {
            seen.combine(c)
        } else {
            seen.put_char(c, w)
        }
    }

    pub open spec fn print_times(self, c: char, n: int) -> GridView
        decreases n,
    {
        if n <= 0 {
            self
        } else {
            self.print_times(c, n - 1).print(c)
        }
    }

    /// What a control byte does. Every one drops a deferred wrap.
    #[verifier::opaque]
    pub open spec fn execute(self, b: u8) -> GridView {
        let v = GridView { wrap_pending: false, ..self };
        if b == 0x0a {
            v.linefeed()
        } else if b == 0x0d {
            v.carriage_return()
        } else if b == 0x08 {
            v.backspace()
        } else if b == 0x09 {
            v.tab_forward()
        } else {
            v
        }
    }

    /// A reply is owed only where the pane answers queries.
    #[verifier::opaque]
    pub open spec fn answer(self, bytes: Seq<u8>) -> GridView {
        if self.role.answers_queries() {
            GridView { response: self.response + bytes, ..self }
        } else {
            self
        }
    }

    /// `ESC [ row ; col R`, counted from one.
    pub open spec fn cursor_report(self) -> Seq<u8> {
        seq![0x1bu8, 0x5b] + text::decimal_bytes((self.cursor_row + 1) as nat) + seq![0x3bu8]
            + text::decimal_bytes((self.cursor_col + 1) as nat) + seq![0x52u8]
    }

    /// Blank rows come in at the cursor's row; rows past the bottom margin stay.
    #[verifier::opaque]
    pub open spec fn insert_lines(self, n: int) -> GridView {
        if self.cursor_row < self.active().len() && self.cursor_row <= self.scroll_bottom {
            self.with_active(
                seqops::open_gap(
                    self.active(),
                    self.cursor_row,
                    self.scroll_bottom + 1,
                    n,
                    self.blank_line(),
                ),
            )
        } else {
            self
        }
    }

    /// Rows go out at the cursor's row; rows past the bottom margin stay.
    #[verifier::opaque]
    pub open spec fn delete_lines(self, n: int) -> GridView {
        if self.cursor_row < self.active().len() && self.cursor_row <= self.scroll_bottom {
            self.with_active(
                seqops::close_gap(
                    self.active(),
                    self.cursor_row,
                    self.scroll_bottom + 1,
                    n,
                    self.blank_line(),
                ),
            )
        } else {
            self
        }
    }

    #[verifier::opaque]
    pub open spec fn insert_cells(self, n: int) -> GridView {
        self.with_row(
            self.cursor_row,
            seqops::open_gap(
                self.active()[self.cursor_row],
                self.cursor_col,
                self.cols,
                n,
                self.blank_cell(),
            ),
        )
    }

    #[verifier::opaque]
    pub open spec fn delete_cells(self, n: int) -> GridView {
        self.with_row(
            self.cursor_row,
            seqops::close_gap(
                self.active()[self.cursor_row],
                self.cursor_col,
                self.cols,
                n,
                self.blank_cell(),
            ),
        )
    }

    #[verifier::opaque]
    pub open spec fn erase_cells(self, n: int) -> GridView {
        self.erase_in_line(self.cursor_col, self.cursor_col + n)
    }

    /// Sets or resets one private mode.
    #[verifier::opaque]
    pub open spec fn dec_mode(self, code: u16, set: bool) -> GridView {
        if code == 47 {
            if set {
                self.enter_alt_screen(false)
            } else {
                self.leave_alt_screen()
            }
        } else if code == 1047 {
            if set {
                self.enter_alt_screen(true)
            } else {
                self.clear_alternate().leave_alt_screen()
            }
        } else if code == 1049 {
            if set {
                self.save_cursor().enter_alt_screen(true)
            } else {
                self.clear_alternate().leave_alt_screen().restore_cursor()
            }
        } else if code == 1 {
            GridView { cursor_keys_mode: set, ..self }
        } else if code == 25 {
            GridView { cursor_visible: set, ..self }
        } else if code == 7 {
            GridView { autowrap: set, ..self }
        } else if code == 1004 {
            GridView { focus_reporting: set, ..self }
        } else if code == 2004 {
            GridView { bracketed_paste: set, ..self }
        } else if code == 2026 {
            GridView { sync_output: set, ..self }
        } else if code == 1000 || code == 1002 || code == 1003 {
            GridView {
                mouse: if !set {
                    MouseTracking::Off
                } else if code == 1000 {
                    MouseTracking::Click
                } else if code == 1002 {
                    MouseTracking::Drag
                } else {
                    MouseTracking::Motion
                },
                ..self
            }
        } else if code == 1006 {
            GridView { mouse_sgr: set, ..self }
        } else {
            self
        }
    }

    /// Sets or resets every private mode of a list, in order.
    pub open spec fn dec_modes(self, params: Seq<Seq<u16>>, set: bool) -> GridView
        decreases params.len(),
    {
        if params.len() == 0 {
            self
        } else {
            let before = self.dec_modes(params.drop_last(), set);
            if params.last().len() > 0 {
                before.dec_mode(params.last()[0], set)
            } else {
                before
            }
        }
    }

    /// Sets the margins and homes the cursor.
    #[verifier::opaque]
    pub open spec fn set_margins(self, params: Seq<Seq<u16>>) -> GridView {
        let top = at_least_one(param_or(params, 0, 1)) - 1;
        let bottom = at_least_one(param_or(params, 1, self.rows)) - 1;
        (GridView {
            scroll_top: seqops::imin(top, self.last_row()),
            scroll_bottom: seqops::imin(bottom, self.last_row()),
            ..self
        }).cursor_set(0, 0)
    }

    /// A control sequence with a private marker: only the modes and the
    /// secondary device attributes mean anything.
    #[verifier::opaque]
    pub open spec fn private_csi(
        self,
        marker: u8,
        params: Seq<Seq<u16>>,
        action: char,
    ) -> GridView {
        if marker == 0x3f && (action == 'h' || action == 'l') {
            self.dec_modes(params, action == 'h')
        } else if marker == 0x3e && action == 'c' {
            self.answer(TearCaps::spec_secondary_da())
        } else {
            self
        }
    }

    /// A control sequence without a private marker.
    #[verifier::opaque]
    pub open spec fn standard_csi(self, params: Seq<Seq<u16>>, action: char) -> GridView {
        let first = param_or(params, 0, 0);
        let n = at_least_one(first);
        if action == 'n' {
            if first == 5 {
                self.answer(TearCaps::spec_status_ok())
            } else if first == 6 {
                self.answer(self.cursor_report())
            } else {
                self
            }
        } else if action == 'c' {
            self.answer(TearCaps::spec_primary_da())
        } else if action == 'A' {
            self.cursor_move(-n, 0)
        } else if action == 'B' {
            self.cursor_move(n, 0)
        } else if action == 'C' {
            self.cursor_move(0, n)
        } else if action == 'D' {
            self.cursor_move(0, -n)
        } else if action == 'E' {
            self.carriage_return().cursor_move(n, 0)
        } else if action == 'F' {
            self.carriage_return().cursor_move(-n, 0)
        } else if action == 'G' {
            self.cursor_set(self.cursor_row, n - 1)
        } else if action == 'H' || action == 'f' {
            self.cursor_set(
                at_least_one(param_or(params, 0, 1)) - 1,
                at_least_one(param_or(params, 1, 1)) - 1,
            )
        } else if action == 'J' {
            if first == 0 {
                self.erase_below_cursor()
            } else if first == 1 {
                self.erase_above_cursor()
            } else if first == 2 || first == 3 {
                self.erase_all()
            } else {
                self
            }
        } else if action == 'K' {
            if first == 0 {
                self.erase_to_end_of_line()
            } else if first == 1 {
                self.erase_from_start_of_line()
            } else if first == 2 {
                self.erase_line()
            } else {
                self
            }
        } else if action == 'L' {
            self.insert_lines(n)
        } else if action == 'M' {
            self.delete_lines(n)
        } else if action == '@' {
            self.insert_cells(n)
        } else if action == 'P' {
            self.delete_cells(n)
        } else if action == 'X' {
            self.erase_cells(n)
        } else if action == 'b' {
            match self.last_printed {
                Some(c) => self.print_times(c, n),
                None => self,
            }
        } else if action == 'h' {
            if has_param(params, 4) {
                GridView { insert_mode: true, ..self }
            } else {
                self
            }
        } else if action == 'l' {
            if has_param(params, 4) {
                GridView { insert_mode: false, ..self }
            } else {
                self
            }
        } else if action == 'S' {
            self.scroll_up(n)
        } else if action == 'T' {
            self.scroll_down(n)
        } else if action == 'd' {
            self.cursor_set(n - 1, self.cursor_col)
        } else if action == 'm' {
            GridView { pen: self.pen.sgr(params, self.palette), ..self }
        } else if action == 'r' {
            self.set_margins(params)
        } else if action == 's' {
            self.save_cursor()
        } else if action == 'u' {
            self.restore_cursor()
        } else {
            self
        }
    }

    /// The soft reset: the cursor keys send their plain sequences again.
    pub open spec fn soft_reset(self) -> GridView {
        GridView { cursor_keys_mode: false, ..self }
    }

    /// A control sequence. Every one but SGR drops a deferred wrap, a private
    /// marker makes it a sequence of another kind, and `! p` is the soft reset.
    #[verifier::opaque]
    pub open spec fn csi(
        self,
        params: Seq<Seq<u16>>,
        intermediates: Seq<u8>,
        action: char,
    ) -> GridView {
        let v = if action == 'm' {
            self
        } else {
            GridView { wrap_pending: false, ..self }
        };
        if intermediates.len() > 0 && 0x3c <= intermediates[0] <= 0x3f {
            v.private_csi(intermediates[0], params, action)
        } else if intermediates == seq![0x21u8] && action == 'p' {
            v.soft_reset()
        } else {
            v.standard_csi(params, action)
        }
    }

    /// The reset to the initial state: the primary screen is shown and blank, and
    /// so is the alternate one where it was shown.
    #[verifier::opaque]
    pub open spec fn reset(self) -> GridView {
        let left = (GridView { pen: Pen::plain(), ..self }).clear_alternate().leave_alt_screen();
        let v = left.erase_all().cursor_set(0, 0);
        GridView {
            scroll_top: 0,
            scroll_bottom: self.last_row(),
            saved: None,
            cursor_keys_mode: false,
            cursor_visible: true,
            title: None,
            ..v
        }
    }

    /// An escape sequence. Every one that moves the cursor drops a deferred wrap.
    #[verifier::opaque]
    pub open spec fn esc(self, b: u8) -> GridView {
        let v = GridView { wrap_pending: false, ..self };
        if b == 0x37 {
            self.save_cursor()
        } else if b == 0x38 {
            v.restore_cursor()
        } else if b == 0x44 {
            v.linefeed()
        } else if b == 0x45 {
            v.linefeed().carriage_return()
        } else if b == 0x4d {
            v.reverse_index()
        } else if b == 0x63 {
            v.reset()
        } else {
            self
        }
    }

    /// An operating system command read at `now`: `0`, `1` and `2` set the
    /// title, `7` the working directory, and `133` marks a prompt.
    #[verifier::opaque]
    pub open spec fn osc(self, fields: Seq<Seq<u8>>, now: u64) -> GridView {
        if fields.len() == 0 {
            self
        } else {
            let code = fields[0];
            let has_text = fields.len() > 1 && vstd::utf8::valid_utf8(fields[1]);
            if code == seq![0x30u8] || code == seq![0x31u8] || code == seq![0x32u8] {
                if has_text {
                    GridView { title: Some(vstd::utf8::decode_utf8(fields[1])), ..self }
                } else {
                    self
                }
            } else if code == seq![0x37u8] {
                if has_text {
                    GridView {
                        blocks: self.blocks.set_cwd(vstd::utf8::decode_utf8(fields[1])),
                        ..self
                    }
                } else {
                    self
                }
            } else if code == seq![0x31u8, 0x33, 0x33] {
                let marker = text::join(texts(fields.skip(1)), ';');
                GridView { blocks: self.blocks.marker(marker, now), ..self }
            } else {
                self
            }
        }
    }

    /// An image arrives at the cursor; one past the bound is cut and says so.
    #[verifier::opaque]
    pub open spec fn push_graphic(
        self,
        protocol: GraphicProtocol,
        params: Seq<char>,
        data: Seq<u8>,
        cut: bool,
    ) -> GridView {
        GridView {
            graphics: self.graphics.push(
                GraphicView {
                    protocol,
                    params,
                    data: if data.len() > GRAPHIC_PAYLOAD_MAX {
                        data.take(GRAPHIC_PAYLOAD_MAX as int)
                    } else {
                        data
                    },
                    at_row: self.cursor_row,
                    at_col: self.cursor_col,
                    truncated: cut || data.len() > GRAPHIC_PAYLOAD_MAX,
                },
            ),
            ..self
        }
    }

    /// An application program command: a kitty image is kept, with its
    /// parameters split off at the first semicolon, and any other is dropped.
    #[verifier::opaque]
    pub open spec fn ingest_apc(self, payload: Seq<u8>, cut: bool) -> GridView {
        if payload.len() == 0 || payload[0] != 0x47 {
            self
        } else {
            let rest = payload.skip(1);
            let i = first_byte(rest, 0x3b);
            self.push_graphic(
                GraphicProtocol::Kitty,
                text::lossy_text(rest.take(i)),
                if i < rest.len() {
                    rest.skip(i + 1)
                } else {
                    Seq::empty()
                },
                cut,
            )
        }
    }

    /// Every application program command of a list, in order.
    pub open spec fn ingest_all(self, done: Seq<(Seq<u8>, bool)>) -> GridView
        decreases done.len(),
    {
        if done.len() == 0 {
            self
        } else {
            self.ingest_all(done.drop_last()).ingest_apc(done.last().0, done.last().1)
        }
    }

    #[verifier::opaque]
    pub open spec fn hook(self, action: char) -> GridView {
        if action == 'q' {
            GridView { sixel: Some(Seq::empty()), ..self }
        } else {
            self
        }
    }

    /// One byte past the bound is taken, which tells that the image is cut.
    #[verifier::opaque]
    pub open spec fn put(self, b: u8) -> GridView {
        match self.sixel {
            Some(buf) if buf.len() <= GRAPHIC_PAYLOAD_MAX => GridView {
                sixel: Some(buf.push(b)),
                ..self
            },
            _ => self,
        }
    }

    #[verifier::opaque]
    pub open spec fn unhook(self) -> GridView {
        match self.sixel {
            Some(buf) => {
                let v = GridView { sixel: None, ..self };
                if buf.len() > 0 {
                    v.push_graphic(
                        GraphicProtocol::Sixel,
                        Seq::empty(),
                        buf,
                        buf.len() > GRAPHIC_PAYLOAD_MAX,
                    )
                } else {
                    v
                }
            },
            None => self,
        }
    }

    /// What one event read at `now` does.
    #[verifier::opaque]
    pub open spec fn perform(self, ev: VtEventView, now: u64) -> GridView {
        match ev {
            VtEventView::Print(c) => self.print(c),
            VtEventView::Execute(b) => self.execute(b),
            VtEventView::Hook(c) => self.hook(c),
            VtEventView::Put(b) => self.put(b),
            VtEventView::Unhook => self.unhook(),
            VtEventView::Osc { fields } => self.osc(fields, now),
            VtEventView::Csi { params, intermediates, action } => self.csi(
                params,
                intermediates,
                action,
            ),
            VtEventView::Esc(b) => self.esc(b),
        }
    }

    /// What a list of events read at `now` does.
    pub open spec fn run(self, evs: Seq<VtEventView>, now: u64) -> GridView
        decreases evs.len(),
    {
        if evs.len() == 0 {
            self
        } else {
            self.run(evs.drop_last(), now).perform(evs.last(), now)
        }
    }

    /// Row `r` of a screen brought to a new width: cut, or padded with blanks.
    pub open spec fn resized_row(s: Seq<Seq<Cell>>, r: int, cols: int) -> Seq<Cell> {
        Seq::new(
            cols as nat,
            |c: int|
                if r < s.len() && c < s[r].len() {
                    s[r][c]
                } else {
                    Cell::blank()
                },
        )
    }

    /// A screen brought to a new size: its top left corner stays.
    pub open spec fn resized_screen(s: Seq<Seq<Cell>>, cols: int, rows: int) -> Seq<Seq<Cell>> {
        Seq::new(rows as nat, |r: int| Self::resized_row(s, r, cols))
    }

    /// The grid at a new size, with the margins at their defaults.
    #[verifier::opaque]
    pub open spec fn resize(self, cols: int, rows: int) -> GridView {
        let last_row = if rows > 0 {
            rows - 1
        } else {
            0
        };
        let last_col = if cols > 0 {
            cols - 1
        } else {
            0
        };
        GridView {
            primary: Self::resized_screen(self.primary, cols, rows),
            alternate: Self::resized_screen(self.alternate, cols, rows),
            rows,
            cols,
            cursor_row: seqops::imin(self.cursor_row, last_row),
            cursor_col: seqops::imin(self.cursor_col, last_col),
            scroll_top: 0,
            scroll_bottom: last_row,
            ..self
        }
    }
}

} // verus!
