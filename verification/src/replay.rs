//! What the replay of a snapshot asks of a terminal, step by step, and that a
//! terminal which takes these steps shows the screen of the snapshot.
use crate::pane_snapshot::{Cell, CellAttrs, Color};
use crate::sgr::Pen;
use crate::snapshot;
use crate::snapshot::SnapshotView;
use crate::vt::VtEventView;
use vstd::prelude::*;

verus! {

/// One step of a replay.
pub enum Step {
    /// The pen is plain again.
    Reset,
    /// The screen is blank.
    Clear,
    /// The cursor stands at the first cell.
    Home,
    /// The pen is set, whatever it was.
    SetPen(Pen),
    /// The cursor stands at a row and column, counted from one.
    MoveTo(nat, nat),
    Print(char),
    HideCursor,
}

/// The SGR parameter of an attribute that a set holds.
pub open spec fn attr_param(attrs: CellAttrs, a: CellAttrs, code: u16) -> Seq<Seq<u16>> {
    if attrs.contains(a) {
        seq![seq![code]]
    } else {
        Seq::empty()
    }
}

/// The SGR parameters of a colour after 38 or 48.
pub open spec fn color_params(plane: u16, c: Color) -> Seq<Seq<u16>> {
    seq![seq![plane], seq![2u16], seq![c.r as u16], seq![c.g as u16], seq![c.b as u16]]
}

/// The SGR parameters that set a pen: reset, attributes, both colours.
pub open spec fn pen_params(p: Pen) -> Seq<Seq<u16>> {
    seq![seq![0u16]] + (attr_param(p.attrs, CellAttrs::bold(), 1) + (attr_param(
        p.attrs,
        CellAttrs::dim(),
        2,
    ) + (attr_param(p.attrs, CellAttrs::italic(), 3) + (attr_param(
        p.attrs,
        CellAttrs::underline(),
        4,
    ) + (attr_param(p.attrs, CellAttrs::blink(), 5) + (attr_param(
        p.attrs,
        CellAttrs::inverse(),
        7,
    ) + (attr_param(p.attrs, CellAttrs::hidden(), 8) + (attr_param(
        p.attrs,
        CellAttrs::strikethrough(),
        9,
    ) + (color_params(38, p.fg) + color_params(48, p.bg))))))))))
}

impl Step {
    /// The characters that spell a step.
    pub open spec fn chars(self) -> Seq<char> {
        match self {
            Step::Reset => "\x1b[0m"@,
            Step::Clear => "\x1b[2J"@,
            Step::Home => "\x1b[H"@,
            Step::SetPen(p) => snapshot::pen_chars(p),
            Step::MoveTo(row, col) => snapshot::move_to(row, col),
            Step::Print(c) => seq![c],
            Step::HideCursor => "\x1b[?25l"@,
        }
    }

    /// The event that a terminal takes a step for.
    pub open spec fn event(self) -> VtEventView {
        let none = Seq::<u8>::empty();
        match self {
            Step::Reset => VtEventView::Csi {
                params: seq![seq![0u16]],
                intermediates: none,
                action: 'm',
            },
            Step::Clear => VtEventView::Csi {
                params: seq![seq![2u16]],
                intermediates: none,
                action: 'J',
            },
            Step::Home => VtEventView::Csi {
                params: seq![seq![0u16]],
                intermediates: none,
                action: 'H',
            },
            Step::SetPen(p) => VtEventView::Csi {
                params: pen_params(p),
                intermediates: none,
                action: 'm',
            },
            Step::MoveTo(row, col) => VtEventView::Csi {
                params: seq![seq![row as u16], seq![col as u16]],
                intermediates: none,
                action: 'H',
            },
            Step::Print(c) => VtEventView::Print(c),
            Step::HideCursor => VtEventView::Csi {
                params: seq![seq![25u16]],
                intermediates: seq![0x3fu8],
                action: 'l',
            },
        }
    }
}

/// The characters that spell a list of steps.
pub open spec fn spelled(steps: Seq<Step>) -> Seq<char>
    decreases steps.len(),
{
    if steps.len() == 0 {
        Seq::empty()
    } else {
        spelled(steps.drop_last()) + steps.last().chars()
    }
}

/// The events that a terminal takes a list of steps for.
pub open spec fn events(steps: Seq<Step>) -> Seq<VtEventView> {
    Seq::new(steps.len(), |i: int| steps[i].event())
}

/// One print for each character.
pub open spec fn printed(chars: Seq<char>) -> Seq<Step>
    decreases chars.len(),
{
    if chars.len() == 0 {
        Seq::empty()
    } else {
        printed(chars.drop_last()).push(Step::Print(chars.last()))
    }
}

/// The steps for one cell under a pen.
pub open spec fn cell_steps(c: Cell, table: Seq<Seq<char>>, pen: Pen) -> Seq<Step> {
    if c.width == 0 {
        Seq::empty()
    } else {
        let set = if snapshot::cell_pen(c) == pen {
            Seq::empty()
        } else {
            seq![Step::SetPen(snapshot::cell_pen(c))]
        };
        set.push(Step::Print(c.ch)) + printed(c.spec_marks(table))
    }
}

/// The pen after the steps for one cell.
pub open spec fn cell_leaves(c: Cell, pen: Pen) -> Pen {
    if c.width == 0 {
        pen
    } else {
        snapshot::cell_pen(c)
    }
}

/// The steps for the first `n` cells of a row, and the pen they leave.
pub open spec fn row_steps(row: Seq<Cell>, table: Seq<Seq<char>>, n: nat) -> (Seq<Step>, Pen)
    decreases n,
{
    if n == 0 {
        (Seq::empty(), Pen::plain())
    } else {
        let (done, pen) = row_steps(row, table, (n - 1) as nat);
        (done + cell_steps(row[n - 1], table, pen), cell_leaves(row[n - 1], pen))
    }
}

/// The steps that come after a row.
pub open spec fn row_tail(pen: Pen) -> Seq<Step> {
    if pen == Pen::plain() {
        Seq::empty()
    } else {
        seq![Step::Reset]
    }
}

/// The steps for the first `n` rows.
pub open spec fn screen_steps(cells: Seq<Seq<Cell>>, table: Seq<Seq<char>>, n: nat) -> Seq<Step>
    decreases n,
{
    if n == 0 {
        Seq::empty()
    } else {
        let (row, pen) = row_steps(cells[n - 1], table, cells[n - 1].len());
        screen_steps(cells, table, (n - 1) as nat) + seq![Step::MoveTo(n, 1)] + row + row_tail(pen)
    }
}

/// The steps that come first: plain pen, blank screen, first cell.
pub open spec fn opening() -> Seq<Step> {
    seq![Step::Reset, Step::Clear, Step::Home]
}

/// The steps that come last: the cursor at its place, hidden where it is.
pub open spec fn closing(s: SnapshotView) -> Seq<Step> {
    let place = Step::MoveTo((s.cursor_row + 1) as nat, (s.cursor_col + 1) as nat);
    if s.cursor_visible {
        seq![place]
    } else {
        seq![place, Step::HideCursor]
    }
}

/// The steps of a whole replay.
pub open spec fn replay_steps(s: SnapshotView) -> Seq<Step> {
    opening() + screen_steps(s.cells, s.combining, s.cells.len()) + closing(s)
}

proof fn lemma_spelled_append(a: Seq<Step>, b: Seq<Step>)
    ensures
        spelled(a + b) == spelled(a) + spelled(b),
    decreases b.len(),
{
    if b.len() == 0 {
        assert(a + b =~= a);
        assert(spelled(a) + spelled(b) =~= spelled(a));
    } else {
        lemma_spelled_append(a, b.drop_last());
        assert((a + b).drop_last() =~= a + b.drop_last());
        assert((a + b).last() == b.last());
        assert(spelled(a + b) =~= spelled(a) + spelled(b));
    }
}

proof fn lemma_spelled_one(s: Step)
    ensures
        spelled(seq![s]) == s.chars(),
{
    assert(seq![s].drop_last() =~= Seq::<Step>::empty());
    assert(spelled(Seq::<Step>::empty()) =~= Seq::<char>::empty());
    assert(spelled(seq![s]) =~= s.chars());
}

pub proof fn lemma_printed_one_more(rest: Seq<char>, c: char)
    ensures
        printed(rest.push(c)) == printed(rest).push(Step::Print(c)),
        printed(rest.push(c)).drop_last() == printed(rest),
        printed(rest.push(c)).last() == Step::Print(c),
        printed(rest.push(c)).len() > 0,
{
    assert(rest.push(c).drop_last() =~= rest);
    assert(rest.push(c).last() == c);
    assert(printed(rest).push(Step::Print(c)).drop_last() =~= printed(rest));
}

proof fn lemma_spelled_prints(chars: Seq<char>)
    ensures
        spelled(printed(chars)) == chars,
    decreases chars.len(),
{
    if chars.len() == 0 {
        assert(spelled(printed(chars)) =~= chars);
    } else {
        let rest = chars.drop_last();
        lemma_spelled_prints(rest);
        assert(chars =~= rest.push(chars.last()));
        lemma_printed_one_more(rest, chars.last());
        assert(spelled(printed(chars)) =~= chars);
    }
}

proof fn lemma_row_is_spelled(row: Seq<Cell>, table: Seq<Seq<char>>, n: nat)
    requires
        n <= row.len(),
    ensures
        spelled(row_steps(row, table, n).0) == snapshot::row_replay(row, table, n).0,
        row_steps(row, table, n).1 == snapshot::row_replay(row, table, n).1,
    decreases n,
{
    if n > 0 {
        lemma_row_is_spelled(row, table, (n - 1) as nat);
        let (done, pen) = row_steps(row, table, (n - 1) as nat);
        let c = row[n - 1];
        lemma_spelled_append(done, cell_steps(c, table, pen));
        if c.width == 0 {
            assert(spelled(done) + spelled(Seq::<Step>::empty()) =~= spelled(done));
        } else {
            let own = snapshot::cell_pen(c);
            let set = if own == pen {
                Seq::<Step>::empty()
            } else {
                seq![Step::SetPen(own)]
            };
            let marks = c.spec_marks(table);
            lemma_spelled_append(set.push(Step::Print(c.ch)), printed(marks));
            lemma_spelled_append(set, seq![Step::Print(c.ch)]);
            assert(set.push(Step::Print(c.ch)) =~= set + seq![Step::Print(c.ch)]);
            lemma_spelled_one(Step::Print(c.ch));
            lemma_spelled_one(Step::SetPen(own));
            lemma_spelled_prints(marks);
            assert(spelled(row_steps(row, table, n).0) =~= snapshot::row_replay(row, table, n).0);
        }
    }
}

proof fn lemma_screen_is_spelled(cells: Seq<Seq<Cell>>, table: Seq<Seq<char>>, n: nat)
    requires
        n <= cells.len(),
    ensures
        spelled(screen_steps(cells, table, n)) == snapshot::screen_replay(cells, table, n),
    decreases n,
{
    if n > 0 {
        lemma_screen_is_spelled(cells, table, (n - 1) as nat);
        let line = cells[n - 1];
        lemma_row_is_spelled(line, table, line.len());
        let (row, pen) = row_steps(line, table, line.len());
        let before = screen_steps(cells, table, (n - 1) as nat);
        let place = seq![Step::MoveTo(n, 1)];
        lemma_spelled_append(before + place + row, row_tail(pen));
        lemma_spelled_append(before + place, row);
        lemma_spelled_append(before, place);
        lemma_spelled_one(Step::MoveTo(n, 1));
        lemma_spelled_one(Step::Reset);
        assert(spelled(screen_steps(cells, table, n)) =~= snapshot::screen_replay(cells, table, n));
    }
}

/// The replay of a snapshot is its steps, spelled one after the other.
pub proof fn lemma_replay_spells_its_steps(s: SnapshotView)
    ensures
        spelled(replay_steps(s)) == s.replay(),
{
    let screen = screen_steps(s.cells, s.combining, s.cells.len());
    lemma_screen_is_spelled(s.cells, s.combining, s.cells.len());
    lemma_spelled_append(opening() + screen, closing(s));
    lemma_spelled_append(opening(), screen);
    let place = Step::MoveTo((s.cursor_row + 1) as nat, (s.cursor_col + 1) as nat);
    lemma_spelled_one(place);
    lemma_spelled_one(Step::HideCursor);
    lemma_spelled_append(seq![place], seq![Step::HideCursor]);
    assert(seq![place] + seq![Step::HideCursor] =~= seq![place, Step::HideCursor]);
    assert(spelled(opening()) =~= "\x1b[0m\x1b[2J\x1b[H"@) by {
        lemma_spelled_one(Step::Reset);
        lemma_spelled_one(Step::Clear);
        lemma_spelled_one(Step::Home);
        lemma_spelled_append(seq![Step::Reset], seq![Step::Clear]);
        lemma_spelled_append(seq![Step::Reset] + seq![Step::Clear], seq![Step::Home]);
        assert(seq![Step::Reset] + seq![Step::Clear] + seq![Step::Home] =~= opening());
        reveal_strlit("\x1b[0m");
        reveal_strlit("\x1b[2J");
        reveal_strlit("\x1b[H");
        reveal_strlit("\x1b[0m\x1b[2J\x1b[H");
    }
    assert(spelled(replay_steps(s)) =~= s.replay());
}

} // verus!
