//! Where the panes of a window stand, and which tree arranges them in a named
//! way. The share of a split is a number that only the caller computes with: it
//! tells how many cells a share comes to, and which bits a share has.
use crate::id::PaneId;
use crate::layout;
use crate::layout::{Direction, LayoutKind, LayoutNode, Rect, SplitOrientation};
use vstd::prelude::*;

verus! {

/// The cell at column `x` and row `y` lies in a rectangle.
pub open spec fn holds(r: Rect, x: int, y: int) -> bool {
    r.x <= x < r.x + r.w && r.y <= y < r.y + r.h
}

/// The length of a rectangle across a divider.
pub open spec fn span(r: Rect, o: SplitOrientation) -> u16 {
    if o is Vertical {
        r.w
    } else {
        r.h
    }
}

/// The two parts of a rectangle, the first of which takes `cells`.
pub open spec fn parts(r: Rect, o: SplitOrientation, cells: u16) -> (Rect, Rect) {
    if o is Vertical {
        (
            Rect { w: cells, ..r },
            Rect { x: (r.x + cells) as u16, w: (r.w - cells) as u16, ..r },
        )
    } else {
        (
            Rect { h: cells, ..r },
            Rect { y: (r.y + cells) as u16, h: (r.h - cells) as u16, ..r },
        )
    }
}

/// The rectangle does not reach beyond what can be counted.
pub open spec fn in_bounds(r: Rect) -> bool {
    r.x + r.w <= u16::MAX && r.y + r.h <= u16::MAX
}

/// No more cells than there are.
pub open spec fn at_most(cells: u16, limit: u16) -> u16 {
    if cells <= limit {
        cells
    } else {
        limit
    }
}

/// `out` gives the panes of a tree their places in an area, where `cut` tells of
/// every split how many of its cells the first part takes.
pub open spec fn placed<F: Fn(u16, u32) -> u16>(
    tree: LayoutNode,
    area: Rect,
    cut: F,
    out: Seq<(PaneId, Rect)>,
) -> bool
    decreases tree,
{
    match tree {
        LayoutNode::Leaf(p) => out == seq![(p, area)],
        LayoutNode::Split { orientation, ratio, first, second } => {
            exists|cells: u16, n: int|
                {
                    let (a, b) = parts(
                        area,
                        orientation,
                        at_most(cells, span(area, orientation)),
                    );
                    &&& #[trigger] call_ensures(cut, (span(area, orientation), ratio), cells)
                    &&& 0 <= n <= out.len()
                    &&& placed(*first, a, cut, #[trigger] out.take(n))
                    &&& placed(*second, b, cut, out.skip(n))
                }
        },
    }
}

/// The rectangles cover an area: each lies in it, and each of its cells lies in
/// exactly one.
pub open spec fn tiles(out: Seq<(PaneId, Rect)>, area: Rect) -> bool {
    &&& forall|i: int, x: int, y: int|
        0 <= i < out.len() && #[trigger] holds(out[i].1, x, y) ==> holds(area, x, y)
    &&& forall|x: int, y: int| #[trigger]
        holds(area, x, y) ==> exists|i: int| 0 <= i < out.len() && #[trigger] holds(out[i].1, x, y)
    &&& forall|i: int, j: int, x: int, y: int|
        0 <= i < j < out.len() && #[trigger] holds(out[i].1, x, y) ==> !(#[trigger] holds(
            out[j].1,
            x,
            y,
        ))
}

/// The panes of a list of places.
pub open spec fn pane_list(out: Seq<(PaneId, Rect)>) -> Seq<u64> {
    Seq::new(out.len(), |i: int| out[i].0.0)
}

proof fn lemma_parts_tile(r: Rect, o: SplitOrientation, cells: u16)
    requires
        in_bounds(r),
        cells <= span(r, o),
    ensures
        ({
            let (a, b) = parts(r, o, cells);
            &&& in_bounds(a)
            &&& in_bounds(b)
            &&& forall|x: int, y: int| #[trigger]
                holds(r, x, y) <==> (holds(a, x, y) || holds(b, x, y))
            &&& forall|x: int, y: int| #[trigger] holds(a, x, y) ==> !holds(b, x, y)
        }),
{
}

proof fn lemma_tiles_join(
    area: Rect,
    a: Rect,
    b: Rect,
    left: Seq<(PaneId, Rect)>,
    right: Seq<(PaneId, Rect)>,
)
    requires
        forall|x: int, y: int| #[trigger]
            holds(area, x, y) <==> (holds(a, x, y) || holds(b, x, y)),
        forall|x: int, y: int| #[trigger] holds(a, x, y) ==> !holds(b, x, y),
        tiles(left, a),
        tiles(right, b),
    ensures
        tiles(left + right, area),
{
    let out = left + right;
    assert forall|i: int, x: int, y: int|
        0 <= i < out.len() && #[trigger] holds(out[i].1, x, y) implies holds(area, x, y) by {
        if i < left.len() {
            assert(holds(left[i].1, x, y));
            assert(holds(a, x, y));
        } else {
            assert(holds(right[i - left.len()].1, x, y));
            assert(holds(b, x, y));
        }
    }
    assert forall|x: int, y: int| #[trigger] holds(area, x, y) implies exists|i: int|
        0 <= i < out.len() && #[trigger] holds(out[i].1, x, y) by {
        if holds(a, x, y) {
            let i = choose|i: int| 0 <= i < left.len() && #[trigger] holds(left[i].1, x, y);
            assert(holds(out[i].1, x, y));
        } else {
            assert(holds(b, x, y));
            let i = choose|i: int| 0 <= i < right.len() && #[trigger] holds(right[i].1, x, y);
            assert(out[left.len() + i] == right[i]);
            assert(holds(out[left.len() + i].1, x, y));
        }
    }
    assert forall|i: int, j: int, x: int, y: int|
        0 <= i < j < out.len() && #[trigger] holds(out[i].1, x, y) implies !(#[trigger] holds(
        out[j].1,
        x,
        y,
    )) by {
        if j < left.len() {
            assert(holds(left[i].1, x, y));
            assert(!holds(left[j].1, x, y));
        } else if i >= left.len() {
            assert(holds(right[i - left.len()].1, x, y));
            assert(!holds(right[j - left.len()].1, x, y));
        } else {
            assert(holds(left[i].1, x, y));
            assert(holds(a, x, y));
            if holds(out[j].1, x, y) {
                assert(holds(right[j - left.len()].1, x, y));
                assert(holds(b, x, y));
            }
        }
    }
}

/// The places of the panes of a tree in an area. Whatever `cut` tells, the panes
/// come in display order and their rectangles cover the area.
pub fn compute_rects<F: Fn(u16, u32) -> u16>(tree: &LayoutNode, area: Rect, cut: &F) -> (out: Vec<
    (PaneId, Rect),
>)
    requires
        in_bounds(area),
        forall|n: u16, share: u32| #[trigger] call_requires(*cut, (n, share)),
    ensures
        placed(*tree, area, *cut, out@),
        pane_list(out@) == tree.leaves(),
        tiles(out@, area),
    decreases tree,
{
    match tree {
        LayoutNode::Leaf(p) => {
            let mut out: Vec<(PaneId, Rect)> = Vec::new();
            out.push((*p, area));
            assert(out@ =~= seq![(*p, area)]);
            assert(pane_list(out@) =~= tree.leaves());
            proof {
                assert forall|x: int, y: int| #[trigger] holds(area, x, y) implies exists|i: int|
                    0 <= i < out@.len() && #[trigger] holds(out@[i].1, x, y) by {
                    assert(holds(out@[0].1, x, y));
                }
            }
            out
        },
        LayoutNode::Split { orientation, ratio, first, second } => {
            let whole: u16 = match orientation {
                SplitOrientation::Vertical => area.w,
                SplitOrientation::Horizontal => area.h,
            };
            let told: u16 = cut(whole, *ratio);
            let cells: u16 = if told <= whole {
                told
            } else {
                whole
            };
            let (a, b) = match orientation {
                SplitOrientation::Vertical => (
                    Rect { x: area.x, y: area.y, w: cells, h: area.h },
                    Rect { x: area.x + cells, y: area.y, w: area.w - cells, h: area.h },
                ),
                SplitOrientation::Horizontal => (
                    Rect { x: area.x, y: area.y, w: area.w, h: cells },
                    Rect { x: area.x, y: area.y + cells, w: area.w, h: area.h - cells },
                ),
            };
            proof {
                lemma_parts_tile(area, *orientation, cells);
            }
            assert((a, b) == parts(area, *orientation, cells));
            let mut out = compute_rects(&**first, a, cut);
            let mut rest = compute_rects(&**second, b, cut);
            let ghost left = out@;
            let ghost right = rest@;
            out.append(&mut rest);
            proof {
                assert(out@ =~= left + right);
                assert(out@.take(left.len() as int) =~= left);
                assert(out@.skip(left.len() as int) =~= right);
                assert(call_ensures(*cut, (span(area, *orientation), *ratio), told));
                assert(pane_list(out@) =~= pane_list(left) + pane_list(right));
                lemma_tiles_join(area, a, b, left, right);
            }
            out
        },
    }
}

// ── dividers ──

/// The share of the divider that governs a pane: that of the innermost split
/// around it whose divider stands this way.
pub open spec fn governing(tree: LayoutNode, id: PaneId, o: SplitOrientation) -> Option<u32>
    decreases tree,
{
    match tree {
        LayoutNode::Leaf(_) => None,
        LayoutNode::Split { orientation, ratio, first, second } => {
            let inner = if first.leaves().contains(id.0) {
                governing(*first, id, o)
            } else if second.leaves().contains(id.0) {
                governing(*second, id, o)
            } else {
                None
            };
            if inner is Some {
                inner
            } else if orientation == o && tree.leaves().contains(id.0) {
                Some(ratio)
            } else {
                None
            }
        },
    }
}

/// The tree with another share at the divider that governs a pane.
pub open spec fn with_share(
    tree: LayoutNode,
    id: PaneId,
    o: SplitOrientation,
    share: u32,
) -> LayoutNode
    decreases tree,
{
    match tree {
        LayoutNode::Leaf(_) => tree,
        LayoutNode::Split { orientation, ratio, first, second } => {
            if first.leaves().contains(id.0) && governing(*first, id, o) is Some {
                LayoutNode::Split {
                    orientation,
                    ratio,
                    first: Box::new(with_share(*first, id, o, share)),
                    second,
                }
            } else if !first.leaves().contains(id.0) && second.leaves().contains(id.0)
                && governing(*second, id, o) is Some {
                LayoutNode::Split {
                    orientation,
                    ratio,
                    first,
                    second: Box::new(with_share(*second, id, o, share)),
                }
            } else if orientation == o && tree.leaves().contains(id.0) {
                LayoutNode::Split { orientation, ratio: share, first, second }
            } else {
                tree
            }
        },
    }
}

proof fn lemma_either_half(t: LayoutNode, x: u64)
    requires
        t is Split,
    ensures
        t.leaves().contains(x) == (t->first.leaves().contains(x) || t->second.leaves().contains(
            x,
        )),
{
    let a = t->first.leaves();
    let b = t->second.leaves();
    if a.contains(x) {
        let i = choose|i: int| 0 <= i < a.len() && a[i] == x;
        assert((a + b)[i] == x);
    }
    if b.contains(x) {
        let i = choose|i: int| 0 <= i < b.len() && b[i] == x;
        assert((a + b)[a.len() + i] == x);
    }
    if (a + b).contains(x) {
        let i = choose|i: int| 0 <= i < (a + b).len() && (a + b)[i] == x;
        if i < a.len() {
            assert(a[i] == x);
        } else {
            assert(b[i - a.len()] == x);
        }
    }
}

/// The share of the divider that governs a pane in a direction.
pub fn divider_share(tree: &LayoutNode, id: PaneId, direction: Direction) -> (r: Option<u32>)
    ensures
        r == governing(*tree, id, direction.spec_orientation()),
    decreases tree,
{
    match tree {
        LayoutNode::Leaf(_) => None,
        LayoutNode::Split { orientation, ratio, first, second } => {
            proof {
                lemma_either_half(*tree, id.0);
            }
            let in_first = first.contains(id);
            let in_second = !in_first && second.contains(id);
            let inner = if in_first {
                divider_share(&**first, id, direction)
            } else if in_second {
                divider_share(&**second, id, direction)
            } else {
                None
            };
            match inner {
                Some(share) => Some(share),
                None => if (in_first || in_second) && *orientation == direction.orientation() {
                    Some(*ratio)
                } else {
                    None
                },
            }
        },
    }
}

/// The tree with another share at the divider that governs a pane in a
/// direction; the same tree where there is none.
pub fn with_divider(tree: LayoutNode, id: PaneId, direction: Direction, share: u32) -> (r:
    LayoutNode)
    ensures
        r == with_share(tree, id, direction.spec_orientation(), share),
    decreases tree,
{
    match tree {
        LayoutNode::Leaf(p) => LayoutNode::Leaf(p),
        LayoutNode::Split { orientation, ratio, first, second } => {
            proof {
                lemma_either_half(tree, id.0);
            }
            let in_first = first.contains(id);
            let in_second = !in_first && second.contains(id);
            if in_first && divider_share(&*first, id, direction).is_some() {
                LayoutNode::Split {
                    orientation,
                    ratio,
                    first: Box::new(with_divider(*first, id, direction, share)),
                    second,
                }
            } else if in_second && divider_share(&*second, id, direction).is_some() {
                LayoutNode::Split {
                    orientation,
                    ratio,
                    first,
                    second: Box::new(with_divider(*second, id, direction, share)),
                }
            } else if (in_first || in_second) && orientation == direction.orientation() {
                LayoutNode::Split { orientation, ratio: share, first, second }
            } else {
                LayoutNode::Split { orientation, ratio, first, second }
            }
        },
    }
}

/// Moving a divider moves no pane to another place in the order, and the divider
/// then has the share that it was given; without a divider nothing changes.
pub proof fn lemma_divider_keeps_the_panes(
    tree: LayoutNode,
    id: PaneId,
    o: SplitOrientation,
    share: u32,
)
    ensures
        with_share(tree, id, o, share).leaves() == tree.leaves(),
        governing(tree, id, o) is Some ==> governing(with_share(tree, id, o, share), id, o)
            == Some(share),
        governing(tree, id, o) is None ==> with_share(tree, id, o, share) == tree,
    decreases tree,
{
    match tree {
        LayoutNode::Leaf(_) => {},
        LayoutNode::Split { orientation, ratio, first, second } => {
            lemma_either_half(tree, id.0);
            lemma_divider_keeps_the_panes(*first, id, o, share);
            lemma_divider_keeps_the_panes(*second, id, o, share);
            lemma_either_half(with_share(tree, id, o, share), id.0);
        },
    }
}

// ── named arrangements ──

/// Panes one after the other, each with the same share: `shares[n]` is one
/// `n`th.
pub open spec fn even(o: SplitOrientation, panes: Seq<PaneId>, shares: Seq<u32>) -> LayoutNode
    decreases panes.len(),
{
    if panes.len() <= 1 {
        LayoutNode::Leaf(panes[0])
    } else {
        LayoutNode::Split {
            orientation: o,
            ratio: shares[panes.len() as int],
            first: Box::new(LayoutNode::Leaf(panes[0])),
            second: Box::new(even(o, panes.drop_first(), shares)),
        }
    }
}

/// One pane with half of the window, and the others beside it.
pub open spec fn main_first(
    main: SplitOrientation,
    rest: SplitOrientation,
    panes: Seq<PaneId>,
    shares: Seq<u32>,
) -> LayoutNode {
    if panes.len() <= 1 {
        LayoutNode::Leaf(panes[0])
    } else {
        LayoutNode::Split {
            orientation: main,
            ratio: shares[2],
            first: Box::new(LayoutNode::Leaf(panes[0])),
            second: Box::new(even(rest, panes.drop_first(), shares)),
        }
    }
}

/// How many lines `n` panes make, `columns` to a line.
pub open spec fn line_count(n: nat, columns: nat) -> nat
    recommends
        columns > 0,
{
    ((n + columns - 1) / columns as int) as nat
}

/// Lines of `columns` panes, one above the other, each with the same share.
pub open spec fn grid_of(columns: nat, panes: Seq<PaneId>, shares: Seq<u32>) -> LayoutNode
    decreases panes.len(),
{
    if columns == 0 || panes.len() <= columns {
        even(SplitOrientation::Vertical, panes, shares)
    } else {
        LayoutNode::Split {
            orientation: SplitOrientation::Horizontal,
            ratio: shares[line_count(panes.len(), columns) as int],
            first: Box::new(
                even(SplitOrientation::Vertical, panes.take(columns as int), shares),
            ),
            second: Box::new(grid_of(columns, panes.skip(columns as int), shares)),
        }
    }
}

/// The least number whose square is not under `n`, counted from `c` on.
pub open spec fn side(n: nat, c: nat) -> nat
    decreases n - c,
{
    if c * c >= n || c >= n {
        c
    } else {
        side(n, c + 1)
    }
}

/// The tree of a named arrangement.
pub open spec fn named(kind: LayoutKind, panes: Seq<PaneId>, shares: Seq<u32>) -> Option<LayoutNode> {
    if panes.len() == 0 {
        None
    } else {
        match kind {
            LayoutKind::EvenHorizontal => Some(even(SplitOrientation::Vertical, panes, shares)),
            LayoutKind::EvenVertical => Some(even(SplitOrientation::Horizontal, panes, shares)),
            LayoutKind::MainHorizontal => Some(
                main_first(
                    SplitOrientation::Horizontal,
                    SplitOrientation::Vertical,
                    panes,
                    shares,
                ),
            ),
            LayoutKind::MainVertical => Some(
                main_first(
                    SplitOrientation::Vertical,
                    SplitOrientation::Horizontal,
                    panes,
                    shares,
                ),
            ),
            LayoutKind::Tiled => Some(grid_of(side(panes.len(), 1), panes, shares)),
            LayoutKind::Custom => None,
        }
    }
}

/// Panes `from..to` one after the other, each with the same share.
fn even_row(
    orientation: SplitOrientation,
    panes: &Vec<PaneId>,
    from: usize,
    to: usize,
    shares: &Vec<u32>,
) -> (r: LayoutNode)
    requires
        from < to <= panes@.len(),
        panes@.len() < shares@.len(),
    ensures
        r == even(orientation, panes@.subrange(from as int, to as int), shares@),
    decreases to - from,
{
    let ghost part = panes@.subrange(from as int, to as int);
    assert(part[0] == panes@[from as int]);
    if to - from == 1 {
        LayoutNode::Leaf(panes[from])
    } else {
        assert(part.drop_first() =~= panes@.subrange(from as int + 1, to as int));
        LayoutNode::Split {
            orientation,
            ratio: shares[to - from],
            first: Box::new(LayoutNode::Leaf(panes[from])),
            second: Box::new(even_row(orientation, panes, from + 1, to, shares)),
        }
    }
}

fn main_and_rest(
    main: SplitOrientation,
    rest: SplitOrientation,
    panes: &Vec<PaneId>,
    shares: &Vec<u32>,
) -> (r: LayoutNode)
    requires
        0 < panes@.len() < shares@.len(),
    ensures
        r == main_first(main, rest, panes@, shares@),
{
    if panes.len() == 1 {
        LayoutNode::Leaf(panes[0])
    } else {
        assert(panes@.subrange(1, panes@.len() as int) =~= panes@.drop_first());
        LayoutNode::Split {
            orientation: main,
            ratio: shares[2],
            first: Box::new(LayoutNode::Leaf(panes[0])),
            second: Box::new(even_row(rest, panes, 1, panes.len(), shares)),
        }
    }
}

proof fn lemma_line_count(n: nat, columns: nat)
    requires
        0 < columns < n,
    ensures
        line_count(n, columns) <= n,
        line_count(n, columns) == line_count((n - columns) as nat, columns) + 1,
{
    let c = columns as int;
    vstd::arithmetic::div_mod::lemma_div_plus_one(n - c + c - 1, c);
    assert((n + c - 1) / c == (n - 1) / c + 1) by {
        assert(n + c - 1 == c + (n - 1));
    }
    vstd::arithmetic::div_mod::lemma_div_is_ordered_by_denominator(n - 1, 1, c);
    vstd::arithmetic::div_mod::lemma_div_basics(n - 1);
}

fn grid_rows(
    columns: usize,
    panes: &Vec<PaneId>,
    from: usize,
    shares: &Vec<u32>,
) -> (r: LayoutNode)
    requires
        0 < columns <= panes@.len(),
        from < panes@.len(),
        panes@.len() < shares@.len(),
    ensures
        r == grid_of(columns as nat, panes@.skip(from as int), shares@),
    decreases panes@.len() - from,
{
    let n: usize = panes.len();
    let ghost part = panes@.skip(from as int);
    if n - from <= columns {
        assert(part =~= panes@.subrange(from as int, n as int));
        even_row(SplitOrientation::Vertical, panes, from, n, shares)
    } else {
        let left: usize = n - from;
        let lines: usize = (left - 1) / columns + 1;
        proof {
            lemma_line_count(left as nat, columns as nat);
            let c = columns as int;
            vstd::arithmetic::div_mod::lemma_div_plus_one(left - 1, c);
            assert(lines == line_count(left as nat, columns as nat));
            assert(part.take(c) =~= panes@.subrange(from as int, from + c));
            assert(part.skip(c) =~= panes@.skip(from + c));
        }
        LayoutNode::Split {
            orientation: SplitOrientation::Horizontal,
            ratio: shares[lines],
            first: Box::new(
                even_row(SplitOrientation::Vertical, panes, from, from + columns, shares),
            ),
            second: Box::new(grid_rows(columns, panes, from + columns, shares)),
        }
    }
}

fn grid_side(n: usize) -> (c: usize)
    requires
        0 < n,
    ensures
        c == side(n as nat, 1),
        0 < c <= n,
{
    let mut c: usize = 1;
    while c < n && c < (n - 1) / c + 1
        invariant
            0 < c <= n,
            side(n as nat, 1) == side(n as nat, c as nat),
        decreases n - c,
    {
        proof {
            lemma_square_is_under(n as int, c as int);
        }
        c = c + 1;
    }
    proof {
        if c < n {
            lemma_square_is_under(n as int, c as int);
        }
    }
    c
}

proof fn lemma_square_is_under(n: int, c: int)
    requires
        0 < c < n,
    ensures
        c < (n - 1) / c + 1 <==> c * c < n,
{
    let q = (n - 1) / c;
    vstd::arithmetic::div_mod::lemma_fundamental_div_mod(n - 1, c);
    let m = (n - 1) % c;
    assert(0 <= m < c);
    if c <= q {
        assert(c * c <= c * q) by (nonlinear_arith)
            requires
                0 < c <= q,
        ;
    } else {
        assert(c * q <= c * (c - 1)) by (nonlinear_arith)
            requires
                0 < c,
                q <= c - 1,
        ;
        assert(c * (c - 1) == c * c - c) by (nonlinear_arith);
    }
}

/// The tree that arranges panes in a named way; none for a layout without an
/// arrangement of its own, nor for no panes. `shares[n]` is one `n`th.
pub fn from_kind(kind: LayoutKind, panes: &Vec<PaneId>, shares: &Vec<u32>) -> (r: Option<LayoutNode>)
    requires
        panes@.len() < shares@.len(),
    ensures
        r == named(kind, panes@, shares@),
{
    let n: usize = panes.len();
    if n == 0 {
        return None;
    }
    assert(panes@.subrange(0, n as int) =~= panes@);
    assert(panes@.skip(0) =~= panes@);
    match kind {
        LayoutKind::EvenHorizontal => Some(
            even_row(SplitOrientation::Vertical, panes, 0, n, shares),
        ),
        LayoutKind::EvenVertical => Some(
            even_row(SplitOrientation::Horizontal, panes, 0, n, shares),
        ),
        LayoutKind::MainHorizontal => Some(
            main_and_rest(
                SplitOrientation::Horizontal,
                SplitOrientation::Vertical,
                panes,
                shares,
            ),
        ),
        LayoutKind::MainVertical => Some(
            main_and_rest(
                SplitOrientation::Vertical,
                SplitOrientation::Horizontal,
                panes,
                shares,
            ),
        ),
        LayoutKind::Tiled => {
            let columns: usize = grid_side(n);
            Some(grid_rows(columns, panes, 0, shares))
        },
        LayoutKind::Custom => None,
    }
}

proof fn lemma_even_shows_all(o: SplitOrientation, panes: Seq<PaneId>, shares: Seq<u32>)
    requires
        panes.len() > 0,
    ensures
        even(o, panes, shares).leaves() == layout::pane_numbers(panes),
    decreases panes.len(),
{
    if panes.len() == 1 {
        assert(even(o, panes, shares).leaves() =~= layout::pane_numbers(panes));
    } else {
        let rest = panes.drop_first();
        lemma_even_shows_all(o, rest, shares);
        let head = LayoutNode::Leaf(panes[0]);
        assert(head.leaves() =~= seq![panes[0].0]);
        assert(even(o, panes, shares).leaves() =~= layout::pane_numbers(panes));
    }
}

proof fn lemma_grid_shows_all(columns: nat, panes: Seq<PaneId>, shares: Seq<u32>)
    requires
        panes.len() > 0,
    ensures
        grid_of(columns, panes, shares).leaves() == layout::pane_numbers(panes),
    decreases panes.len(),
{
    if columns == 0 || panes.len() <= columns {
        lemma_even_shows_all(SplitOrientation::Vertical, panes, shares);
    } else {
        let c = columns as int;
        lemma_even_shows_all(SplitOrientation::Vertical, panes.take(c), shares);
        lemma_grid_shows_all(columns, panes.skip(c), shares);
        assert(grid_of(columns, panes, shares).leaves() =~= layout::pane_numbers(panes));
    }
}

/// Every named arrangement shows the panes it was given, all of them, each where
/// it stood in the order.
pub proof fn lemma_arrangement_shows_all(kind: LayoutKind, panes: Seq<PaneId>, shares: Seq<u32>)
    ensures
        named(kind, panes, shares) is Some <==> panes.len() > 0 && kind != LayoutKind::Custom,
        named(kind, panes, shares) is Some ==> named(kind, panes, shares)->0.leaves()
            == layout::pane_numbers(panes),
{
    if panes.len() > 0 {
        lemma_even_shows_all(SplitOrientation::Vertical, panes, shares);
        lemma_even_shows_all(SplitOrientation::Horizontal, panes, shares);
        lemma_grid_shows_all(side(panes.len(), 1), panes, shares);
        if panes.len() > 1 {
            let rest = panes.drop_first();
            lemma_even_shows_all(SplitOrientation::Vertical, rest, shares);
            lemma_even_shows_all(SplitOrientation::Horizontal, rest, shares);
            let head = LayoutNode::Leaf(panes[0]);
            assert(head.leaves() =~= seq![panes[0].0]);
            assert(seq![panes[0].0] + layout::pane_numbers(rest) =~= layout::pane_numbers(panes));
        } else {
            assert(LayoutNode::Leaf(panes[0]).leaves() =~= layout::pane_numbers(panes));
        }
    }
}

} // verus!
