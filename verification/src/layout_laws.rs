//! Where the panes of a window stand: beside or above each other, in what order,
//! and which divider moves.
use crate::arrange;
use crate::arrange::{in_bounds, placed};
use crate::id::PaneId;
use crate::layout::{Direction, LayoutKind, LayoutNode, Rect, SplitOrientation};
use vstd::prelude::*;

verus! {

/// One rectangle stands directly to the left of another of the same height.
pub open spec fn left_of(a: Rect, b: Rect) -> bool {
    a.x + a.w == b.x && a.y == b.y && a.h == b.h
}

/// One rectangle stands directly above another of the same width.
pub open spec fn above(a: Rect, b: Rect) -> bool {
    a.y + a.h == b.y && a.x == b.x && a.w == b.w
}

/// Two rectangles side by side fill an area.
pub open spec fn fill_across(a: Rect, b: Rect, area: Rect) -> bool {
    &&& left_of(a, b)
    &&& a.x == area.x && a.y == area.y && a.h == area.h
    &&& a.w + b.w == area.w
}

/// Two rectangles one above the other fill an area.
pub open spec fn fill_down(a: Rect, b: Rect, area: Rect) -> bool {
    &&& above(a, b)
    &&& a.x == area.x && a.y == area.y && a.w == area.w
    &&& a.h + b.h == area.h
}

proof fn lemma_two_leaves<F: Fn(u16, u32) -> u16>(
    o: SplitOrientation,
    ratio: u32,
    p: PaneId,
    q: PaneId,
    area: Rect,
    cut: F,
    out: Seq<(PaneId, Rect)>,
)
    requires
        in_bounds(area),
        placed(
            LayoutNode::Split {
                orientation: o,
                ratio,
                first: Box::new(LayoutNode::Leaf(p)),
                second: Box::new(LayoutNode::Leaf(q)),
            },
            area,
            cut,
            out,
        ),
    ensures
        out.len() == 2,
        out[0].0 == p,
        out[1].0 == q,
        o is Vertical ==> fill_across(out[0].1, out[1].1, area),
        o is Horizontal ==> fill_down(out[0].1, out[1].1, area),
{
    reveal_with_fuel(placed, 3);
    let span = arrange::span(area, o);
    let (cells, n) = choose|cells: u16, n: int|
        {
            let (a, b) = arrange::parts(area, o, arrange::at_most(cells, span));
            &&& #[trigger] call_ensures(cut, (span, ratio), cells)
            &&& 0 <= n <= out.len()
            &&& placed(LayoutNode::Leaf(p), a, cut, #[trigger] out.take(n))
            &&& placed(LayoutNode::Leaf(q), b, cut, out.skip(n))
        };
    let (a, b) = arrange::parts(area, o, arrange::at_most(cells, span));
    assert(out.take(n) == seq![(p, a)]);
    assert(out.skip(n) == seq![(q, b)]);
    assert(out.take(n).len() == 1);
    assert(out.take(n)[0] == out[0]);
    assert(out.skip(n)[0] == out[1]);
}

/// A pane that is split shares its rectangle with the new one, which stands on the
/// side that was asked for: to the right or the left of it, below or above it.
/// Both together fill what the one filled.
pub proof fn lemma_the_new_pane_stands_where_it_was_asked_for<F: Fn(u16, u32) -> u16>(
    origin: PaneId,
    added: PaneId,
    direction: Direction,
    ratio: u32,
    area: Rect,
    cut: F,
    out: Seq<(PaneId, Rect)>,
)
    requires
        in_bounds(area),
        placed(LayoutNode::Leaf(origin).split(origin, added, direction, ratio), area, cut, out),
    ensures
        out.len() == 2,
        direction is Right ==> out[0].0 == origin && out[1].0 == added && fill_across(
            out[0].1,
            out[1].1,
            area,
        ),
        direction is Left ==> out[0].0 == added && out[1].0 == origin && fill_across(
            out[0].1,
            out[1].1,
            area,
        ),
        direction is Below ==> out[0].0 == origin && out[1].0 == added && fill_down(
            out[0].1,
            out[1].1,
            area,
        ),
        direction is Above ==> out[0].0 == added && out[1].0 == origin && fill_down(
            out[0].1,
            out[1].1,
            area,
        ),
        LayoutNode::Leaf(origin).split(origin, added, direction, ratio) matches LayoutNode::Split {
            ratio: share,
            ..
        } && share == ratio,
{
    let (p, q) = if direction is Right || direction is Below {
        (origin, added)
    } else {
        (added, origin)
    };
    lemma_two_leaves(direction.spec_orientation(), ratio, p, q, area, cut, out);
}

/// Panes in a row: in order from the left, each directly beside the next, over the
/// whole height and width of an area.
pub open spec fn in_a_row(panes: Seq<PaneId>, area: Rect, out: Seq<(PaneId, Rect)>) -> bool {
    &&& out.len() == panes.len()
    &&& forall|i: int| 0 <= i < panes.len() ==> (#[trigger] out[i]).0 == panes[i]
    &&& forall|i: int|
        0 <= i < panes.len() ==> (#[trigger] out[i]).1.y == area.y && out[i].1.h == area.h
    &&& out[0].1.x == area.x
    &&& forall|i: int|
        0 <= i < panes.len() - 1 ==> (#[trigger] out[i]).1.x + out[i].1.w == out[i + 1].1.x
    &&& out.last().1.x + out.last().1.w == area.x + area.w
}

/// Panes in a column: in order from the top, each directly above the next, over
/// the whole width and height of an area.
pub open spec fn in_a_column(panes: Seq<PaneId>, area: Rect, out: Seq<(PaneId, Rect)>) -> bool {
    &&& out.len() == panes.len()
    &&& forall|i: int| 0 <= i < panes.len() ==> (#[trigger] out[i]).0 == panes[i]
    &&& forall|i: int|
        0 <= i < panes.len() ==> (#[trigger] out[i]).1.x == area.x && out[i].1.w == area.w
    &&& out[0].1.y == area.y
    &&& forall|i: int|
        0 <= i < panes.len() - 1 ==> (#[trigger] out[i]).1.y + out[i].1.h == out[i + 1].1.y
    &&& out.last().1.y + out.last().1.h == area.y + area.h
}

proof fn lemma_even<F: Fn(u16, u32) -> u16>(
    o: SplitOrientation,
    panes: Seq<PaneId>,
    shares: Seq<u32>,
    area: Rect,
    cut: F,
    out: Seq<(PaneId, Rect)>,
)
    requires
        in_bounds(area),
        panes.len() >= 1,
        placed(arrange::even(o, panes, shares), area, cut, out),
    ensures
        o is Vertical ==> in_a_row(panes, area, out),
        o is Horizontal ==> in_a_column(panes, area, out),
    decreases panes.len(),
{
    if panes.len() == 1 {
        assert(out == seq![(panes[0], area)]);
        assert(out.last() == out[0]);
    } else {
        let rest = panes.drop_first();
        let span = arrange::span(area, o);
        let ratio = shares[panes.len() as int];
        let first = LayoutNode::Leaf(panes[0]);
        let second = arrange::even(o, rest, shares);
        let (cells, n) = choose|cells: u16, n: int|
            {
                let (a, b) = arrange::parts(area, o, arrange::at_most(cells, span));
                &&& #[trigger] call_ensures(cut, (span, ratio), cells)
                &&& 0 <= n <= out.len()
                &&& placed(first, a, cut, #[trigger] out.take(n))
                &&& placed(second, b, cut, out.skip(n))
            };
        let (a, b) = arrange::parts(area, o, arrange::at_most(cells, span));
        assert(out.take(n) == seq![(panes[0], a)]);
        assert(out.take(n).len() == 1);
        assert(out.take(n)[0] == out[0]);
        let tail = out.skip(1);
        assert(n == 1);
        lemma_even(o, rest, shares, b, cut, tail);
        assert forall|i: int| 0 <= i < panes.len() implies (#[trigger] out[i]).0 == panes[i] by {
            if i > 0 {
                assert(tail[i - 1] == out[i]);
                assert(rest[i - 1] == panes[i]);
            }
        }
        assert(out.last() == tail.last());
        assert(tail[0] == out[1]);
        if o is Vertical {
            assert forall|i: int| 0 <= i < panes.len() implies (#[trigger] out[i]).1.y == area.y
                && out[i].1.h == area.h by {
                if i > 0 {
                    assert(tail[i - 1] == out[i]);
                }
            }
            assert forall|i: int| 0 <= i < panes.len() - 1 implies (#[trigger] out[i]).1.x
                + out[i].1.w == out[i + 1].1.x by {
                if i > 0 {
                    assert(tail[i - 1] == out[i]);
                    assert(tail[i] == out[i + 1]);
                }
            }
        } else {
            assert forall|i: int| 0 <= i < panes.len() implies (#[trigger] out[i]).1.x == area.x
                && out[i].1.w == area.w by {
                if i > 0 {
                    assert(tail[i - 1] == out[i]);
                }
            }
            assert forall|i: int| 0 <= i < panes.len() - 1 implies (#[trigger] out[i]).1.y
                + out[i].1.h == out[i + 1].1.y by {
                if i > 0 {
                    assert(tail[i - 1] == out[i]);
                    assert(tail[i] == out[i + 1]);
                }
            }
        }
    }
}

/// The even arrangements: the horizontal one is a row of all panes, the vertical
/// one a column of them.
pub proof fn lemma_even_arrangements<F: Fn(u16, u32) -> u16>(
    panes: Seq<PaneId>,
    shares: Seq<u32>,
    area: Rect,
    cut: F,
    out: Seq<(PaneId, Rect)>,
)
    requires
        in_bounds(area),
        panes.len() >= 1,
    ensures
        arrange::named(LayoutKind::EvenHorizontal, panes, shares) is Some,
        arrange::named(LayoutKind::EvenVertical, panes, shares) is Some,
        placed(arrange::named(LayoutKind::EvenHorizontal, panes, shares)->0, area, cut, out)
            ==> in_a_row(panes, area, out),
        placed(arrange::named(LayoutKind::EvenVertical, panes, shares)->0, area, cut, out)
            ==> in_a_column(panes, area, out),
{
    if placed(arrange::even(SplitOrientation::Vertical, panes, shares), area, cut, out) {
        lemma_even(SplitOrientation::Vertical, panes, shares, area, cut, out);
    }
    if placed(arrange::even(SplitOrientation::Horizontal, panes, shares), area, cut, out) {
        lemma_even(SplitOrientation::Horizontal, panes, shares, area, cut, out);
    }
}

/// An even row or column gives its first pane the share of one among all of them,
/// and the rest the same among themselves.
pub proof fn lemma_even_shares(kind: LayoutKind, panes: Seq<PaneId>, shares: Seq<u32>)
    requires
        panes.len() >= 2,
        kind == LayoutKind::EvenHorizontal || kind == LayoutKind::EvenVertical,
    ensures
        arrange::named(kind, panes, shares)->0 matches LayoutNode::Split {
            ratio,
            first,
            second,
            ..
        } && ratio == shares[panes.len() as int] && *first == LayoutNode::Leaf(panes[0])
            && *second == arrange::named(kind, panes.drop_first(), shares)->0,
{
}

proof fn lemma_main<F: Fn(u16, u32) -> u16>(
    main: SplitOrientation,
    rest: SplitOrientation,
    panes: Seq<PaneId>,
    shares: Seq<u32>,
    area: Rect,
    cut: F,
    out: Seq<(PaneId, Rect)>,
) -> (b: Rect)
    requires
        in_bounds(area),
        panes.len() >= 2,
        main != rest,
        placed(arrange::main_first(main, rest, panes, shares), area, cut, out),
    ensures
        out.len() == panes.len(),
        out[0].0 == panes[0],
        main is Vertical ==> fill_across(out[0].1, b, area) && in_a_column(
            panes.drop_first(),
            b,
            out.skip(1),
        ),
        main is Horizontal ==> fill_down(out[0].1, b, area) && in_a_row(
            panes.drop_first(),
            b,
            out.skip(1),
        ),
{
    let others = panes.drop_first();
    let span = arrange::span(area, main);
    let first = LayoutNode::Leaf(panes[0]);
    let second = arrange::even(rest, others, shares);
    let (cells, n) = choose|cells: u16, n: int|
        {
            let (a, b) = arrange::parts(area, main, arrange::at_most(cells, span));
            &&& #[trigger] call_ensures(cut, (span, shares[2]), cells)
            &&& 0 <= n <= out.len()
            &&& placed(first, a, cut, #[trigger] out.take(n))
            &&& placed(second, b, cut, out.skip(n))
        };
    let (a, b) = arrange::parts(area, main, arrange::at_most(cells, span));
    assert(out.take(n) == seq![(panes[0], a)]);
    assert(out.take(n).len() == 1);
    assert(out.take(n)[0] == out[0]);
    lemma_even(rest, others, shares, b, cut, out.skip(1));
    b
}

/// The main arrangements: the vertical one has the first pane over the whole
/// height on the left and a column of the others beside it, the horizontal one the
/// first pane over the whole width on top and a row of the others below it.
pub proof fn lemma_main_arrangements<F: Fn(u16, u32) -> u16>(
    panes: Seq<PaneId>,
    shares: Seq<u32>,
    area: Rect,
    cut: F,
    out: Seq<(PaneId, Rect)>,
)
    requires
        in_bounds(area),
        panes.len() >= 2,
    ensures
        placed(arrange::named(LayoutKind::MainVertical, panes, shares)->0, area, cut, out) ==> {
            &&& out[0].0 == panes[0]
            &&& exists|b: Rect|
                fill_across(out[0].1, b, area) && #[trigger] in_a_column(
                    panes.drop_first(),
                    b,
                    out.skip(1),
                )
        },
        placed(arrange::named(LayoutKind::MainHorizontal, panes, shares)->0, area, cut, out) ==> {
            &&& out[0].0 == panes[0]
            &&& exists|b: Rect|
                fill_down(out[0].1, b, area) && #[trigger] in_a_row(
                    panes.drop_first(),
                    b,
                    out.skip(1),
                )
        },
{
    let v = SplitOrientation::Vertical;
    let h = SplitOrientation::Horizontal;
    if placed(arrange::main_first(v, h, panes, shares), area, cut, out) {
        let b = lemma_main(v, h, panes, shares, area, cut, out);
        assert(in_a_column(panes.drop_first(), b, out.skip(1)));
    }
    if placed(arrange::main_first(h, v, panes, shares), area, cut, out) {
        let b = lemma_main(h, v, panes, shares, area, cut, out);
        assert(in_a_row(panes.drop_first(), b, out.skip(1)));
    }
}

proof fn lemma_side(n: nat, c: nat)
    requires
        1 <= c,
        c == 1 || (c - 1) * (c - 1) < n,
    ensures
        ({
            let s = arrange::side(n, c);
            &&& s >= c
            &&& s * s >= n
            &&& s == 1 || (s - 1) * (s - 1) < n
        }),
    decreases n - c,
{
    if c * c >= n {
    } else if c >= n {
        assert(c * c >= n) by (nonlinear_arith)
            requires
                c >= n,
                c >= 1,
        ;
    } else {
        lemma_side(n, c + 1);
    }
}

/// The tiled arrangement has as many columns as the least square that holds all
/// panes has, and its first line is a row of that many panes, with the share of one
/// among all lines; the rest is tiled below it with as many columns. Fewer panes than
/// that are one row.
pub proof fn lemma_tiled_arrangement(panes: Seq<PaneId>, shares: Seq<u32>)
    requires
        panes.len() >= 1,
    ensures
        ({
            let s = arrange::side(panes.len(), 1);
            &&& s * s >= panes.len()
            &&& s == 1 || (s - 1) * (s - 1) < panes.len()
            &&& panes.len() <= s ==> arrange::named(LayoutKind::Tiled, panes, shares)
                == arrange::named(LayoutKind::EvenHorizontal, panes, shares)
            &&& panes.len() > s ==> (arrange::named(LayoutKind::Tiled, panes, shares)->0
                matches LayoutNode::Split { orientation, ratio, first, second }
                && orientation is Horizontal && Some(*first) == arrange::named(
                LayoutKind::EvenHorizontal,
                panes.take(s as int),
                shares,
            ) && *second == arrange::grid_of(s, panes.skip(s as int), shares) && exists|lines: int|
                (lines - 1) * s < panes.len() <= lines * s && ratio == #[trigger] shares[lines])
        }),
{
    lemma_side(panes.len(), 1);
    let s = arrange::side(panes.len(), 1);
    let n = panes.len();
    let lines = arrange::line_count(n, s) as int;
    vstd::arithmetic::div_mod::lemma_fundamental_div_mod(n + s - 1, s as int);
    vstd::arithmetic::div_mod::lemma_mod_bound(n + s - 1, s as int);
    assert(s * lines == lines * s) by (nonlinear_arith);
    assert((lines - 1) * s == lines * s - s) by (nonlinear_arith);
    if n > s {
        assert(arrange::named(LayoutKind::Tiled, panes, shares)->0->ratio == shares[lines]);
    }
}

/// The divider that a pane moves is the innermost one of the orientation around
/// it: inside a half that has one it is that half's, and a split of the
/// orientation that has none further in governs its panes itself.
pub proof fn lemma_the_innermost_divider_governs(
    o: SplitOrientation,
    orientation: SplitOrientation,
    ratio: u32,
    first: LayoutNode,
    second: LayoutNode,
    id: PaneId,
)
    requires
        first.leaves().contains(id.0) != second.leaves().contains(id.0),
    ensures
        ({
            let tree = LayoutNode::Split {
                orientation,
                ratio,
                first: Box::new(first),
                second: Box::new(second),
            };
            let half = if first.leaves().contains(id.0) {
                first
            } else {
                second
            };
            let inner = arrange::governing(half, id, o);
            &&& inner is Some ==> arrange::governing(tree, id, o) == inner
            &&& inner is None && orientation == o ==> arrange::governing(tree, id, o) == Some(ratio)
            &&& inner is None && orientation != o ==> arrange::governing(tree, id, o) is None
        }),
        arrange::governing(LayoutNode::Leaf(id), id, o) is None,
{
    let a = first.leaves();
    let b = second.leaves();
    assert((a + b).contains(id.0)) by {
        if a.contains(id.0) {
            let i = choose|i: int| 0 <= i < a.len() && a[i] == id.0;
            assert((a + b)[i] == id.0);
        } else {
            let i = choose|i: int| 0 <= i < b.len() && b[i] == id.0;
            assert((a + b)[a.len() + i] == id.0);
        }
    }
}

/// The dividers of a window, from the outermost in: how they lie and what share
/// they give.
pub open spec fn dividers(tree: LayoutNode) -> Seq<(SplitOrientation, u32)>
    decreases tree,
{
    match tree {
        LayoutNode::Leaf(_) => Seq::empty(),
        LayoutNode::Split { orientation, ratio, first, second } => seq![(orientation, ratio)]
            + dividers(*first) + dividers(*second),
    }
}

/// Two lists of dividers differ in the share of one of them at most, which lies in
/// a given way and gets a given share.
pub open spec fn one_share_differs(
    a: Seq<(SplitOrientation, u32)>,
    b: Seq<(SplitOrientation, u32)>,
    o: SplitOrientation,
    share: u32,
    i: int,
) -> bool {
    &&& 0 <= i < a.len()
    &&& a[i].0 == o
    &&& b == a.update(i, (o, share))
}

/// A divider that is moved is one that lies the way that was asked for; every other
/// divider stays where it is.
pub proof fn lemma_only_one_divider_moves(
    tree: LayoutNode,
    id: PaneId,
    o: SplitOrientation,
    share: u32,
)
    requires
        arrange::governing(tree, id, o) is Some,
    ensures
        exists|i: int| #[trigger]
            one_share_differs(
                dividers(tree),
                dividers(arrange::with_share(tree, id, o, share)),
                o,
                share,
                i,
            ),
    decreases tree,
{
    let after = arrange::with_share(tree, id, o, share);
    let d = dividers(tree);
    let e = dividers(after);
    match tree {
        LayoutNode::Leaf(_) => {},
        LayoutNode::Split { orientation, ratio, first, second } => {
            let a = dividers(*first);
            let b = dividers(*second);
            if first.leaves().contains(id.0) && arrange::governing(*first, id, o) is Some {
                lemma_only_one_divider_moves(*first, id, o, share);
                let x = dividers(arrange::with_share(*first, id, o, share));
                let i = choose|i: int| #[trigger] one_share_differs(a, x, o, share, i);
                assert(e =~= d.update(i + 1, (o, share)));
                assert(one_share_differs(d, e, o, share, i + 1));
            } else if !first.leaves().contains(id.0) && second.leaves().contains(id.0)
                && arrange::governing(*second, id, o) is Some {
                lemma_only_one_divider_moves(*second, id, o, share);
                let x = dividers(arrange::with_share(*second, id, o, share));
                let i = choose|i: int| #[trigger] one_share_differs(b, x, o, share, i);
                assert(e =~= d.update(i + 1 + a.len(), (o, share)));
                assert(one_share_differs(d, e, o, share, i + 1 + a.len()));
            } else {
                assert(e =~= d.update(0, (o, share)));
                assert(one_share_differs(d, e, o, share, 0));
            }
        },
    }
}

} // verus!
