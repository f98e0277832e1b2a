//! The tree that arranges the panes of a window.
use crate::id::PaneId;
use vstd::prelude::*;

verus! {

/// Towards which side.
#[derive(Debug, Clone, Copy, PartialEq, Eq, Structural)]
pub enum Direction {
    Left,
    Right,
    Above,
    Below,
}

/// How the divider of a split stands: a vertical one has panes to its left and
/// right, a horizontal one above and below.
#[derive(Debug, Clone, Copy, PartialEq, Eq, Structural)]
pub enum SplitOrientation {
    Vertical,
    Horizontal,
}

impl Direction {
    pub open spec fn spec_orientation(self) -> SplitOrientation {
        match self {
            Direction::Left => SplitOrientation::Vertical,
            Direction::Right => SplitOrientation::Vertical,
            Direction::Above => SplitOrientation::Horizontal,
            Direction::Below => SplitOrientation::Horizontal,
        }
    }

    pub fn orientation(self) -> (r: SplitOrientation)
        ensures
            r == self.spec_orientation(),
    {
        match self {
            Direction::Left => SplitOrientation::Vertical,
            Direction::Right => SplitOrientation::Vertical,
            Direction::Above => SplitOrientation::Horizontal,
            Direction::Below => SplitOrientation::Horizontal,
        }
    }

    /// A new pane comes after the one it was split from.
    pub open spec fn forward(self) -> bool {
        self is Right || self is Below
    }
}

/// The named arrangements of a window.
#[derive(Debug, Clone, Copy, PartialEq, Eq, Structural)]
pub enum LayoutKind {
    EvenHorizontal,
    EvenVertical,
    MainHorizontal,
    MainVertical,
    Tiled,
    /// No arrangement of its own.
    Custom,
}

/// A rectangle of cells.
#[derive(Debug, Clone, Copy, PartialEq, Eq, Structural)]
pub struct Rect {
    pub x: u16,
    pub y: u16,
    pub w: u16,
    pub h: u16,
}

/// One node of a layout. The share of the first half of a split is kept as the
/// bits of the number that the renderer works with; nothing here reads it.
#[derive(Debug, PartialEq, Eq)]
pub enum LayoutNode {
    Leaf(PaneId),
    Split {
        orientation: SplitOrientation,
        ratio: u32,
        first: Box<LayoutNode>,
        second: Box<LayoutNode>,
    },
}

/// What taking a leaf out came to.
#[derive(Debug, Clone, Copy, PartialEq, Eq, Structural)]
pub enum LeafRemoval {
    NotFound,
    Removed,
    /// The leaf is the whole tree, which stays as it is.
    WasRoot,
}

/// Why a tree is not sound.
#[derive(Debug, Clone, Copy, PartialEq, Eq, Structural)]
pub enum LayoutError {
    /// A leaf with the reserved identifier.
    NullLeaf,
    /// A pane at two places.
    Duplicate(PaneId),
}

impl LayoutNode {
    /// The panes in display order.
    pub open spec fn leaves(self) -> Seq<u64>
        decreases self,
    {
        match self {
            LayoutNode::Leaf(p) => seq![p.0],
            LayoutNode::Split { first, second, .. } => first.leaves() + second.leaves(),
        }
    }

    /// The node that takes the place of a leaf that is split.
    pub open spec fn halves(
        origin: PaneId,
        added: PaneId,
        direction: Direction,
        ratio: u32,
    ) -> LayoutNode {
        let a = Box::new(LayoutNode::Leaf(origin));
        let b = Box::new(LayoutNode::Leaf(added));
        LayoutNode::Split {
            orientation: direction.spec_orientation(),
            ratio,
            first: if direction.forward() {
                a
            } else {
                b
            },
            second: if direction.forward() {
                b
            } else {
                a
            },
        }
    }

    /// The tree with the first leaf of `origin` split.
    pub open spec fn split(
        self,
        origin: PaneId,
        added: PaneId,
        direction: Direction,
        ratio: u32,
    ) -> LayoutNode
        decreases self,
    {
        match self {
            LayoutNode::Leaf(p) => if p == origin {
                LayoutNode::halves(origin, added, direction, ratio)
            } else {
                self
            },
            LayoutNode::Split { orientation, ratio: share, first, second } => if first.leaves().contains(
                origin.0,
            ) {
                LayoutNode::Split {
                    orientation,
                    ratio: share,
                    first: Box::new(first.split(origin, added, direction, ratio)),
                    second,
                }
            } else {
                LayoutNode::Split {
                    orientation,
                    ratio: share,
                    first,
                    second: Box::new(second.split(origin, added, direction, ratio)),
                }
            },
        }
    }

    /// The tree without the first leaf of `id`; a split that loses a half
    /// becomes its other half.
    pub open spec fn without(self, id: PaneId) -> LayoutNode
        decreases self,
    {
        match self {
            LayoutNode::Leaf(_) => self,
            LayoutNode::Split { orientation, ratio, first, second } => {
                if *first == LayoutNode::Leaf(id) {
                    *second
                } else if first.leaves().contains(id.0) {
                    LayoutNode::Split {
                        orientation,
                        ratio,
                        first: Box::new(first.without(id)),
                        second,
                    }
                } else if *second == LayoutNode::Leaf(id) {
                    *first
                } else {
                    LayoutNode::Split {
                        orientation,
                        ratio,
                        first,
                        second: Box::new(second.without(id)),
                    }
                }
            },
        }
    }

    /// What taking the leaf of `id` out comes to.
    pub open spec fn removal(self, id: PaneId) -> LeafRemoval {
        if self == LayoutNode::Leaf(id) {
            LeafRemoval::WasRoot
        } else if self.leaves().contains(id.0) {
            LeafRemoval::Removed
        } else {
            LeafRemoval::NotFound
        }
    }

    /// No reserved identifier, and no pane at two places.
    pub open spec fn sound(self) -> bool {
        &&& !self.leaves().contains(0)
        &&& self.leaves().no_duplicates()
    }

    /// A tree of one pane.
    pub fn leaf(id: PaneId) -> (r: LayoutNode)
        ensures
            r == LayoutNode::Leaf(id),
            r.leaves() == seq![id.0],
    {
        LayoutNode::Leaf(id)
    }

    /// The panes in display order.
    pub fn panes(&self) -> (r: Vec<PaneId>)
        ensures
            pane_numbers(r@) == self.leaves(),
            r@.len() >= 1,
        decreases self,
    {
        match self {
            LayoutNode::Leaf(p) => {
                let r = vec![*p];
                assert(pane_numbers(r@) =~= seq![p.0]);
                r
            },
            LayoutNode::Split { first, second, .. } => {
                let mut r = first.panes();
                let mut rest = second.panes();
                let ghost a = r@;
                let ghost b = rest@;
                r.append(&mut rest);
                assert(pane_numbers(a + b) =~= pane_numbers(a) + pane_numbers(b));
                r
            },
        }
    }

    /// How many panes there are.
    pub fn pane_count(&self) -> (n: usize)
        ensures
            n == self.leaves().len(),
    {
        self.panes().len()
    }

    /// Whether a pane stands in the tree.
    pub fn contains(&self, id: PaneId) -> (b: bool)
        ensures
            b == self.leaves().contains(id.0),
        decreases self,
    {
        match self {
            LayoutNode::Leaf(p) => {
                proof {
                    assert(seq![p.0][0] == p.0);
                    if seq![p.0].contains(id.0) {
                        assert(p.0 == id.0);
                    }
                }
                p.0 == id.0
            },
            LayoutNode::Split { first, second, .. } => {
                let a = first.contains(id);
                let b = second.contains(id);
                proof {
                    lemma_contains_concat(first.leaves(), second.leaves(), id.0);
                }
                a || b
            },
        }
    }

    /// Splits the leaf of `origin`; a tree without it stays as it is.
    pub fn split_leaf(
        &mut self,
        origin: PaneId,
        added: PaneId,
        direction: Direction,
        ratio: u32,
    ) -> (done: bool)
        ensures
            done == old(self).leaves().contains(origin.0),
            *final(self) == if done {
                old(self).split(origin, added, direction, ratio)
            } else {
                *old(self)
            },
        decreases *old(self),
    {
        let here = self.contains(origin);
        match self {
            LayoutNode::Leaf(p) => {
                if !here {
                    return false;
                }
                proof {
                    assert(seq![p.0].contains(origin.0));
                }
                let a = Box::new(LayoutNode::Leaf(origin));
                let b = Box::new(LayoutNode::Leaf(added));
                let (first, second) = match direction {
                    Direction::Right => (a, b),
                    Direction::Below => (a, b),
                    Direction::Left => (b, a),
                    Direction::Above => (b, a),
                };
                *self = LayoutNode::Split {
                    orientation: direction.orientation(),
                    ratio,
                    first,
                    second,
                };
                true
            },
            LayoutNode::Split { first, second, .. } => {
                proof {
                    lemma_contains_concat(first.leaves(), second.leaves(), origin.0);
                }
                if first.contains(origin) {
                    first.split_leaf(origin, added, direction, ratio)
                } else {
                    second.split_leaf(origin, added, direction, ratio)
                }
            },
        }
    }

    /// Takes the leaf of `id` out.
    pub fn remove_leaf(&mut self, id: PaneId) -> (r: LeafRemoval)
        ensures
            r == old(self).removal(id),
            *final(self) == if r is Removed {
                old(self).without(id)
            } else {
                *old(self)
            },
        decreases *old(self),
    {
        if self.is_leaf(id) {
            return LeafRemoval::WasRoot;
        }
        if !self.contains(id) {
            return LeafRemoval::NotFound;
        }
        match self {
            LayoutNode::Leaf(p) => {
                proof {
                    assert(seq![p.0].contains(id.0));
                }
                LeafRemoval::WasRoot
            },
            LayoutNode::Split { first, second, .. } => {
                proof {
                    lemma_contains_concat(first.leaves(), second.leaves(), id.0);
                    assert(seq![id.0][0] == id.0);
                }
                if first.is_leaf(id) {
                    let mut rest = LayoutNode::Leaf(id);
                    std::mem::swap(&mut rest, second);
                    *self = rest;
                } else if first.contains(id) {
                    let _ = first.remove_leaf(id);
                } else if second.is_leaf(id) {
                    let mut rest = LayoutNode::Leaf(id);
                    std::mem::swap(&mut rest, first);
                    *self = rest;
                } else {
                    let _ = second.remove_leaf(id);
                }
                LeafRemoval::Removed
            },
        }
    }

    fn is_leaf(&self, id: PaneId) -> (b: bool)
        ensures
            b == (*self == LayoutNode::Leaf(id)),
    {
        match self {
            LayoutNode::Leaf(p) => p.0 == id.0,
            LayoutNode::Split { .. } => false,
        }
    }

    /// Whether the tree is sound, or a fault that it has.
    pub fn validate(&self) -> (r: Result<(), LayoutError>)
        ensures
            match r {
                Ok(()) => self.sound(),
                Err(LayoutError::NullLeaf) => self.leaves().contains(0),
                Err(LayoutError::Duplicate(p)) => exists|i: int, j: int|
                    0 <= i < j < self.leaves().len() && self.leaves()[i] == p.0
                        && self.leaves()[j] == p.0,
            },
    {
        let panes = self.panes();
        let ghost all = self.leaves();
        let mut i: usize = 0;
        while i < panes.len()
            invariant
                i <= panes@.len(),
                pane_numbers(panes@) == all,
                all == self.leaves(),
                forall|a: int| 0 <= a < i ==> #[trigger] all[a] != 0,
                forall|a: int, b: int| 0 <= a < b < i ==> all[a] != all[b],
            decreases panes@.len() - i,
        {
            assert(all[i as int] == panes@[i as int].0);
            if panes[i].0 == 0 {
                return Err(LayoutError::NullLeaf);
            }
            let mut j: usize = 0;
            while j < i
                invariant
                    j <= i < panes@.len(),
                    pane_numbers(panes@) == all,
                    all == self.leaves(),
                    forall|a: int| 0 <= a < j ==> #[trigger] all[a] != all[i as int],
                decreases i - j,
            {
                assert(all[j as int] == panes@[j as int].0);
                assert(all[i as int] == panes@[i as int].0);
                if panes[j].0 == panes[i].0 {
                    return Err(LayoutError::Duplicate(panes[i]));
                }
                j = j + 1;
            }
            i = i + 1;
        }
        Ok(())
    }
}

/// The numbers of a list of panes.
pub open spec fn pane_numbers(s: Seq<PaneId>) -> Seq<u64> {
    Seq::new(s.len(), |i: int| s[i].0)
}

impl Clone for LayoutNode {
    fn clone(&self) -> (r: LayoutNode)
        ensures
            r == *self,
        decreases self,
    {
        match self {
            LayoutNode::Leaf(p) => LayoutNode::Leaf(*p),
            LayoutNode::Split { orientation, ratio, first, second } => LayoutNode::Split {
                orientation: *orientation,
                ratio: *ratio,
                first: Box::new((&**first).clone()),
                second: Box::new((&**second).clone()),
            },
        }
    }
}

proof fn lemma_contains_concat(a: Seq<u64>, b: Seq<u64>, x: u64)
    ensures
        (a + b).contains(x) == (a.contains(x) || b.contains(x)),
{
    if a.contains(x) {
        let i = choose|i: int| 0 <= i < a.len() && a[i] == x;
        assert((a + b)[i] == x);
    }
    if b.contains(x) {
        let i = choose|i: int| 0 <= i < b.len() && b[i] == x;
        assert((a + b)[a.len() + i] == x);
    }
    if (a + b).contains(x) {
        let i = choose|i: int| 0 <= i < (a + b).len() && (a + b)[i] == x;
        if i < a.len() {
            assert(a[i] == x);
        } else {
            assert(b[i - a.len()] == x);
        }
    }
}

/// `s` with `x` put next to its element `i`, after it or before it.
pub open spec fn beside(s: Seq<u64>, i: int, x: u64, after: bool) -> Seq<u64> {
    s.insert(
        if after {
            i + 1
        } else {
            i
        },
        x,
    )
}

/// Splitting a pane puts the new one next to it, on the side that was asked
/// for, and moves no other.
pub proof fn lemma_split_keeps_the_others(
    t: LayoutNode,
    origin: PaneId,
    added: PaneId,
    direction: Direction,
    ratio: u32,
)
    requires
        t.leaves().contains(origin.0),
    ensures
        exists|i: int|
            0 <= i < t.leaves().len() && t.leaves()[i] == origin.0 && t.split(
                origin,
                added,
                direction,
                ratio,
            ).leaves() == #[trigger] beside(t.leaves(), i, added.0, direction.forward()),
    decreases t,
{
    match t {
        LayoutNode::Leaf(p) => {
            assert(t.leaves()[0] == p.0);
            assert(p == origin);
            let r = t.split(origin, added, direction, ratio).leaves();
            reveal_with_fuel(LayoutNode::leaves, 3);
            assert(r =~= beside(t.leaves(), 0, added.0, direction.forward()));
        },
        LayoutNode::Split { orientation, ratio: share, first, second } => {
            let a = first.leaves();
            let b = second.leaves();
            lemma_contains_concat(a, b, origin.0);
            if a.contains(origin.0) {
                lemma_split_keeps_the_others(*first, origin, added, direction, ratio);
                let i = choose|i: int|
                    0 <= i < a.len() && a[i] == origin.0 && first.split(
                        origin,
                        added,
                        direction,
                        ratio,
                    ).leaves() == #[trigger] beside(a, i, added.0, direction.forward());
                assert(t.leaves()[i] == origin.0);
                assert(t.split(origin, added, direction, ratio).leaves() =~= beside(
                    t.leaves(),
                    i,
                    added.0,
                    direction.forward(),
                ));
            } else {
                lemma_split_keeps_the_others(*second, origin, added, direction, ratio);
                let i = choose|i: int|
                    0 <= i < b.len() && b[i] == origin.0 && second.split(
                        origin,
                        added,
                        direction,
                        ratio,
                    ).leaves() == #[trigger] beside(b, i, added.0, direction.forward());
                assert(t.leaves()[a.len() + i] == origin.0);
                assert(t.split(origin, added, direction, ratio).leaves() =~= beside(
                    t.leaves(),
                    a.len() + i,
                    added.0,
                    direction.forward(),
                ));
            }
        },
    }
}

/// A pane taken out leaves the others in their order.
pub proof fn lemma_removal_keeps_the_others(t: LayoutNode, id: PaneId)
    requires
        t.removal(id) is Removed,
    ensures
        exists|i: int|
            0 <= i < t.leaves().len() && t.leaves()[i] == id.0 && t.without(id).leaves()
                == #[trigger] t.leaves().remove(i),
    decreases t,
{
    match t {
        LayoutNode::Leaf(p) => {
            assert(t.leaves()[0] == p.0);
        },
        LayoutNode::Split { orientation, ratio, first, second } => {
            let a = first.leaves();
            let b = second.leaves();
            lemma_contains_concat(a, b, id.0);
            if *first == LayoutNode::Leaf(id) {
                assert(a =~= seq![id.0]);
                assert(t.leaves()[0] == id.0);
                assert(b =~= t.leaves().remove(0));
            } else if a.contains(id.0) {
                lemma_removal_keeps_the_others(*first, id);
                let i = choose|i: int|
                    0 <= i < a.len() && a[i] == id.0 && first.without(id).leaves()
                        == #[trigger] a.remove(i);
                assert(t.leaves()[i] == id.0);
                assert(t.without(id).leaves() =~= t.leaves().remove(i));
            } else if *second == LayoutNode::Leaf(id) {
                assert(b =~= seq![id.0]);
                let n = a.len() as int;
                assert(t.leaves()[n] == id.0);
                assert(a =~= t.leaves().remove(n));
            } else {
                lemma_removal_keeps_the_others(*second, id);
                let i = choose|i: int|
                    0 <= i < b.len() && b[i] == id.0 && second.without(id).leaves()
                        == #[trigger] b.remove(i);
                assert(t.leaves()[a.len() + i] == id.0);
                assert(t.without(id).leaves() =~= t.leaves().remove(a.len() + i));
            }
        },
    }
}

/// Taking out a pane that was just split off gives the tree back.
pub proof fn lemma_removal_undoes_split(
    t: LayoutNode,
    origin: PaneId,
    added: PaneId,
    direction: Direction,
    ratio: u32,
)
    requires
        t.leaves().contains(origin.0),
        !t.leaves().contains(added.0),
    ensures
        t.split(origin, added, direction, ratio).without(added) == t,
        t.split(origin, added, direction, ratio).removal(added) is Removed,
    decreases t,
{
    let s = t.split(origin, added, direction, ratio);
    lemma_split_keeps_the_others(t, origin, added, direction, ratio);
    let i = choose|i: int|
        0 <= i < t.leaves().len() && t.leaves()[i] == origin.0 && s.leaves()
            == #[trigger] beside(t.leaves(), i, added.0, direction.forward());
    let at = if direction.forward() {
        i + 1
    } else {
        i
    };
    assert(s.leaves()[at] == added.0);
    match t {
        LayoutNode::Leaf(p) => {
            assert(t.leaves()[0] == p.0);
            assert(p == origin);
            assert(added != origin);
            assert(seq![origin.0][0] == origin.0);
            assert(LayoutNode::Leaf(origin).leaves() =~= seq![origin.0]);
            assert(!LayoutNode::Leaf(origin).leaves().contains(added.0));
        },
        LayoutNode::Split { orientation, ratio: share, first, second } => {
            let a = first.leaves();
            let b = second.leaves();
            lemma_contains_concat(a, b, origin.0);
            lemma_contains_concat(a, b, added.0);
            if a.contains(origin.0) {
                lemma_removal_undoes_split(*first, origin, added, direction, ratio);
                let f = first.split(origin, added, direction, ratio);
                assert(f != LayoutNode::Leaf(added));
            } else {
                lemma_removal_undoes_split(*second, origin, added, direction, ratio);
                assert(LayoutNode::Leaf(added).leaves() =~= seq![added.0]);
                assert(seq![added.0][0] == added.0);
                assert(*first != LayoutNode::Leaf(added));
            }
        },
    }
}

/// A sound tree stays sound when a new pane is split off or one is taken out.
pub proof fn lemma_layout_stays_sound(
    t: LayoutNode,
    origin: PaneId,
    added: PaneId,
    direction: Direction,
    ratio: u32,
)
    requires
        t.sound(),
        t.leaves().contains(origin.0),
        added.0 != 0,
        !t.leaves().contains(added.0),
    ensures
        t.split(origin, added, direction, ratio).sound(),
        t.removal(origin) is Removed ==> t.without(origin).sound(),
{
    let s = t.split(origin, added, direction, ratio);
    let all = t.leaves();
    lemma_split_keeps_the_others(t, origin, added, direction, ratio);
    let i = choose|i: int|
        0 <= i < all.len() && all[i] == origin.0 && s.leaves() == #[trigger] beside(all, i, added.0, direction.forward());
    let at = if direction.forward() {
        i + 1
    } else {
        i
    };
    let grown = s.leaves();
    assert forall|x: int| 0 <= x < grown.len() && x != at implies #[trigger] grown[x] == all[if x
        < at {
        x
    } else {
        x - 1
    }] by {}
    if grown.contains(0) {
        let x = choose|x: int| 0 <= x < grown.len() && grown[x] == 0;
        assert(x != at);
        let y = if x < at {
            x
        } else {
            x - 1
        };
        assert(all[y] == 0);
        assert(all.contains(0));
    }
    assert forall|x: int, y: int| 0 <= x < grown.len() && 0 <= y < grown.len() && x != y implies grown[x]
        != grown[y] by {
        let px = if x < at {
            x
        } else {
            x - 1
        };
        let py = if y < at {
            y
        } else {
            y - 1
        };
        if x == at {
            assert(grown[y] == all[py]);
            assert(all.contains(all[py]));
        } else if y == at {
            assert(grown[x] == all[px]);
            assert(all.contains(all[px]));
        } else {
            assert(all[px] != all[py]);
        }
    }
    if t.removal(origin) is Removed {
        lemma_removal_keeps_the_others(t, origin);
        let j = choose|j: int|
            0 <= j < all.len() && all[j] == origin.0 && t.without(origin).leaves()
                == #[trigger] all.remove(j);
        let cut = t.without(origin).leaves();
        if cut.contains(0) {
            let x = choose|x: int| 0 <= x < cut.len() && cut[x] == 0;
            let y = if x < j {
                x
            } else {
                x + 1
            };
            assert(all[y] == 0);
            assert(all.contains(0));
        }
        assert forall|x: int, y: int| 0 <= x < cut.len() && 0 <= y < cut.len() && x != y implies cut[x]
            != cut[y] by {
            let px = if x < j {
                x
            } else {
                x + 1
            };
            let py = if y < j {
                y
            } else {
                y + 1
            };
            assert(all[px] != all[py]);
        }
    }
}

} // verus!
