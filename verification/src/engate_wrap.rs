//! A pane snapshot as it travels through an attach.
use crate::seqops;
use crate::snapshot::PaneSnapshot;
use vstd::prelude::*;

verus! {

/// A pane snapshot under a name of its own.
pub struct PaneSnapshotWrap(pub PaneSnapshot);

/// The sum of a list of numbers.
pub open spec fn total(s: Seq<int>) -> int
    decreases s.len(),
{
    if s.len() == 0 {
        0
    } else {
        total(s.drop_last()) + s.last()
    }
}

/// Four for each cell, and the greatest number where the sum does not fit.
pub open spec fn cell_bytes(rows: Seq<int>) -> int {
    seqops::imin(usize::MAX as int, 4 * total(rows))
}

impl PaneSnapshotWrap {
    pub open spec fn row_lengths(self) -> Seq<int> {
        Seq::new(self.0.cells@.len(), |i: int| self.0.cells@[i]@.len() as int)
    }

    /// The bytes that replay the snapshot.
    pub fn to_ansi(&self) -> (r: Vec<u8>)
        ensures
            r@ == vstd::utf8::encode_utf8(self.0@.replay()),
    {
        self.0.to_ansi()
    }

    pub fn into_inner(self) -> (r: PaneSnapshot)
        ensures
            r == self.0,
    {
        self.0
    }

    /// How much the cells come to: four for each.
    pub fn cell_size(&self) -> (n: usize)
        ensures
            n == cell_bytes(self.row_lengths()),
    {
        let ghost lens = self.row_lengths();
        let mut n: usize = 0;
        let mut i: usize = 0;
        assert(lens.take(0) =~= Seq::<int>::empty());
        while i < self.0.cells.len()
            invariant
                i <= self.0.cells@.len(),
                lens == self.row_lengths(),
                n == cell_bytes(lens.take(i as int)),
            decreases self.0.cells@.len() - i,
        {
            proof {
                let longer = lens.take(i as int + 1);
                assert(longer.drop_last() =~= lens.take(i as int));
                assert(longer.last() == self.0.cells@[i as int]@.len());
            }
            let len: usize = self.0.cells[i].len();
            if len > (usize::MAX - n) / 4 {
                n = usize::MAX;
            } else {
                n = n + 4 * len;
            }
            i = i + 1;
        }
        assert(lens.take(i as int) =~= lens);
        n
    }
}

impl engate_types::Snapshot for PaneSnapshotWrap {
    fn size_bytes(&self) -> (n: usize)
        ensures
            n == cell_bytes(self.row_lengths()),
    {
        self.cell_size()
    }
}

impl From<PaneSnapshot> for PaneSnapshotWrap {
    fn from(s: PaneSnapshot) -> (r: PaneSnapshotWrap)
        ensures
            r.0 == s,
    {
        PaneSnapshotWrap(s)
    }
}

impl vstd::std_specs::convert::FromSpecImpl<PaneSnapshot> for PaneSnapshotWrap {
    open spec fn obeys_from_spec() -> bool {
        true
    }

    open spec fn from_spec(s: PaneSnapshot) -> PaneSnapshotWrap {
        PaneSnapshotWrap(s)
    }
}

} // verus!
