//! A map by number, walked in the order of its keys.
use std::collections::BTreeMap;
use vstd::prelude::*;
use vstd::std_specs::btree;
use vstd::std_specs::cmp::OrdSpec;
use vstd::std_specs::iter::IteratorSpec;

verus! {

/// Values that can be copied out of a borrow.
pub trait Duplicate: View + Sized {
    fn duplicate(&self) -> (r: Self)
        ensures
            r@ == self@,
    ;
}

/// Strictly increasing numbers.
pub open spec fn increasing(s: Seq<u64>) -> bool {
    forall|i: int, j: int| 0 <= i < j < s.len() ==> s[i] < s[j]
}

/// `s` holds the members of `d`, in order.
pub open spec fn lists(s: Seq<u64>, d: Set<u64>) -> bool {
    &&& increasing(s)
    &&& forall|k: u64| #[trigger] s.contains(k) <==> d.contains(k)
}

/// The members of a finite set in order.
pub open spec fn ordered(d: Set<u64>) -> Seq<u64> {
    choose|s: Seq<u64>| lists(s, d)
}

/// A set has one listing in order.
pub proof fn lemma_lists_once(a: Seq<u64>, b: Seq<u64>, d: Set<u64>)
    requires
        lists(a, d),
        lists(b, d),
    ensures
        a == b,
    decreases a.len(),
{
    if a.len() == 0 {
        if b.len() > 0 {
            assert(b.contains(b[0]));
            assert(a.contains(b[0]));
        }
        assert(a =~= b);
    } else {
        let x = a.last();
        assert(a.contains(x));
        assert(b.contains(x));
        let y = b.last();
        assert(b.contains(y));
        assert(a.contains(y));
        let i = choose|i: int| 0 <= i < a.len() && a[i] == y;
        let j = choose|j: int| 0 <= j < b.len() && b[j] == x;
        assert(y <= x);
        assert(x <= y);
        let rest = d.remove(x);
        lemma_lists_drop_last(a, d);
        lemma_lists_drop_last(b, d);
        lemma_lists_once(a.drop_last(), b.drop_last(), rest);
        assert(a =~= a.drop_last().push(x));
        assert(b =~= b.drop_last().push(y));
    }
}

proof fn lemma_lists_drop_last(s: Seq<u64>, d: Set<u64>)
    requires
        lists(s, d),
        s.len() > 0,
    ensures
        lists(s.drop_last(), d.remove(s.last())),
{
    let t = s.drop_last();
    assert forall|k: u64| #[trigger] t.contains(k) <==> d.remove(s.last()).contains(k) by {
        if t.contains(k) {
            let i = choose|i: int| 0 <= i < t.len() && t[i] == k;
            assert(s[i] == k);
            assert(s.contains(k));
        }
        if d.remove(s.last()).contains(k) {
            assert(s.contains(k));
            let i = choose|i: int| 0 <= i < s.len() && s[i] == k;
            assert(i < s.len() - 1);
            assert(t[i] == k);
        }
    }
}

/// What lists a set is its listing in order.
pub proof fn lemma_ordered(s: Seq<u64>, d: Set<u64>)
    requires
        lists(s, d),
    ensures
        ordered(d) == s,
{
    lemma_lists_once(ordered(d), s, d);
}

/// A listing in order is as long as its set, and the set is finite.
pub proof fn lemma_lists_len(s: Seq<u64>, d: Set<u64>)
    requires
        lists(s, d),
    ensures
        d.finite(),
        d.len() == s.len(),
    decreases s.len(),
{
    if s.len() == 0 {
        assert forall|k: u64| !d.contains(k) by {
            assert(!s.contains(k));
        }
        assert(d =~= Set::empty());
    } else {
        lemma_lists_drop_last(s, d);
        lemma_lists_len(s.drop_last(), d.remove(s.last()));
        assert(s.contains(s.last()));
        assert(d =~= d.remove(s.last()).insert(s.last()));
    }
}

/// References to numbers are ordered as the numbers are.
proof fn lemma_references_are_ordered(s: Seq<&u64>)
    requires
        btree::increasing_seq(s),
    ensures
        forall|i: int, j: int| 0 <= i < j < s.len() ==> *(#[trigger] s[i]) < *(#[trigger] s[j]),
{
    broadcast use vstd::laws_eq::group_laws_eq;

    reveal(vstd::laws_eq::obeys_eq_spec_properties);
    reveal(vstd::laws_cmp::obeys_partial_cmp_spec_properties);
    reveal(vstd::laws_cmp::obeys_cmp_partial_ord);
    reveal(vstd::laws_cmp::obeys_cmp_ord);
    assert(vstd::laws_cmp::obeys_cmp::<&u64>());
    btree::axiom_increasing_seq_meaning(s);
    assert forall|i: int, j: int| 0 <= i < j < s.len() implies *(#[trigger] s[i]) < *(
    #[trigger] s[j]) by {
        assert(OrdSpec::cmp_spec(&s[i], &s[j]) is Less);
    }
}

/// Keys that are walked in order list the set of the keys.
proof fn lemma_keys_listed(walked: Seq<&u64>, keys: Seq<u64>, d: Set<u64>)
    requires
        btree::increasing_seq(walked),
        walked.unref().to_set() == d,
        keys.len() == walked.len(),
        forall|j: int| 0 <= j < keys.len() ==> #[trigger] keys[j] == *walked[j],
    ensures
        lists(keys, d),
{
    lemma_references_are_ordered(walked);
    assert(walked.unref() =~= keys);
    assert forall|i: int, j: int| 0 <= i < j < keys.len() implies keys[i] < keys[j] by {
        assert(*walked[i] < *walked[j]);
    }
}

/// A map from numbers to values.
#[derive(Debug, PartialEq, Eq)]
pub struct Table<V> {
    entries: BTreeMap<u64, V>,
}

impl<V: View> Table<V> {
    /// The contents.
    pub closed spec fn view(self) -> Map<u64, V::V> {
        self.entries@.map_values(|v: V| v@)
    }

    /// An empty table.
    pub fn new() -> (t: Table<V>)
        ensures
            t@ == Map::<u64, V::V>::empty(),
    {
        let t = Table { entries: BTreeMap::new() };
        assert(t@ =~= Map::<u64, V::V>::empty());
        t
    }

    pub fn contains_key(&self, k: u64) -> (b: bool)
        ensures
            b == self@.dom().contains(k),
    {
        self.entries.contains_key(&k)
    }

    /// The value at a key.
    pub fn get(&self, k: u64) -> (r: Option<&V>)
        ensures
            match r {
                Some(v) => self@.dom().contains(k) && v@ == self@[k],
                None => !self@.dom().contains(k),
            },
    {
        self.entries.get(&k)
    }

    /// Puts a value at a key, in place of any that was there.
    pub fn insert(&mut self, k: u64, v: V)
        ensures
            final(self)@ == old(self)@.insert(k, v@),
    {
        let _ = self.entries.insert(k, v);
        assert(self@ =~= old(self)@.insert(k, v@));
    }

    /// Takes the value at a key out.
    pub fn remove(&mut self, k: u64) -> (r: Option<V>)
        ensures
            final(self)@ == old(self)@.remove(k),
            match r {
                Some(v) => old(self)@.dom().contains(k) && v@ == old(self)@[k],
                None => !old(self)@.dom().contains(k) && final(self)@ == old(self)@,
            },
    {
        let r = self.entries.remove(&k);
        assert(self@ =~= old(self)@.remove(k));
        assert(r is None ==> self@ =~= old(self)@);
        r
    }

    /// The keys in order.
    pub fn keys(&self) -> (r: Vec<u64>)
        ensures
            lists(r@, self@.dom()),
            r@ == ordered(self@.dom()),
    {
        let mut r: Vec<u64> = Vec::new();
        let ghost d = self@.dom();
        assert(d =~= self.entries@.dom());
        for k in iter: self.entries.keys()
            invariant
                iter.seq() == self.entries.keys().remaining(),
                r@.len() == iter.index(),
                forall|j: int| 0 <= j < r@.len() ==> #[trigger] r@[j] == *iter.seq()[j],
        {
            r.push(*k);
        }
        proof {
            lemma_keys_listed(self.entries.keys().remaining(), r@, d);
            lemma_ordered(r@, self@.dom());
        }
        r
    }

    /// How many values there are.
    pub fn len(&self) -> (n: usize)
        ensures
            n == self@.dom().len(),
            self@.dom().finite(),
    {
        assert(self@.dom() =~= self.entries@.dom());
        self.entries.len()
    }

    pub fn is_empty(&self) -> (b: bool)
        ensures
            b == (self@.dom() == Set::<u64>::empty()),
    {
        assert(self@.dom() =~= self.entries@.dom());
        self.entries.is_empty()
    }

    /// The least key.
    pub fn first_key(&self) -> (r: Option<u64>)
        ensures
            r == first_of(self@.dom()),
    {
        let keys = self.keys();
        if keys.len() == 0 {
            None
        } else {
            Some(keys[0])
        }
    }
}

/// The least member of a finite set.
pub open spec fn first_of(d: Set<u64>) -> Option<u64> {
    if ordered(d).len() == 0 {
        None
    } else {
        Some(ordered(d)[0])
    }
}

impl<V: Duplicate> Clone for Table<V> {
    fn clone(&self) -> (r: Table<V>)
        ensures
            r@ == self@,
    {
        let keys = self.keys();
        let mut r: Table<V> = Table::new();
        let mut i: usize = 0;
        assert(keys@.take(0).to_set() =~= Set::<u64>::empty());
        assert(r@ =~= self@.restrict(keys@.take(0).to_set()));
        while i < keys.len()
            invariant
                i <= keys@.len(),
                lists(keys@, self@.dom()),
                r@ == self@.restrict(keys@.take(i as int).to_set()),
            decreases keys@.len() - i,
        {
            let k = keys[i];
            assert(keys@.contains(k));
            match self.get(k) {
                Some(v) => {
                    r.insert(k, v.duplicate());
                },
                None => {},
            }
            proof {
                let shorter = keys@.take(i as int);
                let longer = keys@.take(i as int + 1);
                assert(longer =~= shorter.push(k));
                assert forall|x: u64| longer.to_set().contains(x) <==> (shorter.to_set().contains(x)
                    || x == k) by {
                    if longer.contains(x) {
                        let j = choose|j: int| 0 <= j < longer.len() && longer[j] == x;
                        if j < i {
                            assert(shorter[j] == x);
                        }
                    }
                    if shorter.contains(x) {
                        let j = choose|j: int| 0 <= j < shorter.len() && shorter[j] == x;
                        assert(longer[j] == x);
                    }
                    assert(longer[i as int] == k);
                }
                assert(r@ =~= self@.restrict(longer.to_set()));
            }
            i = i + 1;
        }
        proof {
            assert(keys@.take(i as int) =~= keys@);
            assert(self@.restrict(keys@.to_set()) =~= self@);
        }
        r
    }
}

} // verus!
