//! Sequence edits that a terminal performs on its rows and on the cells of a
//! row: open a gap, close a gap, and overwrite a stretch. Each edit keeps the
//! length of the sequence.
use vstd::prelude::*;

verus! {

/// `s` with `n` copies of `fill` pushed in at `at`; what is pushed past `end`
/// is lost, and nothing outside `at..end` moves.
pub open spec fn open_gap<A>(s: Seq<A>, at: int, end: int, n: int, fill: A) -> Seq<A> {
    Seq::new(
        s.len(),
        |i: int|
            if at <= i < end {
                if i < at + n {
                    fill
                } else {
                    s[i - n]
                }
            } else {
                s[i]
            },
    )
}

/// `s` with `n` items taken out at `at`; what follows up to `end` moves in,
/// the freed places before `end` hold `fill`, and nothing outside `at..end`
/// moves.
pub open spec fn close_gap<A>(s: Seq<A>, at: int, end: int, n: int, fill: A) -> Seq<A> {
    Seq::new(
        s.len(),
        |i: int|
            if at <= i < end {
                if i + n < end {
                    s[i + n]
                } else {
                    fill
                }
            } else {
                s[i]
            },
    )
}

/// `s` with every place of `from..to` holding `fill`.
pub open spec fn fill_range<A>(s: Seq<A>, from: int, to: int, fill: A) -> Seq<A> {
    Seq::new(
        s.len(),
        |i: int|
            if from <= i < to {
                fill
            } else {
                s[i]
            },
    )
}

/// A sequence of `n` copies of `x`.
pub open spec fn repeat<A>(x: A, n: nat) -> Seq<A> {
    Seq::new(n, |i: int| x)
}

/// The views of a sequence of vectors.
pub open spec fn views<A>(s: Seq<Vec<A>>) -> Seq<Seq<A>> {
    Seq::new(s.len(), |i: int| s[i]@)
}

/// The lesser of two integers.
pub open spec fn imin(a: int, b: int) -> int {
    if a <= b {
        a
    } else {
        b
    }
}

/// The lesser of two sizes.
pub fn min_usize(a: usize, b: usize) -> (r: usize)
    ensures
        r == imin(a as int, b as int),
{
    if a <= b {
        a
    } else {
        b
    }
}

pub proof fn lemma_open_gap_step<A>(s: Seq<A>, at: int, end: int, n: int, fill: A)
    requires
        0 <= at < end <= s.len(),
        0 <= n,
    ensures
        open_gap(s, at, end, n, fill).insert(at, fill).remove(end) == open_gap(
            s,
            at,
            end,
            n + 1,
            fill,
        ),
{
    assert(open_gap(s, at, end, n, fill).insert(at, fill).remove(end) =~= open_gap(
        s,
        at,
        end,
        n + 1,
        fill,
    ));
}

pub proof fn lemma_close_gap_step<A>(s: Seq<A>, at: int, end: int, n: int, fill: A)
    requires
        0 <= at < end <= s.len(),
        0 <= n,
    ensures
        close_gap(s, at, end, n, fill).remove(at).insert(end - 1, fill) == close_gap(
            s,
            at,
            end,
            n + 1,
            fill,
        ),
{
    assert(close_gap(s, at, end, n, fill).remove(at).insert(end - 1, fill) =~= close_gap(
        s,
        at,
        end,
        n + 1,
        fill,
    ));
}

/// A gap wider than the stretch it opens in blanks the stretch, however wide.
pub proof fn lemma_open_gap_saturates<A>(s: Seq<A>, at: int, end: int, n: int, fill: A)
    requires
        0 <= at <= end <= s.len(),
        n >= end - at,
    ensures
        open_gap(s, at, end, n, fill) == open_gap(s, at, end, end - at, fill),
        open_gap(s, at, end, n, fill) == fill_range(s, at, end, fill),
{
    assert(open_gap(s, at, end, n, fill) =~= open_gap(s, at, end, end - at, fill));
    assert(open_gap(s, at, end, n, fill) =~= fill_range(s, at, end, fill));
}

/// Taking out more than a stretch holds blanks the stretch, however much more.
pub proof fn lemma_close_gap_saturates<A>(s: Seq<A>, at: int, end: int, n: int, fill: A)
    requires
        0 <= at <= end <= s.len(),
        n >= end - at,
    ensures
        close_gap(s, at, end, n, fill) == close_gap(s, at, end, end - at, fill),
        close_gap(s, at, end, n, fill) == fill_range(s, at, end, fill),
{
    assert(close_gap(s, at, end, n, fill) =~= close_gap(s, at, end, end - at, fill));
    assert(close_gap(s, at, end, n, fill) =~= fill_range(s, at, end, fill));
}

/// A vector of `n` copies of `x`.
pub fn repeated<A: Copy>(x: A, n: usize) -> (v: Vec<A>)
    ensures
        v@ == repeat(x, n as nat),
{
    let mut v: Vec<A> = Vec::with_capacity(n);
    let mut i: usize = 0;
    while i < n
        invariant
            i <= n,
            v@ == repeat(x, i as nat),
        decreases n - i,
    {
        v.push(x);
        i = i + 1;
        assert(v@ =~= repeat(x, i as nat));
    }
    v
}

/// Opens a gap of `n` places at `at` in a vector of copyable items.
pub fn vec_open_gap<A: Copy>(v: &mut Vec<A>, at: usize, end: usize, n: usize, fill: A)
    requires
        at <= end <= old(v)@.len(),
    ensures
        final(v)@ == open_gap(old(v)@, at as int, end as int, n as int, fill),
{
    let width: usize = end - at;
    let k: usize = min_usize(n, width);
    let ghost s = v@;
    let mut i: usize = 0;
    assert(v@ =~= open_gap(s, at as int, end as int, 0, fill));
    while i < k
        invariant
            i <= k <= end - at,
            at <= end <= s.len(),
            v@ == open_gap(s, at as int, end as int, i as int, fill),
        decreases k - i,
    {
        proof {
            lemma_open_gap_step(s, at as int, end as int, i as int, fill);
        }
        v.insert(at, fill);
        v.remove(end);
        i = i + 1;
    }
    proof {
        if n > end - at {
            lemma_open_gap_saturates(s, at as int, end as int, n as int, fill);
        }
    }
}

/// Takes `n` places out at `at` in a vector of copyable items.
pub fn vec_close_gap<A: Copy>(v: &mut Vec<A>, at: usize, end: usize, n: usize, fill: A)
    requires
        at <= end <= old(v)@.len(),
    ensures
        final(v)@ == close_gap(old(v)@, at as int, end as int, n as int, fill),
{
    let width: usize = end - at;
    let k: usize = min_usize(n, width);
    let ghost s = v@;
    let mut i: usize = 0;
    assert(v@ =~= close_gap(s, at as int, end as int, 0, fill));
    while i < k
        invariant
            i <= k <= end - at,
            at <= end <= s.len(),
            v@ == close_gap(s, at as int, end as int, i as int, fill),
        decreases k - i,
    {
        proof {
            lemma_close_gap_step(s, at as int, end as int, i as int, fill);
        }
        v.remove(at);
        v.insert(end - 1, fill);
        i = i + 1;
    }
    proof {
        if n > end - at {
            lemma_close_gap_saturates(s, at as int, end as int, n as int, fill);
        }
    }
}

/// Overwrites `from..to` of a vector with `fill`; a stretch that runs past the
/// end stops there.
pub fn vec_fill<A: Copy>(v: &mut Vec<A>, from: usize, to: usize, fill: A)
    ensures
        final(v)@ == fill_range(old(v)@, from as int, to as int, fill),
{
    let stop: usize = min_usize(to, v.len());
    let ghost s = v@;
    let mut i: usize = from;
    assert(v@ =~= fill_range(s, from as int, from as int, fill));
    while i < stop
        invariant
            from <= i,
            i <= stop || i == from,
            stop == imin(to as int, s.len() as int),
            v@ == fill_range(s, from as int, i as int, fill),
        decreases stop - i,
    {
        v[i] = fill;
        i = i + 1;
        assert(v@ =~= fill_range(s, from as int, i as int, fill));
    }
    assert(v@ =~= fill_range(s, from as int, to as int, fill));
}

/// A copy of a vector of copyable items.
pub fn copied<A: Copy>(v: &Vec<A>) -> (r: Vec<A>)
    ensures
        r@ == v@,
{
    vstd::slice::slice_to_vec(v.as_slice())
}

/// A copy of a vector of vectors of copyable items.
pub fn copied_rows<A: Copy>(v: &Vec<Vec<A>>) -> (r: Vec<Vec<A>>)
    ensures
        views(r@) == views(v@),
{
    let mut r: Vec<Vec<A>> = Vec::with_capacity(v.len());
    let mut i: usize = 0;
    while i < v.len()
        invariant
            i <= v@.len(),
            r@.len() == i,
            forall|j: int| 0 <= j < i ==> (#[trigger] r@[j])@ == v@[j]@,
        decreases v@.len() - i,
    {
        r.push(copied(&v[i]));
        i = i + 1;
    }
    assert(views(r@) =~= views(v@));
    r
}

} // verus!
