//! Sets of ticks held as interval sets of the `intervallum` crate.
//!
//! An interval set is read through the runs it holds: inclusive pairs
//! `(lower, upper)`. The sets made here are always canonical: the runs are
//! sorted, non-empty, and separated by at least one missing tick.
use vstd::prelude::*;
use gcollections::ops::{Bounded, Intersection, Union};
use interval::interval_set::ToIntervalSet;
use interval::IntervalSet;

verus! {

/// A set of ticks: an interval set of `u32` of the `intervallum` crate.
#[verifier::external_body]
#[derive(Debug, PartialEq, Eq)]
pub struct TickSet {
    set: IntervalSet<u32>,
}

/// The runs a tick set holds, in order, as inclusive pairs.
pub uninterp spec fn interval_runs(s: TickSet) -> Seq<(u32, u32)>;

/// Runs are canonical: each is non-empty, and each ends more than one tick
/// before the next starts.
pub open spec fn runs_canonical(r: Seq<(u32, u32)>) -> bool {
    &&& forall|i: int| 0 <= i < r.len() ==> (#[trigger] r[i]).0 <= r[i].1
    &&& forall|i: int, j: int| 0 <= i < j < r.len() ==> (#[trigger] r[i]).1 + 1 < (#[trigger] r[j]).0
}

/// Whether tick `t` lies in one of the runs.
pub open spec fn runs_cover(r: Seq<(u32, u32)>, t: u32) -> bool {
    exists|i: int| 0 <= i < r.len() && (#[trigger] r[i]).0 <= t <= r[i].1
}

/// The ticks that the runs cover.
pub open spec fn runs_set(r: Seq<(u32, u32)>) -> Set<u32> {
    Set::new(|t: u32| runs_cover(r, t))
}

/// The ticks from `lo` to `hi`, both included.
pub open spec fn tick_range(lo: int, hi: int) -> Set<u32> {
    Set::new(|t: u32| lo <= t <= hi)
}

/// The ticks an interval set holds.
pub open spec fn tick_set(s: TickSet) -> Set<u32> {
    runs_set(interval_runs(s))
}

/// The canonical runs of a set of ticks, where it has them.
pub open spec fn canonical_runs(s: Set<u32>) -> Seq<(u32, u32)> {
    choose|r: Seq<(u32, u32)>| runs_canonical(r) && runs_set(r) == s
}

/// Two canonical run sequences that cover the same ticks are the same.
pub proof fn lemma_runs_unique(a: Seq<(u32, u32)>, b: Seq<(u32, u32)>)
    requires
        runs_canonical(a),
        runs_canonical(b),
        runs_set(a) == runs_set(b),
    ensures
        a == b,
    decreases a.len() + b.len(),
{
    if a.len() == 0 || b.len() == 0 {
        if a.len() > 0 {
            assert(runs_set(a).contains(a[0].0));
            let j = choose|j: int| 0 <= j < b.len() && (#[trigger] b[j]).0 <= a[0].0 <= b[j].1;
        }
        if b.len() > 0 {
            assert(runs_set(b).contains(b[0].0));
            let j = choose|j: int| 0 <= j < a.len() && (#[trigger] a[j]).0 <= b[0].0 <= a[j].1;
        }
        assert(a =~= b);
    } else {
        // The first runs start at the least tick.
        assert(runs_set(a).contains(a[0].0));
        assert(runs_set(b).contains(a[0].0));
        let jb = choose|j: int| 0 <= j < b.len() && (#[trigger] b[j]).0 <= a[0].0 <= b[j].1;
        assert(runs_set(a).contains(b[0].0));
        let ja = choose|j: int| 0 <= j < a.len() && (#[trigger] a[j]).0 <= b[0].0 <= a[j].1;
        if jb > 0 {
            assert(b[0].1 + 1 < b[jb].0);
        }
        if ja > 0 {
            assert(a[0].1 + 1 < a[ja].0);
        }
        assert(a[0].0 == b[0].0);
        // The first runs end where the first gap begins.
        if a[0].1 < b[0].1 {
            let t = (a[0].1 + 1) as u32;
            assert(runs_set(b).contains(t)) by {
                assert(b[0].0 <= t <= b[0].1);
            }
            assert(runs_set(a).contains(t));
            let i = choose|i: int| 0 <= i < a.len() && (#[trigger] a[i]).0 <= t <= a[i].1;
            if i > 0 {
                assert(a[0].1 + 1 < a[i].0);
            }
            assert(false);
        }
        if b[0].1 < a[0].1 {
            let t = (b[0].1 + 1) as u32;
            assert(runs_set(a).contains(t)) by {
                assert(a[0].0 <= t <= a[0].1);
            }
            assert(runs_set(b).contains(t));
            let i = choose|i: int| 0 <= i < b.len() && (#[trigger] b[i]).0 <= t <= b[i].1;
            if i > 0 {
                assert(b[0].1 + 1 < b[i].0);
            }
            assert(false);
        }
        let ra = a.drop_first();
        let rb = b.drop_first();
        assert(runs_canonical(ra)) by {
            assert forall|i: int, j: int| 0 <= i < j < ra.len() implies (#[trigger] ra[i]).1 + 1 < (#[trigger] ra[j]).0 by {
                assert(ra[i] == a[i + 1] && ra[j] == a[j + 1]);
            }
            assert forall|i: int| 0 <= i < ra.len() implies (#[trigger] ra[i]).0 <= ra[i].1 by {
                assert(ra[i] == a[i + 1]);
            }
        }
        assert(runs_canonical(rb)) by {
            assert forall|i: int, j: int| 0 <= i < j < rb.len() implies (#[trigger] rb[i]).1 + 1 < (#[trigger] rb[j]).0 by {
                assert(rb[i] == b[i + 1] && rb[j] == b[j + 1]);
            }
            assert forall|i: int| 0 <= i < rb.len() implies (#[trigger] rb[i]).0 <= rb[i].1 by {
                assert(rb[i] == b[i + 1]);
            }
        }
        assert(a[0].1 == b[0].1);
        assert forall|t: u32| runs_set(ra).contains(t) <==> runs_set(rb).contains(t) by {
            lemma_rest_cover(a, t);
            lemma_rest_cover(b, t);
            assert(runs_set(a).contains(t) == runs_cover(a, t));
            assert(runs_set(b).contains(t) == runs_cover(b, t));
            assert(runs_set(a).contains(t) == runs_set(b).contains(t));
            assert(runs_set(ra).contains(t) == runs_cover(ra, t));
            assert(runs_set(rb).contains(t) == runs_cover(rb, t));
        }
        assert(runs_set(ra) =~= runs_set(rb));
        lemma_runs_unique(ra, rb);
        assert(a =~= seq![a[0]] + ra);
        assert(b =~= seq![b[0]] + rb);
    }
}

/// Without its first run, a canonical sequence covers the ticks above that run.
proof fn lemma_rest_cover(a: Seq<(u32, u32)>, t: u32)
    requires
        runs_canonical(a),
        a.len() > 0,
    ensures
        runs_cover(a.drop_first(), t) <==> (runs_cover(a, t) && t > a[0].1),
{
    let ra = a.drop_first();
    if runs_cover(ra, t) {
        let i = choose|i: int| 0 <= i < ra.len() && (#[trigger] ra[i]).0 <= t <= ra[i].1;
        assert(ra[i] == a[i + 1]);
        assert(a[0].1 + 1 < a[i + 1].0);
        assert(runs_cover(a, t));
    }
    if runs_cover(a, t) && t > a[0].1 {
        let i = choose|i: int| 0 <= i < a.len() && (#[trigger] a[i]).0 <= t <= a[i].1;
        assert(i > 0);
        assert(ra[i - 1] == a[i]);
        assert(runs_cover(ra, t));
    }
}

/// Every run of a canonical sequence covering only ticks below `u32::MAX`
/// ends below `u32::MAX`.
pub proof fn lemma_runs_below_max(r: Seq<(u32, u32)>, i: int)
    requires
        runs_canonical(r),
        !runs_set(r).contains(u32::MAX),
        0 <= i < r.len(),
    ensures
        r[i].1 < u32::MAX,
{
    if r[i].1 == u32::MAX {
        assert(runs_cover(r, u32::MAX));
    }
}

/// The canonical runs of the ticks an interval set holds are its runs.
pub proof fn lemma_canonical_runs_of(r: Seq<(u32, u32)>)
    requires
        runs_canonical(r),
    ensures
        canonical_runs(runs_set(r)) == r,
{
    let c = canonical_runs(runs_set(r));
    assert(runs_canonical(r) && runs_set(r) == runs_set(r));
    lemma_runs_unique(c, r);
}

impl TickSet {
    /// The runs of this set, in order, as inclusive pairs.
    pub fn runs(&self) -> (r: Vec<(u32, u32)>)
        ensures
            r@ == interval_runs(*self),
    {
        tick_set_runs(self)
    }
}

/// `IntervalSet::to_interval_set` on a vector of inclusive pairs: the set
/// holds the ticks of all pairs, as canonical runs. Each pair must be
/// non-empty and end below `u32::MAX`, the crate's upper bound for `u32`.
#[verifier::external_body]
pub(crate) fn tick_set_from_pairs(pairs: Vec<(u32, u32)>) -> (r: TickSet)
    requires
        forall|i: int| 0 <= i < pairs.len() ==> (#[trigger] pairs[i]).0 <= pairs[i].1 && pairs[i].1 < u32::MAX,
    ensures
        runs_canonical(interval_runs(r)),
        tick_set(r) == runs_set(pairs@),
{
    TickSet { set: pairs.to_interval_set() }
}

/// `Intersection::intersection` of two interval sets: the ticks in both, as
/// canonical runs.
#[verifier::external_body]
pub(crate) fn tick_set_intersection(a: &TickSet, b: &TickSet) -> (r: TickSet)
    requires
        runs_canonical(interval_runs(*a)),
        runs_canonical(interval_runs(*b)),
    ensures
        runs_canonical(interval_runs(r)),
        tick_set(r) == tick_set(*a).intersect(tick_set(*b)),
{
    TickSet { set: a.set.intersection(&b.set) }
}

/// `Union::union` of two interval sets: the ticks in either, as canonical
/// runs.
#[verifier::external_body]
pub(crate) fn tick_set_union(a: &TickSet, b: &TickSet) -> (r: TickSet)
    requires
        runs_canonical(interval_runs(*a)),
        runs_canonical(interval_runs(*b)),
    ensures
        runs_canonical(interval_runs(r)),
        tick_set(r) == tick_set(*a).union(tick_set(*b)),
{
    TickSet { set: a.set.union(&b.set) }
}

/// `IntervalSet::iter`: the runs of an interval set, each as its lower and
/// upper bound.
#[verifier::external_body]
pub(crate) fn tick_set_runs(s: &TickSet) -> (r: Vec<(u32, u32)>)
    ensures
        r@ == interval_runs(*s),
{
    s.set.iter().map(|i| (i.lower(), i.upper())).collect()
}

} // verus!
