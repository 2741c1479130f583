use vstd::prelude::*;
use crate::version::Version;

verus! {

/// One endpoint of a version interval.
#[derive(Clone, Copy, Debug, PartialEq, Eq, Structural)]
pub enum VersionBound {
    Unbounded,
    Included(Version),
    Excluded(Version),
}

/// Whether a lower bound admits `v`.
pub open spec fn lo_admits(b: VersionBound, v: Version) -> bool {
    match b {
        VersionBound::Unbounded => true,
        VersionBound::Included(x) => !v.spec_lt(x),
        VersionBound::Excluded(x) => x.spec_lt(v),
    }
}

/// Whether an upper bound admits `v`.
pub open spec fn hi_admits(b: VersionBound, v: Version) -> bool {
    match b {
        VersionBound::Unbounded => true,
        VersionBound::Included(x) => !x.spec_lt(v),
        VersionBound::Excluded(x) => v.spec_lt(x),
    }
}

/// A contiguous interval of versions.
#[derive(Clone, Copy, Debug, PartialEq, Eq, Structural)]
pub struct VersionInterval {
    pub lo: VersionBound,
    pub hi: VersionBound,
}

impl VersionInterval {
    pub open spec fn spec_contains(self, v: Version) -> bool {
        lo_admits(self.lo, v) && hi_admits(self.hi, v)
    }
}

/// The stricter of two lower bounds: admits exactly the versions both admit.
fn stricter_lo(a: VersionBound, b: VersionBound) -> (r: VersionBound)
    ensures
        forall|v: Version| lo_admits(r, v) == (lo_admits(a, v) && lo_admits(b, v)),
{
    match (a, b) {
        (VersionBound::Unbounded, other) => other,
        (other, VersionBound::Unbounded) => other,
        (VersionBound::Included(x), VersionBound::Included(y)) => {
            if x.lt(&y) { VersionBound::Included(y) } else { VersionBound::Included(x) }
        }
        (VersionBound::Excluded(x), VersionBound::Excluded(y)) => {
            if x.lt(&y) { VersionBound::Excluded(y) } else { VersionBound::Excluded(x) }
        }
        (VersionBound::Included(x), VersionBound::Excluded(y)) => {
            if y.lt(&x) { VersionBound::Included(x) } else { VersionBound::Excluded(y) }
        }
        (VersionBound::Excluded(x), VersionBound::Included(y)) => {
            if x.lt(&y) { VersionBound::Included(y) } else { VersionBound::Excluded(x) }
        }
    }
}

/// The stricter of two upper bounds: admits exactly the versions both admit.
fn stricter_hi(a: VersionBound, b: VersionBound) -> (r: VersionBound)
    ensures
        forall|v: Version| hi_admits(r, v) == (hi_admits(a, v) && hi_admits(b, v)),
{
    match (a, b) {
        (VersionBound::Unbounded, other) => other,
        (other, VersionBound::Unbounded) => other,
        (VersionBound::Included(x), VersionBound::Included(y)) => {
            if x.lt(&y) { VersionBound::Included(x) } else { VersionBound::Included(y) }
        }
        (VersionBound::Excluded(x), VersionBound::Excluded(y)) => {
            if x.lt(&y) { VersionBound::Excluded(x) } else { VersionBound::Excluded(y) }
        }
        (VersionBound::Included(x), VersionBound::Excluded(y)) => {
            if x.lt(&y) { VersionBound::Included(x) } else { VersionBound::Excluded(y) }
        }
        (VersionBound::Excluded(x), VersionBound::Included(y)) => {
            if y.lt(&x) { VersionBound::Included(y) } else { VersionBound::Excluded(x) }
        }
    }
}

/// Whether some interval of `ivs` contains `v`.
pub open spec fn ivs_contain(ivs: Seq<VersionInterval>, v: Version) -> bool {
    exists|i: int| 0 <= i < ivs.len() && ivs[i].spec_contains(v)
}

/// A range of one interval.
fn single(iv: VersionInterval) -> (r: VersionRange)
    ensures
        forall|v: Version| r.spec_contains(v) == iv.spec_contains(v),
{
    let mut intervals: Vec<VersionInterval> = Vec::new();
    intervals.push(iv);
    proof {
        assert forall|v: Version| #[trigger] ivs_contain(intervals@, v) == iv.spec_contains(v) by {
            if iv.spec_contains(v) {
                assert(intervals@[0].spec_contains(v));
            }
        }
    }
    VersionRange { intervals }
}

/// An ordered, possibly-disjoint set of version intervals; the range of
/// versions it allows is the union of its intervals.
#[derive(Clone, Debug)]
pub struct VersionRange {
    pub intervals: Vec<VersionInterval>,
}

impl VersionRange {
    pub open spec fn spec_contains(self, v: Version) -> bool {
        ivs_contain(self.intervals@, v)
    }

    /// The empty range: allows nothing.
    pub fn none() -> (r: VersionRange)
        ensures
            forall|v: Version| !r.spec_contains(v),
    {
        VersionRange { intervals: Vec::new() }
    }

    /// The full range: allows every version.
    pub fn any() -> (r: VersionRange)
        ensures
            forall|v: Version| r.spec_contains(v),
    {
        single(VersionInterval { lo: VersionBound::Unbounded, hi: VersionBound::Unbounded })
    }

    /// The range that allows exactly `v`.
    pub fn exact(v: Version) -> (r: VersionRange)
        ensures
            forall|u: Version| u.wf() && v.wf() ==> r.spec_contains(u) == (u == v),
            r.spec_contains(v),
    {
        let r = single(
            VersionInterval { lo: VersionBound::Included(v), hi: VersionBound::Included(v) },
        );
        proof {
            assert forall|u: Version| u.wf() && v.wf() implies #[trigger] r.spec_contains(u) == (u
                == v) by {
                crate::version::lemma_version_order(u, v, v);
            }
        }
        r
    }

    /// The range of versions greater than or equal to `v`.
    pub fn at_least(v: Version) -> (r: VersionRange)
        ensures
            forall|u: Version| r.spec_contains(u) == !u.spec_lt(v),
    {
        single(VersionInterval { lo: VersionBound::Included(v), hi: VersionBound::Unbounded })
    }

    /// The range of versions strictly earlier than `v`.
    pub fn earlier_than(v: Version) -> (r: VersionRange)
        ensures
            forall|u: Version| r.spec_contains(u) == u.spec_lt(v),
    {
        single(VersionInterval { lo: VersionBound::Unbounded, hi: VersionBound::Excluded(v) })
    }

    /// A copy with the same intervals.
    pub fn duplicate(&self) -> (r: VersionRange)
        ensures
            r.intervals@ == self.intervals@,
    {
        let mut intervals: Vec<VersionInterval> = Vec::new();
        let mut i: usize = 0;
        while i < self.intervals.len()
            invariant
                0 <= i <= self.intervals@.len(),
                intervals@ =~= self.intervals@.take(i as int),
            decreases self.intervals@.len() - i,
        {
            intervals.push(self.intervals[i]);
            i += 1;
        }
        proof {
            assert(intervals@ =~= self.intervals@);
        }
        VersionRange { intervals }
    }

    /// Containment test.
    pub fn contains(&self, v: &Version) -> (r: bool)
        ensures
            r == self.spec_contains(*v),
    {
        let mut i: usize = 0;
        while i < self.intervals.len()
            invariant
                0 <= i <= self.intervals@.len(),
                forall|k: int| 0 <= k < i ==> !self.intervals@[k].spec_contains(*v),
            decreases self.intervals@.len() - i,
        {
            let iv = self.intervals[i];
            let lo_ok = match iv.lo {
                VersionBound::Unbounded => true,
                VersionBound::Included(x) => !v.lt(&x),
                VersionBound::Excluded(x) => x.lt(v),
            };
            let hi_ok = match iv.hi {
                VersionBound::Unbounded => true,
                VersionBound::Included(x) => !x.lt(v),
                VersionBound::Excluded(x) => v.lt(&x),
            };
            if lo_ok && hi_ok {
                return true;
            }
            i += 1;
        }
        false
    }

    /// Union: allows exactly what either range allows.
    pub fn union(&self, other: &VersionRange) -> (r: VersionRange)
        ensures
            forall|v: Version|
                r.spec_contains(v) == (self.spec_contains(v) || other.spec_contains(v)),
    {
        let mut intervals: Vec<VersionInterval> = Vec::new();
        let mut i: usize = 0;
        while i < self.intervals.len()
            invariant
                0 <= i <= self.intervals@.len(),
                intervals@ =~= self.intervals@.take(i as int),
            decreases self.intervals@.len() - i,
        {
            intervals.push(self.intervals[i]);
            i += 1;
        }
        let mut j: usize = 0;
        while j < other.intervals.len()
            invariant
                0 <= j <= other.intervals@.len(),
                intervals@ =~= self.intervals@ + other.intervals@.take(j as int),
            decreases other.intervals@.len() - j,
        {
            intervals.push(other.intervals[j]);
            j += 1;
        }
        proof {
            assert(intervals@ =~= self.intervals@ + other.intervals@);
        }
        let r = VersionRange { intervals };
        proof {
            assert forall|v: Version| r.spec_contains(v) == (self.spec_contains(v)
                || other.spec_contains(v)) by {
                if self.spec_contains(v) {
                    let i = choose|i: int|
                        0 <= i < self.intervals@.len() && self.intervals@[i].spec_contains(v);
                    assert(r.intervals@[i].spec_contains(v));
                }
                if other.spec_contains(v) {
                    let i = choose|i: int|
                        0 <= i < other.intervals@.len() && other.intervals@[i].spec_contains(v);
                    assert(r.intervals@[self.intervals@.len() + i].spec_contains(v));
                }
                if r.spec_contains(v) {
                    let i = choose|i: int|
                        0 <= i < r.intervals@.len() && r.intervals@[i].spec_contains(v);
                    if i < self.intervals@.len() {
                        assert(self.intervals@[i].spec_contains(v));
                    } else {
                        assert(other.intervals@[i - self.intervals@.len()].spec_contains(v));
                    }
                }
            }
        }
        r
    }

    /// Intersection: allows exactly what both ranges allow.
    pub fn intersection(&self, other: &VersionRange) -> (r: VersionRange)
        ensures
            forall|v: Version|
                r.spec_contains(v) == (self.spec_contains(v) && other.spec_contains(v)),
    {
        let mut intervals: Vec<VersionInterval> = Vec::new();
        let mut i: usize = 0;
        while i < self.intervals.len()
            invariant
                0 <= i <= self.intervals@.len(),
                forall|v: Version| #[trigger] ivs_contain(intervals@, v)
                    ==> (self.spec_contains(v) && other.spec_contains(v)),
                forall|v: Version, a: int, b: int|
                    0 <= a < i && 0 <= b < other.intervals@.len()
                        && #[trigger] self.intervals@[a].spec_contains(v)
                        && #[trigger] other.intervals@[b].spec_contains(v)
                        ==> ivs_contain(intervals@, v),
            decreases self.intervals@.len() - i,
        {
            let a = self.intervals[i];
            let mut j: usize = 0;
            while j < other.intervals.len()
                invariant
                    0 <= i < self.intervals@.len(),
                    0 <= j <= other.intervals@.len(),
                    a == self.intervals@[i as int],
                    forall|v: Version| #[trigger] ivs_contain(intervals@, v)
                        ==> (self.spec_contains(v) && other.spec_contains(v)),
                    forall|v: Version, x: int, y: int|
                        0 <= x < i && 0 <= y < other.intervals@.len()
                            && #[trigger] self.intervals@[x].spec_contains(v)
                            && #[trigger] other.intervals@[y].spec_contains(v)
                            ==> ivs_contain(intervals@, v),
                    forall|v: Version, y: int|
                        0 <= y < j && a.spec_contains(v)
                            && #[trigger] other.intervals@[y].spec_contains(v)
                            ==> ivs_contain(intervals@, v),
                decreases other.intervals@.len() - j,
            {
                let b = other.intervals[j];
                let lo = stricter_lo(a.lo, b.lo);
                let hi = stricter_hi(a.hi, b.hi);
                let ghost before = intervals@;
                intervals.push(VersionInterval { lo, hi });
                proof {
                    assert forall|v: Version| #[trigger] ivs_contain(before, v)
                        implies ivs_contain(intervals@, v) by {
                        let k = choose|k: int|
                            0 <= k < before.len() && before[k].spec_contains(v);
                        assert(intervals@[k].spec_contains(v));
                    }
                    assert forall|v: Version|
                        a.spec_contains(v) && b.spec_contains(v) implies ivs_contain(
                        intervals@, v) by {
                        assert(intervals@[intervals@.len() - 1].spec_contains(v));
                    }
                    assert forall|v: Version| #[trigger] ivs_contain(intervals@, v) implies (
                    self.spec_contains(v) && other.spec_contains(v)) by {
                        let k = choose|k: int|
                            0 <= k < intervals@.len() && intervals@[k].spec_contains(v);
                        if k < before.len() {
                            assert(before[k].spec_contains(v));
                            assert(ivs_contain(before, v));
                        } else {
                            assert(a.spec_contains(v) && b.spec_contains(v));
                            assert(self.intervals@[i as int].spec_contains(v));
                            assert(other.intervals@[j as int].spec_contains(v));
                        }
                    }
                }
                j += 1;
            }
            i += 1;
        }
        let r = VersionRange { intervals };
        proof {
            assert forall|v: Version|
                r.spec_contains(v) == (self.spec_contains(v) && other.spec_contains(v)) by {
                if self.spec_contains(v) && other.spec_contains(v) {
                    let x = choose|x: int|
                        0 <= x < self.intervals@.len() && self.intervals@[x].spec_contains(v);
                    let y = choose|y: int|
                        0 <= y < other.intervals@.len() && other.intervals@[y].spec_contains(v);
                    assert(self.intervals@[x].spec_contains(v)
                        && other.intervals@[y].spec_contains(v));
                }
            }
        }
        r
    }

    /// Complement: allows exactly what this range does not.
    pub fn complement(&self) -> (r: VersionRange)
        ensures
            forall|v: Version| r.spec_contains(v) == !self.spec_contains(v),
    {
        let mut acc = VersionRange::any();
        let mut i: usize = 0;
        while i < self.intervals.len()
            invariant
                0 <= i <= self.intervals@.len(),
                forall|v: Version| #[trigger] acc.spec_contains(v)
                    == (forall|k: int| 0 <= k < i ==> !self.intervals@[k].spec_contains(v)),
            decreases self.intervals@.len() - i,
        {
            let iv = self.intervals[i];
            let mut piece: Vec<VersionInterval> = Vec::new();
            match iv.lo {
                VersionBound::Unbounded => {}
                VersionBound::Included(x) => {
                    piece.push(
                        VersionInterval {
                            lo: VersionBound::Unbounded,
                            hi: VersionBound::Excluded(x),
                        },
                    );
                }
                VersionBound::Excluded(x) => {
                    piece.push(
                        VersionInterval {
                            lo: VersionBound::Unbounded,
                            hi: VersionBound::Included(x),
                        },
                    );
                }
            }
            match iv.hi {
                VersionBound::Unbounded => {}
                VersionBound::Included(x) => {
                    piece.push(
                        VersionInterval {
                            lo: VersionBound::Excluded(x),
                            hi: VersionBound::Unbounded,
                        },
                    );
                }
                VersionBound::Excluded(x) => {
                    piece.push(
                        VersionInterval {
                            lo: VersionBound::Included(x),
                            hi: VersionBound::Unbounded,
                        },
                    );
                }
            }
            let piece_range = VersionRange { intervals: piece };
            proof {
                assert forall|v: Version|
                    piece_range.spec_contains(v) == !iv.spec_contains(v) by {
                    if piece_range.spec_contains(v) {
                        let k = choose|k: int|
                            0 <= k < piece_range.intervals@.len()
                                && piece_range.intervals@[k].spec_contains(v);
                        assert(!iv.spec_contains(v));
                    }
                    if !iv.spec_contains(v) {
                        if !lo_admits(iv.lo, v) {
                            assert(piece_range.intervals@[0].spec_contains(v));
                        } else {
                            assert(!hi_admits(iv.hi, v));
                            assert(piece_range.intervals@[piece_range.intervals@.len()
                                - 1].spec_contains(v));
                        }
                    }
                }
            }
            acc = acc.intersection(&piece_range);
            i += 1;
        }
        proof {
            assert forall|v: Version| acc.spec_contains(v) == !self.spec_contains(v) by {
                if !acc.spec_contains(v) {
                    let k = choose|k: int|
                        0 <= k < self.intervals@.len() && self.intervals@[k].spec_contains(v);
                    assert(self.spec_contains(v));
                }
            }
        }
        acc
    }
}

} // verus!
