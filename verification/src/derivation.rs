use vstd::prelude::*;
use crate::package::{PkgView, PubGrubPackage};
use crate::range::VersionRange;

verus! {

/// An incompatibility known from outside the derivation: a package/range
/// term that cannot hold, with its reason.
#[derive(Clone, Debug)]
pub enum External {
    /// No version of the package in the range could be offered.
    NoVersions(PubGrubPackage, VersionRange),
    /// Every version of the first package in the first range depends on the
    /// second package in the second range.
    FromDependencyOf(PubGrubPackage, VersionRange, PubGrubPackage, VersionRange),
}

/// A proof tree of incompatibilities: leaves are external incompatibilities,
/// internal nodes are incompatibilities derived from exactly two children,
/// and the root proves the requirement set unsatisfiable. Built only on
/// failure; immutable once constructed. Strictly acyclic: an owned tree of
/// tagged variants, never a graph with back-edges.
#[derive(Debug)]
pub enum DerivationTree {
    External(External),
    Derived {
        /// The package/range terms that cannot all hold, given the children.
        terms: Vec<(PubGrubPackage, VersionRange)>,
        cause1: Box<DerivationTree>,
        cause2: Box<DerivationTree>,
    },
}

impl External {
    /// Whether the leaf mentions the package identity `p`.
    pub open spec fn mentions(self, p: PkgView) -> bool {
        match self {
            External::NoVersions(q, _) => q@ == p,
            External::FromDependencyOf(q1, _, q2, _) => q1@ == p || q2@ == p,
        }
    }
}

impl DerivationTree {
    /// Whether the tree mentions the package identity `p` anywhere.
    pub open spec fn mentions(self, p: PkgView) -> bool
        decreases self,
    {
        match self {
            DerivationTree::External(e) => e.mentions(p),
            DerivationTree::Derived { terms, cause1, cause2 } => (exists|i: int|
                0 <= i < terms@.len() && terms@[i].0@ == p) || cause1.mentions(p)
                || cause2.mentions(p),
        }
    }

    /// Append every package the tree mentions to `out`.
    fn packages_into(&self, out: &mut Vec<PubGrubPackage>)
        ensures
            final(out)@.len() >= old(out)@.len(),
            forall|k: int| 0 <= k < old(out)@.len() ==> final(out)@[k] == old(out)@[k],
            forall|k: int|
                old(out)@.len() <= k < final(out)@.len() ==> self.mentions(
                    #[trigger] final(out)@[k]@,
                ),
            forall|p: PkgView|
                self.mentions(p) ==> exists|k: int|
                    old(out)@.len() <= k < final(out)@.len() && final(out)@[k]@ == p,
        decreases *self,
    {
        match self {
            DerivationTree::External(e) => {
                match e {
                    External::NoVersions(q, _) => {
                        out.push(q.duplicate());
                        proof {
                            assert(out@[out@.len() - 1]@ == q@);
                        }
                    }
                    External::FromDependencyOf(q1, _, q2, _) => {
                        out.push(q1.duplicate());
                        out.push(q2.duplicate());
                        proof {
                            assert(out@[out@.len() - 2]@ == q1@);
                            assert(out@[out@.len() - 1]@ == q2@);
                        }
                    }
                }
            }
            DerivationTree::Derived { terms, cause1, cause2 } => {
                let ghost mark0 = out@.len() as int;
                let mut i: usize = 0;
                while i < terms.len()
                    invariant
                        0 <= i <= terms@.len(),
                        out@.len() == mark0 + i,
                        mark0 <= out@.len(),
                        forall|k: int| 0 <= k < mark0 ==> out@[k] == old(out)@[k],
                        mark0 == old(out)@.len(),
                        forall|k: int| 0 <= k < i ==> out@[mark0 + k]@ == terms@[k].0@,
                    decreases terms@.len() - i,
                {
                    out.push(terms[i].0.duplicate());
                    i += 1;
                }
                let ghost snap_l = out@;
                let ghost mark1 = out@.len() as int;
                cause1.packages_into(out);
                let ghost snap_1 = out@;
                let ghost mark2 = out@.len() as int;
                cause2.packages_into(out);
                proof {
                    assert forall|k: int| 0 <= k < mark2 implies out@[k] == snap_1[k] by {}
                    assert forall|k: int| 0 <= k < mark1 implies snap_1[k] == snap_l[k] by {}
                    assert forall|p: PkgView| self.mentions(p) implies exists|k: int|
                        old(out)@.len() <= k < out@.len() && out@[k]@ == p by {
                        if exists|i: int| 0 <= i < terms@.len() && terms@[i].0@ == p {
                            let i = choose|i: int| 0 <= i < terms@.len() && terms@[i].0@ == p;
                            assert(snap_l[mark0 + i]@ == p);
                            assert(out@[mark0 + i]@ == p);
                        } else if cause1.mentions(p) {
                            let k = choose|k: int| mark1 <= k < mark2 && snap_1[k]@ == p;
                            assert(out@[k]@ == p);
                        } else {
                            assert(cause2.mentions(p));
                            let k = choose|k: int| mark2 <= k < out@.len() && out@[k]@ == p;
                            assert(out@[k]@ == p);
                        }
                    }
                    assert forall|k: int|
                        old(out)@.len() <= k < out@.len() implies self.mentions(
                        #[trigger] out@[k]@,
                    ) by {
                        if k < mark1 {
                            assert(out@[k] == snap_l[k]);
                            assert(snap_l[mark0 + (k - mark0)]@ == terms@[k - mark0].0@);
                            assert(terms@[k - mark0].0@ == out@[k]@);
                        } else if k < mark2 {
                            assert(out@[k] == snap_1[k]);
                            assert(cause1.mentions(snap_1[k]@));
                        } else {
                            assert(cause2.mentions(out@[k]@));
                        }
                    }
                }
            }
        }
    }

    /// Every package identity the tree mentions, with repetition.
    pub fn packages(&self) -> (r: Vec<PubGrubPackage>)
        ensures
            forall|k: int| 0 <= k < r@.len() ==> self.mentions(#[trigger] r@[k]@),
            forall|p: PkgView| self.mentions(p) ==> exists|k: int| 0 <= k < r@.len() && r@[k]@ == p,
    {
        let mut out: Vec<PubGrubPackage> = Vec::new();
        self.packages_into(&mut out);
        out
    }
}

} // verus!
