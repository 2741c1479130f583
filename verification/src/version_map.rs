use vstd::prelude::*;
use crate::package::{PythonRequirement, ReqView, Requirement};
use crate::range::{ivs_contain, VersionInterval};
use crate::range::VersionRange;
use crate::version::Version;

verus! {

/// Whether an artifact is a prebuilt distribution or a source distribution
/// that must be built; a failure to obtain one is reported differently.
#[derive(Clone, Copy, Debug, PartialEq, Eq, Structural)]
pub enum DistKind {
    Built,
    Source,
}

/// A candidate artifact descriptor.
#[derive(Clone, Debug)]
pub struct Dist {
    pub kind: DistKind,
    pub file: String,
}

/// Spec view of an artifact descriptor.
pub struct DistView {
    pub kind: DistKind,
    pub file: Seq<char>,
}

impl View for Dist {
    type V = DistView;

    open spec fn view(&self) -> DistView {
        DistView { kind: self.kind, file: self.file@ }
    }
}

impl Dist {
    /// A copy with the same view.
    pub fn duplicate(&self) -> (r: Dist)
        ensures
            r@ == self@,
    {
        Dist { kind: self.kind, file: self.file.clone() }
    }
}

/// A candidate: a specific package version together with its resolved
/// artifact.
#[derive(Clone, Debug)]
pub struct Candidate {
    pub version: Version,
    pub dist: Dist,
}

/// One version a package offers: its artifact, the interpreter-version range
/// it declares itself applicable to (none means unconstrained), and its
/// dependency requirements.
#[derive(Clone, Debug)]
pub struct VersionMapEntry {
    pub version: Version,
    pub dist: Dist,
    pub requires_python: Option<VersionRange>,
    pub dependencies: Vec<Requirement>,
}

/// Spec view of a version-map entry.
pub struct EntryView {
    pub version: Version,
    pub dist: DistView,
    pub requires_python: Option<Seq<VersionInterval>>,
    pub deps: Seq<ReqView>,
}

impl EntryView {
    /// Whether this version may be offered at all in the given environment:
    /// its declared interpreter range, if any, must admit both the installed
    /// and the target interpreter version.
    pub open spec fn python_ok(self, py: PythonRequirement) -> bool {
        match self.requires_python {
            Option::None => true,
            Option::Some(ivs) => ivs_contain(ivs, py.installed) && ivs_contain(ivs, py.target),
        }
    }
}

impl View for VersionMapEntry {
    type V = EntryView;

    open spec fn view(&self) -> EntryView {
        EntryView {
            version: self.version,
            dist: self.dist@,
            requires_python: match self.requires_python {
                Option::None => Option::None,
                Option::Some(r) => Option::Some(r.intervals@),
            },
            deps: self.dependencies@.map_values(|r: Requirement| r@),
        }
    }
}

impl VersionMapEntry {
    pub fn python_ok(&self, py: &PythonRequirement) -> (r: bool)
        ensures
            r == self@.python_ok(*py),
    {
        match &self.requires_python {
            Option::None => true,
            Option::Some(range) => range.contains(&py.installed) && range.contains(&py.target),
        }
    }

    /// A copy with the same view.
    pub fn duplicate(&self) -> (r: VersionMapEntry)
        ensures
            r@ == self@,
    {
        let requires_python = match &self.requires_python {
            Option::None => Option::None,
            Option::Some(range) => Option::Some(range.duplicate()),
        };
        let mut dependencies: Vec<Requirement> = Vec::new();
        let mut i: usize = 0;
        while i < self.dependencies.len()
            invariant
                0 <= i <= self.dependencies@.len(),
                dependencies@.len() == i,
                forall|k: int| 0 <= k < i ==> dependencies@[k]@ == self.dependencies@[k]@,
            decreases self.dependencies@.len() - i,
        {
            dependencies.push(self.dependencies[i].duplicate());
            i += 1;
        }
        let r = VersionMapEntry {
            version: self.version,
            dist: self.dist.duplicate(),
            requires_python,
            dependencies,
        };
        proof {
            assert(r@.deps =~= self@.deps);
            assert(r@.requires_python == self@.requires_python);
        }
        r
    }
}

/// An ordered mapping from version to candidate artifact for one package
/// name, ascending by version with no duplicates.
#[derive(Clone, Debug)]
pub struct VersionMap {
    pub entries: Vec<VersionMapEntry>,
}

impl View for VersionMap {
    type V = Seq<EntryView>;

    open spec fn view(&self) -> Seq<EntryView> {
        self.entries@.map_values(|e: VersionMapEntry| e@)
    }
}

impl VersionMap {
    pub open spec fn wf(self) -> bool {
        &&& forall|i: int, j: int|
            0 <= i < j < self.entries@.len() ==> self.entries@[i].version.spec_lt(
                self.entries@[j].version,
            )
        &&& forall|i: int| 0 <= i < self.entries@.len() ==> (#[trigger] self.entries@[i]).version.wf()
    }

    /// Whether `e` is one of this map's entries.
    pub open spec fn spec_has_entry(self, e: EntryView) -> bool {
        exists|i: int| 0 <= i < self@.len() && self@[i] == e
    }

    pub fn new() -> (r: VersionMap)
        ensures
            r.wf(),
            r.entries@.len() == 0,
    {
        VersionMap { entries: Vec::new() }
    }

    pub fn len(&self) -> (r: usize)
        ensures
            r == self.entries@.len(),
    {
        self.entries.len()
    }

    /// Append a version later than every version already present.
    pub fn push(&mut self, e: VersionMapEntry)
        requires
            old(self).wf(),
            e.version.wf(),
            forall|i: int|
                0 <= i < old(self).entries@.len() ==> (#[trigger] old(
                    self,
                ).entries@[i]).version.spec_lt(e.version),
        ensures
            final(self).wf(),
            final(self).entries@ == old(self).entries@.push(e),
    {
        self.entries.push(e);
    }
}

} // verus!
