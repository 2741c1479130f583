use vstd::prelude::*;
use crate::range::{ivs_contain, VersionInterval, VersionRange};
use crate::version::Version;

verus! {

/// The two virtual interpreter packages.
#[derive(Clone, Copy, Debug, PartialEq, Eq, Structural)]
pub enum PubGrubPython {
    /// The interpreter version the environment runs.
    Installed,
    /// The declared minimum interpreter version the resolution targets.
    Target,
}

/// Identity of a node the solver decides on: the synthetic root, a virtual
/// interpreter package, or a real named package, optionally qualified by an
/// extra or pinned to a direct artifact URL. Identity is `(name, extra, url)`;
/// it is never mutated after creation.
#[derive(Clone, Debug)]
pub enum PubGrubPackage {
    Root,
    Python(PubGrubPython),
    Package { name: String, extra: Option<String>, url: Option<String> },
}

/// Spec view of a package identity.
pub enum PkgView {
    Root,
    Python(PubGrubPython),
    Package { name: Seq<char>, extra: Option<Seq<char>>, url: Option<Seq<char>> },
}

impl View for PubGrubPackage {
    type V = PkgView;

    open spec fn view(&self) -> PkgView {
        match *self {
            PubGrubPackage::Root => PkgView::Root,
            PubGrubPackage::Python(p) => PkgView::Python(p),
            PubGrubPackage::Package { name, extra, url } => PkgView::Package {
                name: name@,
                extra: opt_view(extra),
                url: opt_view(url),
            },
        }
    }
}

impl PubGrubPackage {
    /// A copy with the same identity.
    pub fn duplicate(&self) -> (r: PubGrubPackage)
        ensures
            r@ == self@,
    {
        match self {
            PubGrubPackage::Root => PubGrubPackage::Root,
            PubGrubPackage::Python(p) => PubGrubPackage::Python(*p),
            PubGrubPackage::Package { name, extra, url } => {
                let extra = match extra {
                    Option::None => Option::None,
                    Option::Some(e) => Option::Some(e.clone()),
                };
                let url = match url {
                    Option::None => Option::None,
                    Option::Some(u) => Option::Some(u.clone()),
                };
                PubGrubPackage::Package { name: name.clone(), extra, url }
            }
        }
    }
}

/// Spec view of an optional string.
pub open spec fn opt_view(o: Option<String>) -> Option<Seq<char>> {
    match o {
        Option::None => Option::None,
        Option::Some(s) => Option::Some(s@),
    }
}

/// Equality test on optional strings.
pub fn same_opt_str(a: &Option<String>, b: &Option<String>) -> (r: bool)
    ensures
        r == (opt_view(*a) == opt_view(*b)),
{
    match (a, b) {
        (Option::None, Option::None) => true,
        (Option::Some(x), Option::Some(y)) => *x == *y,
        _ => {
            proof {
                assert(opt_view(*a) != opt_view(*b));
            }
            false
        }
    }
}

/// Identity equality test on packages: by variant, and for named packages by
/// `(name, extra, url)`.
pub fn same_package(a: &PubGrubPackage, b: &PubGrubPackage) -> (r: bool)
    ensures
        r == (a@ == b@),
{
    match (a, b) {
        (PubGrubPackage::Root, PubGrubPackage::Root) => true,
        (PubGrubPackage::Python(x), PubGrubPackage::Python(y)) => x == y,
        (
            PubGrubPackage::Package { name: n1, extra: e1, url: u1 },
            PubGrubPackage::Package { name: n2, extra: e2, url: u2 },
        ) => *n1 == *n2 && same_opt_str(e1, e2) && same_opt_str(u1, u2),
        _ => false,
    }
}

/// A single requirement: a package name, the range of versions that
/// satisfies it, and an optional direct artifact URL pin.
#[derive(Clone, Debug)]
pub struct Requirement {
    pub name: String,
    pub range: VersionRange,
    pub url: Option<String>,
}

/// Spec view of a requirement.
pub struct ReqView {
    pub name: Seq<char>,
    pub ivs: Seq<VersionInterval>,
    pub url: Option<Seq<char>>,
}

impl ReqView {
    /// Whether version `v` satisfies this requirement's range.
    pub open spec fn admits(self, v: Version) -> bool {
        ivs_contain(self.ivs, v)
    }
}

impl View for Requirement {
    type V = ReqView;

    open spec fn view(&self) -> ReqView {
        ReqView { name: self.name@, ivs: self.range.intervals@, url: opt_view(self.url) }
    }
}

impl Requirement {
    pub fn new(name: String, range: VersionRange) -> (r: Requirement)
        ensures
            r@ == (ReqView { name: name@, ivs: range.intervals@, url: Option::None }),
    {
        Requirement { name, range, url: Option::None }
    }

    pub fn with_url(name: String, range: VersionRange, url: String) -> (r: Requirement)
        ensures
            r@ == (ReqView { name: name@, ivs: range.intervals@, url: Option::Some(url@) }),
    {
        Requirement { name, range, url: Option::Some(url) }
    }

    /// A copy with the same view.
    pub fn duplicate(&self) -> (r: Requirement)
        ensures
            r@ == self@,
    {
        let url = match &self.url {
            Option::None => Option::None,
            Option::Some(u) => Option::Some(u.clone()),
        };
        Requirement { name: self.name.clone(), range: self.range.duplicate(), url }
    }
}

/// The immutable pair of installed and target interpreter versions, exposed
/// to the solver as two always-satisfied virtual packages.
#[derive(Clone, Copy, Debug, PartialEq, Eq, Structural)]
pub struct PythonRequirement {
    pub installed: Version,
    pub target: Version,
}

impl PythonRequirement {
    pub fn new(installed: Version, target: Version) -> (r: PythonRequirement)
        ensures
            r == (PythonRequirement { installed, target }),
    {
        PythonRequirement { installed, target }
    }

    pub fn installed(&self) -> (r: &Version)
        ensures
            *r == self.installed,
    {
        &self.installed
    }

    pub fn target(&self) -> (r: &Version)
        ensures
            *r == self.target,
    {
        &self.target
    }
}

} // verus!
