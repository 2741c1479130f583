use vstd::prelude::*;
use crate::derivation::DerivationTree;
use crate::index::{spec_visited, visited_contains, FetchLedger, FetchState};
use crate::package::{PkgView, PubGrubPackage, PubGrubPython, PythonRequirement, Requirement};
use crate::selector::CandidateSelector;
use crate::version::Version;
use crate::version_map::{Dist, EntryView, VersionMap};

verus! {

/// Everything that can go wrong while resolving. Fatal kinds abort the whole
/// resolution immediately; only `NoSolution` is enriched with solver context
/// before it is surfaced.
#[derive(Debug)]
pub enum ResolveError {
    /// A requirement matched zero versions.
    NotFound(Requirement),
    /// The request stream terminated unexpectedly: a driver bug.
    StreamTermination,
    /// The metadata client failed; carries its message.
    Client(String),
    /// Sending on the driver's request channel failed; carries its message.
    TrySend(String),
    /// Joining a fetch task failed; carries its message.
    Join(String),
    /// A wait was attempted on a task the driver never registered: a driver
    /// bug.
    Unregistered,
    /// Fetched metadata's declared name disagrees with the requested name.
    NameMismatch { given: String, metadata: String },
    /// The package is pinned to two different URLs.
    ConflictingUrls(String, String, String),
    /// Two otherwise-identical package identities produced incompatible
    /// concrete version decisions.
    ConflictingVersions(String, String),
    /// A transitive dependency tried to introduce a URL pin that only direct
    /// requirements may introduce.
    DisallowedUrl(String, String),
    /// Downloading a built artifact failed.
    Fetch(Dist, String),
    /// Downloading and building a source artifact failed.
    FetchAndBuild(Dist, String),
    /// No selection satisfies the requirements; carries the proof.
    NoSolution(NoSolutionError),
    /// A package's own dependency range on itself excludes its version.
    SelfDependency { package: Box<PubGrubPackage>, version: Box<Version> },
    /// Something unexpected happened.
    Failure(String),
}

/// How the solver itself can end without a selection.
#[derive(Debug)]
pub enum SolverError {
    /// The requirements admit no selection; the tree proves it.
    NoSolution(DerivationTree),
    /// A package at some version depends on itself outside that version.
    SelfDependency { package: PubGrubPackage, version: Version },
    /// Something unexpected happened.
    Failure(String),
}

impl ResolveError {
    /// Wrap a solver outcome in the error taxonomy; a fresh `NoSolution`
    /// carries no available-version context yet.
    pub fn from_solver_error(e: SolverError) -> (r: ResolveError)
        ensures
            match e {
                SolverError::Failure(s) => r == ResolveError::Failure(s),
                SolverError::SelfDependency { package, version } => {
                    &&& r matches ResolveError::SelfDependency { package: p, version: v }
                    &&& *p == package
                    &&& *v == version
                },
                SolverError::NoSolution(t) => {
                    &&& r matches ResolveError::NoSolution(ns)
                    &&& ns.derivation_tree == t
                    &&& ns.available_versions@.len() == 0
                    &&& ns.selector is None
                    &&& ns.python_requirement is None
                },
            },
    {
        match e {
            SolverError::Failure(s) => ResolveError::Failure(s),
            SolverError::SelfDependency { package, version } => ResolveError::SelfDependency {
                package: Box::new(package),
                version: Box::new(version),
            },
            SolverError::NoSolution(t) => ResolveError::NoSolution(
                NoSolutionError {
                    derivation_tree: t,
                    available_versions: Vec::new(),
                    selector: Option::None,
                    python_requirement: Option::None,
                },
            ),
        }
    }
}

impl ResolveError {
    /// Check fetched metadata's declared name against the requested name:
    /// a disagreement is a fatal data-integrity error.
    pub fn check_metadata_name(given: &String, metadata: &String) -> (r: Result<
        (),
        ResolveError,
    >)
        ensures
            match r {
                Result::Ok(()) => given@ == metadata@,
                Result::Err(e) => given@ != metadata@ && (e matches ResolveError::NameMismatch {
                    given: g,
                    metadata: m,
                } && g@ == given@ && m@ == metadata@),
            },
    {
        if *given == *metadata {
            Result::Ok(())
        } else {
            Result::Err(
                ResolveError::NameMismatch { given: given.clone(), metadata: metadata.clone() },
            )
        }
    }
}

/// A resolution failure with the derivation tree proving it, ready to be
/// rendered as a report. The available versions attached to it are only ever
/// those of packages actually examined during resolution, so the report
/// never claims a version available that was never fetched.
#[derive(Debug)]
pub struct NoSolutionError {
    pub derivation_tree: DerivationTree,
    pub available_versions: Vec<(PubGrubPackage, Vec<Version>)>,
    pub selector: Option<CandidateSelector>,
    pub python_requirement: Option<PythonRequirement>,
}

/// Whether `av` already holds an entry for package `p`.
fn av_has(av: &Vec<(PubGrubPackage, Vec<Version>)>, p: &PubGrubPackage) -> (r: bool)
    ensures
        r == exists|k: int| 0 <= k < av@.len() && (#[trigger] av@[k]).0@ == p@,
{
    let mut i: usize = 0;
    while i < av.len()
        invariant
            0 <= i <= av@.len(),
            forall|k: int| 0 <= k < i ==> (#[trigger] av@[k]).0@ != p@,
        decreases av@.len() - i,
    {
        if crate::package::same_package(&av[i].0, p) {
            return true;
        }
        i += 1;
    }
    false
}

/// What one attached available-versions entry is allowed to say: the package
/// stands in the derivation tree, a virtual interpreter package shows
/// exactly the environment's version, and a named package shows exactly the
/// versions of its fetched map — and only if it was visited.
pub open spec fn entry_honest(
    tree: DerivationTree,
    py: PythonRequirement,
    visited: Seq<String>,
    ledger: FetchLedger,
    p: PubGrubPackage,
    vs: Seq<Version>,
) -> bool {
    &&& tree.mentions(p@)
    &&& match p@ {
        PkgView::Root => false,
        PkgView::Python(PubGrubPython::Installed) => vs == seq![py.installed],
        PkgView::Python(PubGrubPython::Target) => vs == seq![py.target],
        PkgView::Package { name, extra, url } => {
            &&& spec_visited(visited, name)
            &&& exists|m: VersionMap|
                ledger.spec_state_is(name, FetchState::Ready(m)) && vs == m@.map_values(
                    |e: EntryView| e.version,
                )
        },
    }
}

/// Whether the attached entries cover the package identity `pv`: a virtual
/// interpreter package always has an entry; a named package has one whenever
/// it was visited and its metadata is cached; the root never needs one.
pub open spec fn av_covers(
    visited: Seq<String>,
    ledger: FetchLedger,
    av: Seq<(PubGrubPackage, Vec<Version>)>,
    pv: PkgView,
) -> bool {
    match pv {
        PkgView::Root => true,
        PkgView::Python(_) => exists|k: int| 0 <= k < av.len() && (#[trigger] av[k]).0@ == pv,
        PkgView::Package { name, extra, url } => (spec_visited(visited, name) && (exists|m:
            VersionMap| ledger.spec_state_is(name, FetchState::Ready(m)))) ==> exists|k: int|
            0 <= k < av.len() && (#[trigger] av[k]).0@ == pv,
    }
}

/// The attached context is honest for some record of visited names: every
/// entry says only what the record and the index support, and every package
/// the tree mentions that the record covers has its entry.
pub open spec fn ns_context_honest(
    l: FetchLedger,
    py: PythonRequirement,
    vis: Seq<String>,
    ns: NoSolutionError,
) -> bool {
    &&& forall|k: int|
        0 <= k < ns.available_versions@.len() ==> entry_honest(
            ns.derivation_tree,
            py,
            vis,
            l,
            (#[trigger] ns.available_versions@[k]).0,
            ns.available_versions@[k].1@,
        )
    &&& forall|pv: PkgView|
        ns.derivation_tree.mentions(pv) ==> av_covers(vis, l, ns.available_versions@, pv)
}

impl NoSolutionError {
    /// Update the available versions attached to the error from the package
    /// version index. Exactly the packages in the error's derivation tree
    /// are retrieved, and among named packages exactly those actually
    /// visited during resolution with cached metadata: the report must
    /// describe the state of the resolver at the time of failure, never
    /// versions it had not examined.
    pub fn with_available_versions(
        self,
        python_requirement: &PythonRequirement,
        visited: &Vec<String>,
        package_versions: &FetchLedger,
    ) -> (r: NoSolutionError)
        requires
            package_versions.wf(),
            package_versions.maps_wf(),
        ensures
            r.derivation_tree == self.derivation_tree,
            r.selector == self.selector,
            r.python_requirement == self.python_requirement,
            forall|k: int, a: int, b: int|
                #![trigger r.available_versions@[k].1@[a], r.available_versions@[k].1@[b]]
                0 <= k < r.available_versions@.len() && 0 <= a < b
                    < r.available_versions@[k].1@.len() ==> r.available_versions@[k].1@[a].spec_lt(
                    r.available_versions@[k].1@[b],
                ),
            forall|k: int|
                0 <= k < r.available_versions@.len() ==> entry_honest(
                    self.derivation_tree,
                    *python_requirement,
                    visited@,
                    *package_versions,
                    (#[trigger] r.available_versions@[k]).0,
                    r.available_versions@[k].1@,
                ),
            forall|pv: PkgView|
                self.derivation_tree.mentions(pv) ==> av_covers(
                    visited@,
                    *package_versions,
                    r.available_versions@,
                    pv,
                ),
    {
        let NoSolutionError { derivation_tree, available_versions: _, selector, python_requirement: py_old } =
            self;
        let mut available_versions: Vec<(PubGrubPackage, Vec<Version>)> = Vec::new();
        let pkgs = derivation_tree.packages();
        let mut idx: usize = 0;
        while idx < pkgs.len()
            invariant
                0 <= idx <= pkgs@.len(),
                package_versions.wf(),
                package_versions.maps_wf(),
                forall|k: int, a: int, b: int|
                    #![trigger available_versions@[k].1@[a], available_versions@[k].1@[b]]
                    0 <= k < available_versions@.len() && 0 <= a < b
                        < available_versions@[k].1@.len() ==> available_versions@[k].1@[a].spec_lt(
                        available_versions@[k].1@[b],
                    ),
                forall|k: int| 0 <= k < pkgs@.len() ==> derivation_tree.mentions(#[trigger] pkgs@[k]@),
                forall|pv: PkgView|
                    derivation_tree.mentions(pv) ==> exists|k: int|
                        0 <= k < pkgs@.len() && pkgs@[k]@ == pv,
                forall|k: int|
                    0 <= k < available_versions@.len() ==> entry_honest(
                        derivation_tree,
                        *python_requirement,
                        visited@,
                        *package_versions,
                        (#[trigger] available_versions@[k]).0,
                        available_versions@[k].1@,
                    ),
                forall|j: int|
                    0 <= j < idx ==> av_covers(
                        visited@,
                        *package_versions,
                        available_versions@,
                        (#[trigger] pkgs@[j])@,
                    ),
            decreases pkgs@.len() - idx,
        {
            let ghost pre_av = available_versions@;
            let p = &pkgs[idx];
            match p {
                PubGrubPackage::Root => {
                    proof {
                        assert(av_covers(visited@, *package_versions, available_versions@, p@));
                    }
                }
                PubGrubPackage::Python(PubGrubPython::Installed) => {
                    if !av_has(&available_versions, p) {
                        let mut vs: Vec<Version> = Vec::new();
                        vs.push(python_requirement.installed);
                        proof {
                            assert(vs@ =~= seq![python_requirement.installed]);
                        }
                        available_versions.push((p.duplicate(), vs));
                        proof {
                            assert((#[trigger] available_versions@[available_versions@.len()
                                - 1]).0@ == p@);
                        }
                    }
                    proof {
                        assert(exists|k: int|
                            0 <= k < available_versions@.len() && (#[trigger] available_versions@[k]).0@
                                == p@);
                    }
                }
                PubGrubPackage::Python(PubGrubPython::Target) => {
                    if !av_has(&available_versions, p) {
                        let mut vs: Vec<Version> = Vec::new();
                        vs.push(python_requirement.target);
                        proof {
                            assert(vs@ =~= seq![python_requirement.target]);
                        }
                        available_versions.push((p.duplicate(), vs));
                        proof {
                            assert((#[trigger] available_versions@[available_versions@.len()
                                - 1]).0@ == p@);
                        }
                    }
                    proof {
                        assert(exists|k: int|
                            0 <= k < available_versions@.len() && (#[trigger] available_versions@[k]).0@
                                == p@);
                    }
                }
                PubGrubPackage::Package { name, extra, url } => {
                    if av_has(&available_versions, p) {
                        proof {
                            assert(av_covers(
                                visited@,
                                *package_versions,
                                available_versions@,
                                p@,
                            ));
                        }
                    } else if visited_contains(visited, name) {
                        match package_versions.get(name) {
                            Option::None => {
                                proof {
                                    assert(av_covers(
                                        visited@,
                                        *package_versions,
                                        available_versions@,
                                        p@,
                                    ));
                                }
                            }
                            Option::Some(m) => {
                                let mut vs: Vec<Version> = Vec::new();
                                let mut j: usize = 0;
                                while j < m.entries.len()
                                    invariant
                                        0 <= j <= m.entries@.len(),
                                        vs@.len() == j,
                                        forall|k: int| 0 <= k < j ==> vs@[k] == m@[k].version,
                                    decreases m.entries@.len() - j,
                                {
                                    proof {
                                        assert(m@[j as int] == m.entries@[j as int]@);
                                    }
                                    vs.push(m.entries[j].version);
                                    j += 1;
                                }
                                proof {
                                    assert(vs@ =~= m@.map_values(|e: EntryView| e.version));
                                    let gi = choose|gi: int|
                                        0 <= gi < package_versions.entries@.len()
                                            && package_versions.entries@[gi].0@ == name@
                                            && package_versions.entries@[gi].1
                                            == FetchState::Ready(*m);
                                    assert(m.wf());
                                    assert forall|a: int, b: int|
                                        0 <= a < b < vs@.len() implies vs@[a].spec_lt(
                                        vs@[b],
                                    ) by {
                                        assert(m@[a] == m.entries@[a]@);
                                        assert(m@[b] == m.entries@[b]@);
                                        assert(m.entries@[a].version.spec_lt(
                                            m.entries@[b].version,
                                        ));
                                    }
                                }
                                available_versions.push((p.duplicate(), vs));
                                proof {
                                    assert((#[trigger] available_versions@[available_versions@.len()
                                        - 1]).0@ == p@);
                                    assert(av_covers(
                                        visited@,
                                        *package_versions,
                                        available_versions@,
                                        p@,
                                    ));
                                }
                            }
                        }
                    } else {
                        proof {
                            assert(!spec_visited(visited@, name@));
                            assert(av_covers(
                                visited@,
                                *package_versions,
                                available_versions@,
                                p@,
                            ));
                        }
                    }
                }
            }
            proof {
                assert forall|j: int| 0 <= j < idx + 1 implies av_covers(
                    visited@,
                    *package_versions,
                    available_versions@,
                    (#[trigger] pkgs@[j])@,
                ) by {
                    if j < idx {
                        assert(av_covers(visited@, *package_versions, pre_av, pkgs@[j]@));
                        match pkgs@[j]@ {
                            PkgView::Root => {}
                            PkgView::Python(_) => {
                                let k = choose|k: int|
                                    0 <= k < pre_av.len() && (#[trigger] pre_av[k]).0@
                                        == pkgs@[j]@;
                                assert(available_versions@[k] == pre_av[k]);
                                assert((#[trigger] available_versions@[k]).0@ == pkgs@[j]@);
                            }
                            PkgView::Package { name, extra, url } => {
                                if spec_visited(visited@, name) && (exists|m: VersionMap|
                                    package_versions.spec_state_is(
                                    name,
                                    FetchState::Ready(m),
                                )) {
                                    let k = choose|k: int|
                                        0 <= k < pre_av.len() && (#[trigger] pre_av[k]).0@
                                            == pkgs@[j]@;
                                    assert(available_versions@[k] == pre_av[k]);
                                    assert((#[trigger] available_versions@[k]).0@ == pkgs@[j]@);
                                }
                            }
                        }
                    } else {
                        assert(pkgs@[j] == *p);
                    }
                }
            }
            idx += 1;
        }
        proof {
            assert forall|pv: PkgView| derivation_tree.mentions(pv) implies av_covers(
                visited@,
                *package_versions,
                available_versions@,
                pv,
            ) by {
                let k = choose|k: int| 0 <= k < pkgs@.len() && pkgs@[k]@ == pv;
                assert(av_covers(visited@, *package_versions, available_versions@, pkgs@[k]@));
            }
        }
        NoSolutionError {
            derivation_tree,
            available_versions,
            selector,
            python_requirement: py_old,
        }
    }

    /// Update the candidate selector attached to the error.
    pub fn with_selector(self, selector: CandidateSelector) -> (r: NoSolutionError)
        ensures
            r.derivation_tree == self.derivation_tree,
            r.available_versions == self.available_versions,
            r.python_requirement == self.python_requirement,
            r.selector == Option::Some(selector),
    {
        NoSolutionError {
            derivation_tree: self.derivation_tree,
            available_versions: self.available_versions,
            selector: Option::Some(selector),
            python_requirement: self.python_requirement,
        }
    }

    /// Update the interpreter requirement attached to the error.
    pub fn with_python_requirement(self, python_requirement: &PythonRequirement) -> (r:
        NoSolutionError)
        ensures
            r.derivation_tree == self.derivation_tree,
            r.available_versions == self.available_versions,
            r.selector == self.selector,
            r.python_requirement == Option::Some(*python_requirement),
    {
        NoSolutionError {
            derivation_tree: self.derivation_tree,
            available_versions: self.available_versions,
            selector: self.selector,
            python_requirement: Option::Some(*python_requirement),
        }
    }
}

} // verus!
