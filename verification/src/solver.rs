use vstd::prelude::*;
use crate::derivation::{DerivationTree, External};
use crate::error::{ResolveError, SolverError};
use crate::index::{mark_visited, spec_visited, FetchLedger, FetchState};
use crate::package::{PkgView, PubGrubPackage, PubGrubPython, PythonRequirement, ReqView, Requirement};
use crate::range::{ivs_contain, VersionRange};
use crate::selector::{lemma_select_admissible, CandidateSelector};
use crate::trusted_url::{url_canon, urls_equivalent};
use crate::version::Version;
use crate::version_map::{EntryView, VersionMap, VersionMapEntry};

verus! {

/// One decision: a package name resolved to one entry (version, artifact,
/// dependencies) of its version map.
#[derive(Debug)]
pub struct Decision {
    pub package: String,
    pub entry: VersionMapEntry,
}

/// Spec view of a decision.
pub struct DecisionView {
    pub package: Seq<char>,
    pub entry: EntryView,
}

impl View for Decision {
    type V = DecisionView;

    open spec fn view(&self) -> DecisionView {
        DecisionView { package: self.package@, entry: self.entry@ }
    }
}

impl Decision {
    /// A copy with the same view.
    pub fn duplicate(&self) -> (r: Decision)
        ensures
            r@ == self@,
    {
        Decision { package: self.package.clone(), entry: self.entry.duplicate() }
    }
}

/// A successful resolution: exactly one decision per package name.
#[derive(Debug)]
pub struct Resolution {
    pub decisions: Vec<Decision>,
}

/// Views of a requirement list.
pub open spec fn rviews(s: Seq<Requirement>) -> Seq<ReqView> {
    s.map_values(|r: Requirement| r@)
}

/// Views of a decision list.
pub open spec fn dviews(s: Seq<Decision>) -> Seq<DecisionView> {
    s.map_values(|d: Decision| d@)
}

/// Whether some decision decides `name`.
pub open spec fn name_decided(res: Seq<DecisionView>, name: Seq<char>) -> bool {
    exists|i: int| 0 <= i < res.len() && res[i].package == name
}

/// Whether the decisions satisfy requirement `q`: the package it names is
/// decided at a version inside its range.
pub open spec fn satisfies(res: Seq<DecisionView>, q: ReqView) -> bool {
    exists|i: int| 0 <= i < res.len() && res[i].package == q.name && q.admits(res[i].entry.version)
}

/// No two decisions share a package name.
pub open spec fn unique_names(res: Seq<DecisionView>) -> bool {
    forall|i: int, j: int| 0 <= i < j < res.len() ==> res[i].package != res[j].package
}

/// Whether `pending` holds a requirement with view `q`.
pub open spec fn pending_has(pending: Seq<ReqView>, q: ReqView) -> bool {
    exists|k: int| 0 <= k < pending.len() && pending[k] == q
}

/// A decision is valid against the index and environment: the index holds a
/// fetched version map for the package, the decided entry is one of that
/// map's entries, and its interpreter range admits the environment.
pub open spec fn decision_valid(l: FetchLedger, py: PythonRequirement, d: DecisionView) -> bool {
    &&& exists|vm: VersionMap|
        #[trigger] l.spec_state_is(d.package, FetchState::Ready(vm)) && (exists|i: int|
            0 <= i < vm@.len() && vm@[i] == d.entry)
    &&& d.entry.python_ok(py)
}

/// One dependency edge of decision `d` is discharged by the decisions: a
/// self-edge must admit the decided version itself, any other edge must be
/// satisfied.
pub open spec fn dep_ok(res: Seq<DecisionView>, d: DecisionView, dep: ReqView) -> bool {
    if dep.name == d.package {
        ivs_contain(dep.ivs, d.entry.version)
    } else {
        satisfies(res, dep)
    }
}

/// Every dependency edge of every decision is discharged.
pub open spec fn deps_closed(res: Seq<DecisionView>) -> bool {
    forall|i: int, j: int|
        0 <= i < res.len() && 0 <= j < res[i].entry.deps.len() ==> dep_ok(
            res,
            res[i],
            #[trigger] res[i].entry.deps[j],
        )
}

/// Soundness of a resolution for a requirement set: names are unique, every
/// requirement is satisfied, every decision is a valid entry of the fetched
/// index admissible in the environment, and every transitive dependency edge
/// is discharged.
pub open spec fn sound_resolution(
    l: FetchLedger,
    py: PythonRequirement,
    reqs: Seq<ReqView>,
    res: Seq<DecisionView>,
) -> bool {
    &&& unique_names(res)
    &&& forall|k: int| 0 <= k < reqs.len() ==> satisfies(res, #[trigger] reqs[k])
    &&& forall|i: int| 0 <= i < res.len() ==> decision_valid(l, py, #[trigger] res[i])
    &&& deps_closed(res)
}

/// A dependency edge is either discharged already or still on the worklist.
pub open spec fn dep_covered(
    res: Seq<DecisionView>,
    pending: Seq<ReqView>,
    d: DecisionView,
    dep: ReqView,
) -> bool {
    if dep.name == d.package {
        ivs_contain(dep.ivs, d.entry.version)
    } else {
        satisfies(res, dep) || pending_has(pending, dep)
    }
}

/// Every dependency edge of every decision is discharged or on the worklist.
pub open spec fn obligations_ok(res: Seq<DecisionView>, pending: Seq<ReqView>) -> bool {
    forall|i: int, j: int|
        0 <= i < res.len() && 0 <= j < res[i].entry.deps.len() ==> dep_covered(
            res,
            pending,
            res[i],
            #[trigger] res[i].entry.deps[j],
        )
}

/// A worklist the solver owes a success for: pairwise-distinct names, each
/// selecting some candidate whose entry declares no dependencies.
pub open spec fn plainly_satisfiable(
    l: FetchLedger,
    sel: CandidateSelector,
    py: PythonRequirement,
    pending: Seq<ReqView>,
) -> bool {
    &&& forall|i: int, j: int|
        0 <= i < j < pending.len() ==> (#[trigger] pending[i]).name != (#[trigger] pending[j]).name
    &&& forall|i: int|
        0 <= i < pending.len() ==> exists|m: VersionMap|
            #[trigger] l.spec_state_is((#[trigger] pending[i]).name, FetchState::Ready(m))
                && sel.spec_select(pending[i].name, m@, pending[i].ivs, py) is Some
                && sel.spec_select(pending[i].name, m@, pending[i].ivs, py).unwrap().deps.len()
                == 0
}

/// How the search itself can end without a selection: a dead end with its
/// proof tree, to be widened by the caller, or a fatal error that aborts the
/// whole resolution at once.
enum SolverFail {
    Conflict(DerivationTree),
    Fatal(ResolveError),
}

/// Whether a package at `version` declares a dependency on itself that its
/// own version does not satisfy. Exactly this condition is the fatal
/// self-dependency: it can never be explained as a conflict between two
/// other packages.
pub open spec fn spec_self_conflict(package: Seq<char>, version: Version, deps: Seq<ReqView>) -> bool {
    exists|j: int|
        0 <= j < deps.len() && deps[j].name == package && !ivs_contain(deps[j].ivs, version)
}

/// Detect a self-dependency of `package` at `version` among `deps`.
pub fn has_self_conflict(package: &String, version: &Version, deps: &Vec<Requirement>) -> (r: bool)
    ensures
        r == spec_self_conflict(package@, *version, rviews(deps@)),
{
    let mut j: usize = 0;
    while j < deps.len()
        invariant
            0 <= j <= deps@.len(),
            forall|k: int|
                0 <= k < j ==> !(rviews(deps@)[k].name == package@ && !ivs_contain(
                    rviews(deps@)[k].ivs,
                    *version,
                )),
        decreases deps@.len() - j,
    {
        proof {
            assert(rviews(deps@)[j as int] == deps@[j as int]@);
        }
        let d = &deps[j];
        if d.name == *package {
            if !d.range.contains(version) {
                proof {
                    assert(rviews(deps@)[j as int].name == package@ && !ivs_contain(
                        rviews(deps@)[j as int].ivs,
                        *version,
                    ));
                }
                return true;
            }
        }
        j += 1;
    }
    false
}

/// Evidence in the index for a reported self-dependency: the named package
/// has a cached version map holding the reported version, whose dependency
/// list conflicts with it.
pub open spec fn self_dep_evidence(l: FetchLedger, p: PubGrubPackage, v: Version) -> bool {
    match p@ {
        PkgView::Package { name, extra, url } => exists|m: VersionMap|
            #[trigger] l.spec_state_is(name, FetchState::Ready(m)) && (exists|i: int|
                0 <= i < m@.len() && m@[i].version == v && spec_self_conflict(name, v, m@[i].deps)),
        _ => false,
    }
}

/// What each fatal error kind owes as evidence: a self-dependency stands in
/// the index as reported, a URL conflict reports two canonically different
/// URLs, and no other kind (in particular not `NotFound`) is fatal here.
pub open spec fn fatal_evidence(l: FetchLedger, e: ResolveError) -> bool {
    match e {
        ResolveError::SelfDependency { package, version } => self_dep_evidence(
            l,
            *package,
            *version,
        ),
        ResolveError::ConflictingUrls(_, u1, u2) => url_canon(u1@) != url_canon(u2@),
        ResolveError::DisallowedUrl(_, _) => true,
        _ => false,
    }
}

/// Package the witnesses for a reported self-dependency.
proof fn lemma_self_dep_fatal(
    l: FetchLedger,
    err: ResolveError,
    name: Seq<char>,
    m: VersionMap,
    i: int,
    v: Version,
)
    requires
        err matches ResolveError::SelfDependency { package, version } && (*package)@ == (
        PkgView::Package { name, extra: Option::None, url: Option::None }) && *version == v,
        l.spec_state_is(name, FetchState::Ready(m)),
        0 <= i < m@.len(),
        m@[i].version == v,
        spec_self_conflict(name, v, m@[i].deps),
    ensures
        fatal_evidence(l, err),
{
    let p = err->SelfDependency_package;
    assert(exists|mm: VersionMap|
        #[trigger] l.spec_state_is(name, FetchState::Ready(mm)) && (exists|j: int|
            0 <= j < mm@.len() && mm@[j].version == v && spec_self_conflict(
                name,
                v,
                mm@[j].deps,
            )));
    assert((*p)@ == (PkgView::Package { name, extra: Option::None, url: Option::None }));
    assert((*p)@ matches PkgView::Package { name: n2, extra: e2, url: u2 } && n2 == name);
    assert(self_dep_evidence(l, *p, v));
}

/// The URL registered for `name`, if any (first entry wins).
pub open spec fn url_of(urls: Seq<(String, String)>, name: Seq<char>) -> Option<Seq<char>>
    decreases urls.len(),
{
    if urls.len() == 0 {
        Option::None
    } else if urls[0].0@ == name {
        Option::Some(urls[0].1@)
    } else {
        url_of(urls.drop_first(), name)
    }
}

/// Whether a dependency's URL pin is unacceptable given the registered URLs:
/// either no direct requirement registered a URL for the name, or the
/// registered URL differs canonically.
pub open spec fn dep_url_bad(urls: Seq<(String, String)>, d: ReqView) -> bool {
    match d.url {
        Option::None => false,
        Option::Some(u) => match url_of(urls, d.name) {
            Option::None => true,
            Option::Some(w) => url_canon(w) != url_canon(u),
        },
    }
}

/// Look up the registered URL for `name`.
fn find_url<'a>(urls: &'a Vec<(String, String)>, name: &String) -> (r: Option<&'a String>)
    ensures
        match r {
            Option::Some(u) => url_of(urls@, name@) == Option::Some(u@),
            Option::None => url_of(urls@, name@) is None,
        },
{
    let mut i: usize = 0;
    proof {
        assert(urls@.skip(0) =~= urls@);
    }
    while i < urls.len()
        invariant
            0 <= i <= urls@.len(),
            url_of(urls@.skip(i as int), name@) == url_of(urls@, name@),
        decreases urls@.len() - i,
    {
        proof {
            assert(urls@.skip(i as int)[0] == urls@[i as int]);
            assert(urls@.skip(i as int).drop_first() =~= urls@.skip(i as int + 1));
        }
        if urls[i].0 == *name {
            return Option::Some(&urls[i].1);
        }
        i += 1;
    }
    Option::None
}

/// Whether the root requirement set pins one name to two canonically
/// different URLs — an identity conflict, symmetric in the two requirements,
/// so it holds regardless of processing order.
pub open spec fn has_url_conflict(reqs: Seq<ReqView>) -> bool {
    exists|i: int, j: int|
        0 <= i < reqs.len() && 0 <= j < reqs.len() && reqs[i].name == reqs[j].name
            && reqs[i].url is Some && reqs[j].url is Some && url_canon(reqs[i].url.unwrap())
            != url_canon(reqs[j].url.unwrap())
}

/// Register the URL pins of the direct requirements; fails exactly when two
/// of them pin one name to canonically different URLs.
pub fn register_urls(reqs: &Vec<Requirement>) -> (r: Result<Vec<(String, String)>, ResolveError>)
    ensures
        match r {
            Result::Ok(urls) => !has_url_conflict(rviews(reqs@)) && (forall|k: int|
                0 <= k < reqs@.len() ==> match (#[trigger] reqs@[k]@).url {
                    Option::None => true,
                    Option::Some(u) => match url_of(urls@, reqs@[k]@.name) {
                        Option::None => false,
                        Option::Some(w) => url_canon(w) == url_canon(u),
                    },
                }),
            Result::Err(e) => has_url_conflict(rviews(reqs@)) && (e matches
                ResolveError::ConflictingUrls(n, w, u) && url_canon(w@) != url_canon(u@)
                && exists|ii: int, jj: int|
                    0 <= ii < reqs@.len() && 0 <= jj < reqs@.len() && (#[trigger] reqs@[ii])@.name
                        == n@ && (#[trigger] reqs@[jj])@.name == n@ && reqs@[ii]@.url
                        == Option::Some(w@) && reqs@[jj]@.url == Option::Some(u@)),
        },
{
    let mut urls: Vec<(String, String)> = Vec::new();
    let mut i: usize = 0;
    while i < reqs.len()
        invariant
            0 <= i <= reqs@.len(),
            forall|k: int|
                0 <= k < i ==> match (#[trigger] reqs@[k]@).url {
                    Option::None => true,
                    Option::Some(u) => match url_of(urls@, reqs@[k]@.name) {
                        Option::None => false,
                        Option::Some(w) => url_canon(w) == url_canon(u),
                    },
                },
            forall|k: int|
                0 <= k < urls@.len() ==> exists|q: int|
                    0 <= q < i && reqs@[q]@.name == (#[trigger] urls@[k]).0@ && reqs@[q]@.url
                        == Option::Some(urls@[k].1@),
        decreases reqs@.len() - i,
    {
        let q = &reqs[i];
        match &q.url {
            Option::None => {}
            Option::Some(u) => {
                match find_url(&urls, &q.name) {
                    Option::None => {
                        let ghost pre = urls@;
                        urls.push((q.name.clone(), u.clone()));
                        proof {
                            assert forall|k: int| 0 <= k < urls@.len() implies exists|qq: int|
                                0 <= qq < i + 1 && reqs@[qq]@.name == (#[trigger] urls@[k]).0@
                                    && reqs@[qq]@.url == Option::Some(urls@[k].1@) by {
                                if k < pre.len() {
                                    assert(pre[k] == urls@[k]);
                                } else {
                                    assert(reqs@[i as int]@.name == urls@[k].0@
                                        && reqs@[i as int]@.url == Option::Some(urls@[k].1@));
                                }
                            }
                            assert forall|k: int|
                                0 <= k < i + 1 implies match (#[trigger] reqs@[k]@).url {
                                Option::None => true,
                                Option::Some(uu) => match url_of(urls@, reqs@[k]@.name) {
                                    Option::None => false,
                                    Option::Some(w) => url_canon(w) == url_canon(uu),
                                },
                            } by {
                                lemma_url_of_push(pre, urls@[urls@.len() - 1], reqs@[k]@.name);
                            }
                        }
                    }
                    Option::Some(w) => {
                        if !urls_equivalent(w.as_str(), u.as_str()) {
                            proof {
                                lemma_url_of_index(urls@, q.name@);
                                let k = choose|k: int|
                                    0 <= k < urls@.len() && (#[trigger] urls@[k]).0@ == q.name@
                                        && urls@[k].1@ == w@;
                                let qq = choose|qq: int|
                                    0 <= qq < i && reqs@[qq]@.name == (#[trigger] urls@[k]).0@
                                        && reqs@[qq]@.url == Option::Some(urls@[k].1@);
                                assert(rviews(reqs@)[qq] == reqs@[qq]@);
                                assert(rviews(reqs@)[i as int] == reqs@[i as int]@);
                                assert(rviews(reqs@)[qq].name == rviews(reqs@)[i as int].name);
                                assert(rviews(reqs@)[qq].url == Option::Some(w@));
                                assert(rviews(reqs@)[i as int].url == Option::Some(u@));
                                assert(url_canon(w@) != url_canon(u@));
                                assert(has_url_conflict(rviews(reqs@)));
                                assert(reqs@[qq]@.name == q.name@ && reqs@[qq]@.url
                                    == Option::Some(w@));
                                assert(reqs@[i as int]@.name == q.name@ && reqs@[i as int]@.url
                                    == Option::Some(u@));
                            }
                            return Result::Err(
                                ResolveError::ConflictingUrls(q.name.clone(), w.clone(), u.clone()),
                            );
                        }
                    }
                }
            }
        }
        i += 1;
    }
    proof {
        assert forall|ii: int, jj: int|
            0 <= ii < reqs@.len() && 0 <= jj < reqs@.len() && rviews(reqs@)[ii].name == rviews(
                reqs@,
            )[jj].name && rviews(reqs@)[ii].url is Some && rviews(reqs@)[jj].url
                is Some implies url_canon(rviews(reqs@)[ii].url.unwrap()) == url_canon(
            rviews(reqs@)[jj].url.unwrap(),
        ) by {
            let u1 = reqs@[ii]@.url.unwrap();
            let u2 = reqs@[jj]@.url.unwrap();
            let w = url_of(urls@, reqs@[ii]@.name).unwrap();
            assert(url_canon(w) == url_canon(u1));
            assert(url_canon(w) == url_canon(u2));
        }
    }
    Result::Ok(urls)
}

/// `url_of` after a push: unchanged for registered names, the new pair for a
/// fresh one.
proof fn lemma_url_of_push(urls: Seq<(String, String)>, p: (String, String), name: Seq<char>)
    ensures
        url_of(urls.push(p), name) == if url_of(urls, name) is Some {
            url_of(urls, name)
        } else if p.0@ == name {
            Option::Some(p.1@)
        } else {
            Option::None
        },
    decreases urls.len(),
{
    let w = urls.push(p);
    assert(w.len() == urls.len() + 1);
    if urls.len() == 0 {
        assert(w[0] == p);
        if p.0@ != name {
            assert(w.drop_first() =~= Seq::<(String, String)>::empty());
            assert(url_of(w.drop_first(), name) is None);
        }
    } else {
        assert(w[0] == urls[0]);
        if urls[0].0@ == name {
            assert(url_of(w, name) == Option::Some(urls[0].1@));
        } else {
            assert(w.drop_first() =~= urls.drop_first().push(p));
            lemma_url_of_push(urls.drop_first(), p, name);
            assert(url_of(w, name) == url_of(w.drop_first(), name));
            assert(url_of(urls, name) == url_of(urls.drop_first(), name));
        }
    }
}

/// A registered URL has an index witness.
proof fn lemma_url_of_index(urls: Seq<(String, String)>, name: Seq<char>)
    requires
        url_of(urls, name) is Some,
    ensures
        exists|k: int|
            0 <= k < urls.len() && (#[trigger] urls[k]).0@ == name && urls[k].1@ == url_of(
                urls,
                name,
            ).unwrap(),
    decreases urls.len(),
{
    if urls.len() == 0 {
    } else if urls[0].0@ == name {
        assert(urls[0].0@ == name && urls[0].1@ == url_of(urls, name).unwrap());
    } else {
        lemma_url_of_index(urls.drop_first(), name);
        let k = choose|k: int|
            0 <= k < urls.drop_first().len() && (#[trigger] urls.drop_first()[k]).0@ == name
                && urls.drop_first()[k].1@ == url_of(urls.drop_first(), name).unwrap();
        assert(urls[k + 1] == urls.drop_first()[k]);
        assert(urls[k + 1].0@ == name && urls[k + 1].1@ == url_of(urls, name).unwrap());
    }
}


/// A copy of `v[start..]`, viewwise.
fn duplicate_reqs_from(v: &Vec<Requirement>, start: usize) -> (r: Vec<Requirement>)
    requires
        start <= v@.len(),
    ensures
        r@.len() == v@.len() - start,
        forall|k: int| 0 <= k < r@.len() ==> (#[trigger] r@[k])@ == v@[start + k]@,
{
    let mut r: Vec<Requirement> = Vec::new();
    let mut i: usize = start;
    while i < v.len()
        invariant
            start <= i <= v@.len(),
            r@.len() == i - start,
            forall|k: int| 0 <= k < r@.len() ==> (#[trigger] r@[k])@ == v@[start + k]@,
        decreases v@.len() - i,
    {
        r.push(v[i].duplicate());
        i += 1;
    }
    r
}

/// A copy of the decisions, viewwise.
fn duplicate_decisions(v: &Vec<Decision>) -> (r: Vec<Decision>)
    ensures
        r@.len() == v@.len(),
        forall|k: int| 0 <= k < r@.len() ==> (#[trigger] r@[k])@ == v@[k]@,
{
    let mut r: Vec<Decision> = Vec::new();
    let mut i: usize = 0;
    while i < v.len()
        invariant
            0 <= i <= v@.len(),
            r@.len() == i,
            forall|k: int| 0 <= k < r@.len() ==> (#[trigger] r@[k])@ == v@[k]@,
        decreases v@.len() - i,
    {
        r.push(v[i].duplicate());
        i += 1;
    }
    r
}

/// A copy of `v` with the first occurrence of `name` removed; every other
/// name stays present.
fn remove_first_name(v: &Vec<String>, name: &String) -> (r: Vec<String>)
    requires
        spec_visited(v@, name@),
    ensures
        r@.len() == v@.len() - 1,
        forall|n: Seq<char>| n != name@ && spec_visited(v@, n) ==> spec_visited(r@, n),
{
    let mut r: Vec<String> = Vec::new();
    let mut skipped = false;
    let mut i: usize = 0;
    while i < v.len()
        invariant
            0 <= i <= v@.len(),
            !skipped ==> r@.len() == i && (forall|k: int|
                0 <= k < i ==> r@[k] == v@[k] && v@[k]@ != name@),
            skipped ==> r@.len() == i - 1 && (forall|n: Seq<char>|
                n != name@ && spec_visited(v@.take(i as int), n) ==> spec_visited(r@, n)),
        decreases v@.len() - i,
    {
        let ghost pre = r@;
        if !skipped && v[i] == *name {
            skipped = true;
            proof {
                assert forall|n: Seq<char>|
                    n != name@ && spec_visited(v@.take(i as int + 1), n) implies spec_visited(
                    r@,
                    n,
                ) by {
                    let k = choose|k: int| 0 <= k < i + 1 && (#[trigger] v@.take(i as int + 1)[k])@ == n;
                    assert(v@[k]@ == n);
                    assert(k < i);
                    assert(r@[k]@ == n);
                }
            }
        } else {
            r.push(v[i].clone());
            proof {
                if skipped {
                    assert forall|n: Seq<char>|
                        n != name@ && spec_visited(v@.take(i as int + 1), n) implies spec_visited(
                        r@,
                        n,
                    ) by {
                        let k = choose|k: int|
                            0 <= k < i + 1 && (#[trigger] v@.take(i as int + 1)[k])@ == n;
                        assert(v@.take(i as int + 1)[k] == v@[k]);
                        if k < i {
                            assert(v@.take(i as int)[k] == v@[k]);
                            assert(spec_visited(v@.take(i as int), n));
                            assert(spec_visited(pre, n));
                            let k2 = choose|k2: int|
                                0 <= k2 < pre.len() && (#[trigger] pre[k2])@ == n;
                            assert(r@[k2] == pre[k2]);
                            assert(r@[k2]@ == n);
                        } else {
                            assert(v@[k]@ == n);
                            assert(r@[r@.len() - 1]@ == n);
                        }
                    }
                }
            }
        }
        i += 1;
    }
    proof {
        if !skipped {
            let k = choose|k: int| 0 <= k < v@.len() && v@[k]@ == name@;
            assert(false);
        }
        assert(v@.take(v@.len() as int) =~= v@);
    }
    r
}

/// The decision already made for `name`, if any.
fn find_decision(decided: &Vec<Decision>, name: &String) -> (r: Option<usize>)
    ensures
        match r {
            Option::Some(i) => i < decided@.len() && dviews(decided@)[i as int].package == name@,
            Option::None => !name_decided(dviews(decided@), name@),
        },
{
    let mut i: usize = 0;
    while i < decided.len()
        invariant
            0 <= i <= decided@.len(),
            forall|k: int| 0 <= k < i ==> dviews(decided@)[k].package != name@,
        decreases decided@.len() - i,
    {
        proof {
            assert(dviews(decided@)[i as int] == decided@[i as int]@);
        }
        if decided[i].package == *name {
            return Option::Some(i);
        }
        i += 1;
    }
    Option::None
}

/// Check and collect the dependency edges of one decided entry for the
/// worklist: a self-edge is dropped (it was vetted already), any other edge
/// must carry an acceptable URL pin. A URL pin a direct requirement never
/// registered is disallowed; one that disagrees canonically with the
/// registered pin is a conflict. Both abort the resolution.
fn vet_dependencies(
    package: &String,
    deps: &Vec<Requirement>,
    urls: &Vec<(String, String)>,
) -> (r: Result<Vec<Requirement>, ResolveError>)
    ensures
        match r {
            Result::Ok(out) => (out@.len() == 0 || deps@.len() > 0) && (forall|j: int|
                0 <= j < deps@.len() && (#[trigger] deps@[j]@).name != package@ ==> pending_has(
                    rviews(out@),
                    deps@[j]@,
                )) && (forall|j: int|
                0 <= j < deps@.len() && (#[trigger] deps@[j]@).name != package@ ==> !dep_url_bad(
                    urls@,
                    deps@[j]@,
                )),
            Result::Err(e) => (e is DisallowedUrl || e is ConflictingUrls) && (e matches
                ResolveError::ConflictingUrls(n, w, u) ==> url_canon(w@) != url_canon(u@))
                && exists|j: int| 0 <= j < deps@.len() && dep_url_bad(urls@, #[trigger] deps@[j]@),
        },
{
    let mut out: Vec<Requirement> = Vec::new();
    let mut j: usize = 0;
    while j < deps.len()
        invariant
            0 <= j <= deps@.len(),
            out@.len() == 0 || deps@.len() > 0,
            forall|k: int|
                0 <= k < j && (#[trigger] deps@[k]@).name != package@ ==> pending_has(
                    rviews(out@),
                    deps@[k]@,
                ),
            forall|k: int|
                0 <= k < j && (#[trigger] deps@[k]@).name != package@ ==> !dep_url_bad(
                    urls@,
                    deps@[k]@,
                ),
        decreases deps@.len() - j,
    {
        let d = &deps[j];
        let ghost pre = out@;
        if d.name == *package {
        } else {
            match &d.url {
                Option::None => {
                    out.push(d.duplicate());
                    proof {
                        assert(rviews(out@)[out@.len() - 1] == deps@[j as int]@);
                    }
                }
                Option::Some(u) => {
                    match find_url(urls, &d.name) {
                        Option::None => {
                            proof {
                                assert(dep_url_bad(urls@, deps@[j as int]@));
                            }
                            return Result::Err(
                                ResolveError::DisallowedUrl(d.name.clone(), u.clone()),
                            );
                        }
                        Option::Some(w) => {
                            if urls_equivalent(w.as_str(), u.as_str()) {
                                out.push(d.duplicate());
                                proof {
                                    assert(rviews(out@)[out@.len() - 1] == deps@[j as int]@);
                                }
                            } else {
                                proof {
                                    assert(dep_url_bad(urls@, deps@[j as int]@));
                                }
                                return Result::Err(
                                    ResolveError::ConflictingUrls(
                                        d.name.clone(),
                                        w.clone(),
                                        u.clone(),
                                    ),
                                );
                            }
                        }
                    }
                }
            }
        }
        proof {
            assert forall|k: int|
                0 <= k < j + 1 && (#[trigger] deps@[k]@).name != package@ implies pending_has(
                rviews(out@),
                deps@[k]@,
            ) by {
                if k < j {
                    if pending_has(rviews(pre), deps@[k]@) {
                        let w = choose|w: int|
                            0 <= w < pre.len() && rviews(pre)[w] == deps@[k]@;
                        assert(rviews(out@)[w] == deps@[k]@);
                    }
                } else {
                    assert(rviews(out@)[out@.len() - 1] == deps@[k]@);
                }
            }
        }
        j += 1;
    }
    Result::Ok(out)
}

/// The ordered positions in `map` of the candidates to try for `name` under
/// `range`: the policy's selection first, then the remaining admissible
/// entries in the policy's direction. Every listed entry lies in the range
/// and is usable in the environment; the head is exactly the policy's
/// selection, and an empty order means the policy selects nothing at all.
fn candidate_order(
    selector: &CandidateSelector,
    name: &String,
    range: &VersionRange,
    map: &VersionMap,
    py: &PythonRequirement,
) -> (r: Vec<usize>)
    ensures
        forall|k: int|
            0 <= k < r@.len() ==> (#[trigger] r@[k]) < map@.len() && ivs_contain(
                range.intervals@,
                map@[r@[k] as int].version,
            ) && map@[r@[k] as int].python_ok(*py),
        r@.len() == 0 ==> selector.spec_select(name@, map@, range.intervals@, *py) is None,
        r@.len() > 0 ==> selector.spec_select(name@, map@, range.intervals@, *py)
            == Option::Some(map@[r@[0] as int]),
{
    let mut out: Vec<usize> = Vec::new();
    let sel = selector.select_index(name, range, map, py);
    match sel {
        Option::Some(i) => {
            proof {
                lemma_select_admissible(*selector, name@, map@, range.intervals@, *py);
            }
            out.push(i);
        }
        Option::None => {}
    }
    let allow = selector.allows_pre(name);
    proof {
        if sel is None {
            match selector.mode {
                crate::selector::ResolutionMode::Highest => {
                    crate::selector::lemma_highest_none(
                        map@,
                        range.intervals@,
                        *py,
                        selector.spec_allows_pre(name@),
                    );
                }
                crate::selector::ResolutionMode::Lowest => {
                    crate::selector::lemma_lowest_none(
                        map@,
                        range.intervals@,
                        *py,
                        selector.spec_allows_pre(name@),
                    );
                }
            }
        }
    }
    let mut k: usize = 0;
    while k < map.entries.len()
        invariant
            0 <= k <= map.entries@.len(),
            map@.len() == map.entries@.len(),
            allow == selector.spec_allows_pre(name@),
            forall|q: int|
                0 <= q < out@.len() ==> (#[trigger] out@[q]) < map@.len() && ivs_contain(
                    range.intervals@,
                    map@[out@[q] as int].version,
                ) && map@[out@[q] as int].python_ok(*py),
            out@.len() >= (if sel is Some { 1int } else { 0int }),
            sel is None ==> forall|q: int|
                0 <= q < map@.len() ==> !crate::selector::admissible(
                    #[trigger] map@[q],
                    range.intervals@,
                    *py,
                    allow,
                ),
            sel is None ==> out@.len() == 0,
            out@.len() > 0 ==> selector.spec_select(name@, map@, range.intervals@, *py)
                == Option::Some(map@[out@[0] as int]),
        decreases map.entries@.len() - k,
    {
        // iterate ascending; for highest-first resolution read from the end
        let idx = match selector.mode {
            crate::selector::ResolutionMode::Highest => map.entries.len() - 1 - k,
            crate::selector::ResolutionMode::Lowest => k,
        };
        let already = match sel {
            Option::Some(i) => i == idx,
            Option::None => false,
        };
        if !already {
            proof {
                assert(map@[idx as int] == map.entries@[idx as int]@);
            }
            let e = &map.entries[idx];
            if range.contains(&e.version) && e.python_ok(py) && (allow || !e.version.is_pre()) {
                out.push(idx);
            }
        }
        k += 1;
    }
    out
}

/// The recursive search: discharge the worklist in order, deciding one
/// undecided package at a time and backtracking over its candidates.
fn solve_rec(
    ledger: &FetchLedger,
    selector: &CandidateSelector,
    py: &PythonRequirement,
    urls: &Vec<(String, String)>,
    pending: &Vec<Requirement>,
    decided: &Vec<Decision>,
    undecided: &Vec<String>,
    visited: &mut Vec<String>,
) -> (r: Result<Vec<Decision>, SolverFail>)
    requires
        ledger.wf(),
        unique_names(dviews(decided@)),
        forall|i: int|
            0 <= i < decided@.len() ==> decision_valid(*ledger, *py, #[trigger] dviews(
                decided@,
            )[i]),
        obligations_ok(dviews(decided@), rviews(pending@)),
        forall|n: Seq<char>, m: VersionMap|
            #[trigger] ledger.spec_state_is(n, FetchState::Ready(m)) && !name_decided(
                dviews(decided@),
                n,
            ) ==> spec_visited(undecided@, n),
    ensures
        (r matches Result::Ok(res) ==> {
            &&& res@.len() >= decided@.len()
            &&& forall|k: int| 0 <= k < decided@.len() ==> dviews(res@)[k] == dviews(decided@)[k]
            &&& unique_names(dviews(res@))
            &&& forall|i: int|
                0 <= i < res@.len() ==> decision_valid(*ledger, *py, #[trigger] dviews(res@)[i])
            &&& deps_closed(dviews(res@))
            &&& forall|k: int|
                0 <= k < pending@.len() ==> satisfies(dviews(res@), #[trigger] rviews(pending@)[k])
        }),
        (r matches Result::Err(f) ==> (f matches SolverFail::Fatal(e) ==> fatal_evidence(
            *ledger,
            e,
        ))),
        pending@.len() == 0 ==> r is Ok,
        (plainly_satisfiable(*ledger, *selector, *py, rviews(pending@)) && (forall|k: int|
            0 <= k < pending@.len() ==> !name_decided(
                dviews(decided@),
                (#[trigger] rviews(pending@)[k]).name,
            ))) ==> r is Ok,
    decreases undecided@.len(), pending@.len(),
{
    if pending.len() == 0 {
        let res = duplicate_decisions(decided);
        proof {
            assert(dviews(res@) =~= dviews(decided@));
            assert forall|i: int, j: int|
                0 <= i < dviews(res@).len() && 0 <= j < dviews(res@)[i].entry.deps.len() implies dep_ok(
                dviews(res@),
                dviews(res@)[i],
                dviews(res@)[i].entry.deps[j],
            ) by {
                assert(dep_covered(
                    dviews(decided@),
                    rviews(pending@),
                    dviews(decided@)[i],
                    dviews(decided@)[i].entry.deps[j],
                ));
                assert(rviews(pending@).len() == 0);
            }
        }
        return Result::Ok(res);
    }
    let head = &pending[0];
    let ghost headv = head@;
    proof {
        assert(rviews(pending@)[0] == pending@[0]@);
    }
    match find_decision(decided, &head.name) {
        Option::Some(di) => {
            let d = &decided[di];
            proof {
                assert(dviews(decided@)[di as int] == decided@[di as int]@);
            }
            if head.range.contains(&d.entry.version) {
                let rest = duplicate_reqs_from(pending, 1);
                proof {
                    assert(satisfies(dviews(decided@), headv)) by {
                        assert(dviews(decided@)[di as int].package == headv.name);
                    }
                    assert forall|i: int, j: int|
                        0 <= i < dviews(decided@).len() && 0 <= j < dviews(
                            decided@,
                        )[i].entry.deps.len() implies dep_covered(
                        dviews(decided@),
                        rviews(rest@),
                        dviews(decided@)[i],
                        dviews(decided@)[i].entry.deps[j],
                    ) by {
                        let dep = dviews(decided@)[i].entry.deps[j];
                        assert(dep_covered(
                            dviews(decided@),
                            rviews(pending@),
                            dviews(decided@)[i],
                            dep,
                        ));
                        if dep.name != dviews(decided@)[i].package && !satisfies(
                            dviews(decided@),
                            dep,
                        ) {
                            let k = choose|k: int|
                                0 <= k < rviews(pending@).len() && rviews(pending@)[k] == dep;
                            if k == 0 {
                                assert(dep == headv);
                                assert(satisfies(dviews(decided@), dep));
                            } else {
                                assert(rviews(rest@)[k - 1] == rviews(pending@)[k]);
                            }
                        }
                    }
                }
                let r = solve_rec(ledger, selector, py, urls, &rest, decided, undecided, visited);
                match r {
                    Result::Ok(res) => {
                        proof {
                            assert(dviews(res@)[di as int] == dviews(decided@)[di as int]);
                            assert(satisfies(dviews(res@), headv));
                            assert forall|k: int| 0 <= k < pending@.len() implies satisfies(
                                dviews(res@),
                                #[trigger] rviews(pending@)[k],
                            ) by {
                                if k > 0 {
                                    assert(rviews(rest@)[k - 1] == rviews(pending@)[k]);
                                    assert(satisfies(dviews(res@), rviews(rest@)[k - 1]));
                                }
                            }
                        }
                        Result::Ok(res)
                    }
                    Result::Err(e) => Result::Err(e),
                }
            } else {
                // the decided version falls outside this requirement's range
                Result::Err(
                    SolverFail::Conflict(
                        DerivationTree::External(
                            External::NoVersions(
                                PubGrubPackage::Package {
                                    name: head.name.clone(),
                                    extra: Option::None,
                                    url: Option::None,
                                },
                                head.range.duplicate(),
                            ),
                        ),
                    ),
                )
            }
        }
        Option::None => {
            // the index access marks the name as examined
            mark_visited(visited, &head.name);
            match ledger.get(&head.name) {
                Option::None => Result::Err(
                    SolverFail::Conflict(
                        DerivationTree::External(
                            External::NoVersions(
                                PubGrubPackage::Package {
                                    name: head.name.clone(),
                                    extra: Option::None,
                                    url: Option::None,
                                },
                                head.range.duplicate(),
                            ),
                        ),
                    ),
                ),
                Option::Some(map) => {
                    proof {
                        assert(ledger.spec_state_is(headv.name, FetchState::Ready(*map)));
                        assert(spec_visited(undecided@, headv.name));
                    }
                    let order = candidate_order(selector, &head.name, &head.range, map, py);
                    let undecided2 = remove_first_name(undecided, &head.name);
                    // a version kept out only by its interpreter range is
                    // blamed on the virtual interpreter package, so the
                    // report can show the environment requirement
                    let mut py_tree: Option<DerivationTree> = Option::None;
                    let mut pk: usize = 0;
                    while pk < map.entries.len()
                        invariant
                            pending@.len() >= 1,
                            head == &pending@[0],
                        decreases map.entries@.len() - pk,
                    {
                        let e = &map.entries[pk];
                        if head.range.contains(&e.version) && !e.python_ok(py) {
                            match &e.requires_python {
                                Option::None => {}
                                Option::Some(rp) => {
                                    let culprit = if !rp.contains(&py.target) {
                                        PubGrubPython::Target
                                    } else {
                                        PubGrubPython::Installed
                                    };
                                    py_tree = Option::Some(
                                        DerivationTree::External(
                                            External::FromDependencyOf(
                                                PubGrubPackage::Package {
                                                    name: head.name.clone(),
                                                    extra: Option::None,
                                                    url: Option::None,
                                                },
                                                VersionRange::exact(e.version),
                                                PubGrubPackage::Python(culprit),
                                                rp.duplicate(),
                                            ),
                                        ),
                                    );
                                }
                            }
                        }
                        pk += 1;
                    }
                    let mut tree = match py_tree {
                        Option::Some(t) => t,
                        Option::None => DerivationTree::External(
                            External::NoVersions(
                                PubGrubPackage::Package {
                                    name: head.name.clone(),
                                    extra: Option::None,
                                    url: Option::None,
                                },
                                head.range.duplicate(),
                            ),
                        ),
                    };
                    let mut ci: usize = 0;
                    while ci < order.len()
                        invariant
                            0 <= ci <= order@.len(),
                            ledger.wf(),
                            ledger.spec_state_is(headv.name, FetchState::Ready(*map)),
                            map@.len() == map.entries@.len(),
                            headv == pending@[0]@,
                            pending@.len() >= 1,
                            head == &pending@[0],
                            headv.name == head.name@,
                            headv.ivs == head.range.intervals@,
                            undecided2@.len() == undecided@.len() - 1,
                            forall|n: Seq<char>|
                                n != headv.name && spec_visited(undecided@, n) ==> spec_visited(
                                    undecided2@,
                                    n,
                                ),
                            unique_names(dviews(decided@)),
                            !name_decided(dviews(decided@), headv.name),
                            forall|i: int|
                                0 <= i < decided@.len() ==> decision_valid(
                                    *ledger,
                                    *py,
                                    #[trigger] dviews(decided@)[i],
                                ),
                            obligations_ok(dviews(decided@), rviews(pending@)),
                            forall|n: Seq<char>, m: VersionMap|
                                #[trigger] ledger.spec_state_is(n, FetchState::Ready(m))
                                    && !name_decided(dviews(decided@), n) ==> spec_visited(
                                    undecided@,
                                    n,
                                ),
                            forall|k: int|
                                0 <= k < order@.len() ==> (#[trigger] order@[k]) < map@.len()
                                    && ivs_contain(headv.ivs, map@[order@[k] as int].version)
                                    && map@[order@[k] as int].python_ok(*py),
                            order@.len() == 0 ==> selector.spec_select(
                                headv.name,
                                map@,
                                headv.ivs,
                                *py,
                            ) is None,
                            order@.len() > 0 ==> selector.spec_select(
                                headv.name,
                                map@,
                                headv.ivs,
                                *py,
                            ) == Option::Some(map@[order@[0] as int]),
                            (plainly_satisfiable(*ledger, *selector, *py, rviews(pending@)) && (
                            forall|k: int|
                                0 <= k < pending@.len() ==> !name_decided(
                                    dviews(decided@),
                                    (#[trigger] rviews(pending@)[k]).name,
                                ))) ==> ci == 0,
                        decreases order@.len() - ci,
                    {
                        let oi = order[ci];
                        let e = &map.entries[oi];
                        let ghost plain = plainly_satisfiable(
                            *ledger,
                            *selector,
                            *py,
                            rviews(pending@),
                        ) && (forall|k: int|
                            0 <= k < pending@.len() ==> !name_decided(
                                dviews(decided@),
                                (#[trigger] rviews(pending@)[k]).name,
                            ));
                        proof {
                            assert(map@[oi as int] == map.entries@[oi as int]@);
                            if plain {
                                assert(ci == 0);
                                assert(rviews(pending@)[0] == headv);
                                let m0 = choose|m0: VersionMap|
                                    ledger.spec_state_is(headv.name, FetchState::Ready(m0))
                                        && selector.spec_select(headv.name, m0@, headv.ivs, *py)
                                        is Some && selector.spec_select(
                                        headv.name,
                                        m0@,
                                        headv.ivs,
                                        *py,
                                    ).unwrap().deps.len() == 0;
                                crate::index::lemma_one_result(*ledger, headv.name, m0, *map);
                                assert(selector.spec_select(
                                    headv.name,
                                    map@,
                                    headv.ivs,
                                    *py,
                                ).unwrap().deps.len() == 0);
                                assert(order@.len() > 0);
                                assert(map@[oi as int].deps.len() == 0);
                                assert(rviews(e.dependencies@).len() == 0);
                            }
                        }
                        if has_self_conflict(&head.name, &e.version, &e.dependencies) {
                            proof {
                                if plain {
                                    assert(!spec_self_conflict(
                                        head.name@,
                                        e.version,
                                        rviews(e.dependencies@),
                                    ));
                                    assert(false);
                                }
                            }
                            let err = ResolveError::from_solver_error(
                                SolverError::SelfDependency {
                                    package: PubGrubPackage::Package {
                                        name: head.name.clone(),
                                        extra: Option::None,
                                        url: Option::None,
                                    },
                                    version: e.version,
                                },
                            );
                            proof {
                                assert(map@[oi as int].version == e.version);
                                assert(map@[oi as int].deps == rviews(e.dependencies@));
                                assert(spec_self_conflict(
                                    headv.name,
                                    e.version,
                                    map@[oi as int].deps,
                                ));
                                lemma_self_dep_fatal(
                                    *ledger,
                                    err,
                                    headv.name,
                                    *map,
                                    oi as int,
                                    e.version,
                                );
                            }
                            return Result::Err(SolverFail::Fatal(err));
                        }
                        match vet_dependencies(&head.name, &e.dependencies, urls) {
                            Result::Err(fe) => {
                                proof {
                                    if plain {
                                        let bad = choose|j: int|
                                            0 <= j < e.dependencies@.len() && dep_url_bad(
                                                urls@,
                                                e.dependencies@[j]@,
                                            );
                                        assert(false);
                                    }
                                }
                                return Result::Err(SolverFail::Fatal(fe));
                            }
                            Result::Ok(new_reqs) => {
                                let mut pend2 = duplicate_reqs_from(pending, 1);
                                let ghost restv = rviews(pend2@);
                                let mut new_reqs = new_reqs;
                                let ghost newv = rviews(new_reqs@);
                                pend2.append(&mut new_reqs);
                                let mut dec2 = duplicate_decisions(decided);
                                dec2.push(
                                    Decision { package: head.name.clone(), entry: e.duplicate() },
                                );
                                let ghost n = decided@.len() as int;
                                let ghost dv2 = dviews(dec2@);
                                let ghost newd = DecisionView {
                                    package: headv.name,
                                    entry: map@[oi as int],
                                };
                                proof {
                                    assert(rviews(pend2@) =~= restv + newv);
                                    assert(dv2.len() == n + 1);
                                    assert(dv2[n] == dec2@[n]@);
                                    assert(dec2@[n]@ == newd);
                                    assert forall|k: int| 0 <= k < n implies dv2[k] == dviews(
                                        decided@,
                                    )[k] by {
                                        assert(dv2[k] == dec2@[k]@);
                                    }
                                    assert(unique_names(dv2)) by {
                                        assert forall|i: int, j: int|
                                            0 <= i < j < dv2.len() implies dv2[i].package
                                            != dv2[j].package by {
                                            if j < n {
                                                assert(dviews(decided@)[i].package != dviews(
                                                    decided@,
                                                )[j].package);
                                            } else {
                                                assert(dv2[j].package == headv.name);
                                                if dv2[i].package == headv.name {
                                                    assert(name_decided(
                                                        dviews(decided@),
                                                        headv.name,
                                                    ));
                                                }
                                            }
                                        }
                                    }
                                    assert(decision_valid(*ledger, *py, newd)) by {
                                        assert(oi == order@[ci as int]);
                                        assert(map@[oi as int].python_ok(*py));
                                        assert(newd.entry == map@[oi as int]);
                                        assert(ledger.spec_state_is(
                                            newd.package,
                                            FetchState::Ready(*map),
                                        ));
                                        assert(exists|i: int|
                                            0 <= i < map@.len() && map@[i] == newd.entry);
                                    }
                                    assert forall|i: int| 0 <= i < dv2.len() implies decision_valid(
                                        *ledger,
                                        *py,
                                        #[trigger] dv2[i],
                                    ) by {
                                        if i < n {
                                            assert(dv2[i] == dviews(decided@)[i]);
                                        }
                                    }
                                    assert(satisfies(dv2, headv)) by {
                                        assert(dv2[n].package == headv.name && ivs_contain(
                                            headv.ivs,
                                            dv2[n].entry.version,
                                        ));
                                    }
                                    assert forall|i: int, j: int|
                                        0 <= i < dv2.len() && 0 <= j
                                            < dv2[i].entry.deps.len() implies dep_covered(
                                        dv2,
                                        rviews(pend2@),
                                        dv2[i],
                                        #[trigger] dv2[i].entry.deps[j],
                                    ) by {
                                        let dep = dv2[i].entry.deps[j];
                                        if i < n {
                                            assert(dv2[i] == dviews(decided@)[i]);
                                            assert(dep_covered(
                                                dviews(decided@),
                                                rviews(pending@),
                                                dviews(decided@)[i],
                                                dviews(decided@)[i].entry.deps[j],
                                            ));
                                            if dep.name != dv2[i].package {
                                                if satisfies(dviews(decided@), dep) {
                                                    let w = choose|w: int|
                                                        0 <= w < dviews(decided@).len() && dviews(
                                                            decided@,
                                                        )[w].package == dep.name && ivs_contain(
                                                            dep.ivs,
                                                            dviews(decided@)[w].entry.version,
                                                        );
                                                    assert(dv2[w] == dviews(decided@)[w]);
                                                    assert(satisfies(dv2, dep));
                                                } else if pending_has(rviews(pending@), dep) {
                                                    let k = choose|k: int|
                                                        0 <= k < rviews(pending@).len() && rviews(
                                                            pending@,
                                                        )[k] == dep;
                                                    if k == 0 {
                                                        assert(dep == headv);
                                                        assert(satisfies(dv2, dep));
                                                    } else {
                                                        assert(rviews(pend2@)[k - 1] == rviews(
                                                            pending@,
                                                        )[k]);
                                                        assert(pending_has(rviews(pend2@), dep));
                                                    }
                                                }
                                            }
                                        } else {
                                            assert(dv2[i] == newd);
                                            assert(newd.entry.deps == map@[oi as int].deps);
                                            assert(map@[oi as int].deps == rviews(
                                                e.dependencies@,
                                            ));
                                            assert(dep == rviews(e.dependencies@)[j]);
                                            assert(rviews(e.dependencies@)[j]
                                                == e.dependencies@[j]@);
                                            if dep.name == newd.package {
                                                assert(!spec_self_conflict(
                                                    headv.name,
                                                    e.version,
                                                    rviews(e.dependencies@),
                                                ));
                                                assert(ivs_contain(dep.ivs, newd.entry.version));
                                            } else {
                                                assert(pending_has(newv, dep));
                                                let k = choose|k: int|
                                                    0 <= k < newv.len() && newv[k] == dep;
                                                assert(rviews(pend2@)[restv.len() + k] == dep);
                                                assert(pending_has(rviews(pend2@), dep));
                                            }
                                        }
                                    }
                                    assert forall|nn: Seq<char>, m: VersionMap|
                                        #[trigger] ledger.spec_state_is(nn, FetchState::Ready(m))
                                            && !name_decided(dv2, nn) implies spec_visited(
                                        undecided2@,
                                        nn,
                                    ) by {
                                        if nn == headv.name {
                                            assert(dv2[n].package == nn);
                                            assert(name_decided(dv2, nn));
                                        } else {
                                            if name_decided(dviews(decided@), nn) {
                                                let w = choose|w: int|
                                                    0 <= w < dviews(decided@).len() && dviews(
                                                        decided@,
                                                    )[w].package == nn;
                                                assert(dv2[w].package == nn);
                                                assert(name_decided(dv2, nn));
                                            } else {
                                                assert(spec_visited(undecided@, nn));
                                            }
                                        }
                                    }
                                }
                                proof {
                                    if plain {
                                        assert(newv.len() == 0);
                                        assert(rviews(pend2@) =~= restv);
                                        assert forall|k: int|
                                            0 <= k < restv.len() implies restv[k] == rviews(
                                            pending@,
                                        )[k + 1] by {
                                            assert(restv[k] == pending@[k + 1]@);
                                            assert(rviews(pending@)[k + 1] == pending@[k + 1]@);
                                        }
                                        assert forall|i: int, j: int|
                                            0 <= i < j < rviews(pend2@).len() implies (
                                        #[trigger] rviews(pend2@)[i]).name != (#[trigger] rviews(
                                            pend2@,
                                        )[j]).name by {
                                            assert(rviews(pend2@)[i] == rviews(pending@)[i + 1]);
                                            assert(rviews(pend2@)[j] == rviews(pending@)[j + 1]);
                                            assert(rviews(pending@)[i + 1].name != rviews(
                                                pending@,
                                            )[j + 1].name);
                                        }
                                        assert forall|i: int|
                                            0 <= i < rviews(pend2@).len() implies exists|m2:
                                            VersionMap|
                                            #[trigger] ledger.spec_state_is(
                                                (#[trigger] rviews(pend2@)[i]).name,
                                                FetchState::Ready(m2),
                                            ) && selector.spec_select(
                                                rviews(pend2@)[i].name,
                                                m2@,
                                                rviews(pend2@)[i].ivs,
                                                *py,
                                            ) is Some && selector.spec_select(
                                                rviews(pend2@)[i].name,
                                                m2@,
                                                rviews(pend2@)[i].ivs,
                                                *py,
                                            ).unwrap().deps.len() == 0 by {
                                            assert(rviews(pend2@)[i] == rviews(pending@)[i + 1]);
                                        }
                                        assert(plainly_satisfiable(
                                            *ledger,
                                            *selector,
                                            *py,
                                            rviews(pend2@),
                                        ));
                                        assert forall|k: int|
                                            0 <= k < pend2@.len() implies !name_decided(
                                            dv2,
                                            (#[trigger] rviews(pend2@)[k]).name,
                                        ) by {
                                            assert(rviews(pend2@)[k] == rviews(pending@)[k + 1]);
                                            if name_decided(dv2, rviews(pending@)[k + 1].name) {
                                                let w = choose|w: int|
                                                    0 <= w < dv2.len() && dv2[w].package == rviews(
                                                        pending@,
                                                    )[k + 1].name;
                                                if w < n {
                                                    assert(dv2[w] == dviews(decided@)[w]);
                                                    assert(name_decided(
                                                        dviews(decided@),
                                                        rviews(pending@)[k + 1].name,
                                                    ));
                                                    assert(false);
                                                } else {
                                                    assert(dv2[w].package == headv.name);
                                                    assert(rviews(pending@)[0].name != rviews(
                                                        pending@,
                                                    )[k + 1].name);
                                                    assert(false);
                                                }
                                            }
                                        }
                                    }
                                }
                                let sub = solve_rec(
                                    ledger,
                                    selector,
                                    py,
                                    urls,
                                    &pend2,
                                    &dec2,
                                    &undecided2,
                                    visited,
                                );
                                proof {
                                    if plain {
                                        assert(sub is Ok);
                                    }
                                }
                                match sub {
                                    Result::Ok(res) => {
                                        proof {
                                            assert(dviews(res@)[n] == dv2[n]);
                                            assert forall|k: int|
                                                0 <= k < decided@.len() implies dviews(res@)[k]
                                                == dviews(decided@)[k] by {
                                                assert(dviews(res@)[k] == dv2[k]);
                                            }
                                            assert(satisfies(dviews(res@), headv)) by {
                                                assert(dviews(res@)[n].package == headv.name
                                                    && ivs_contain(
                                                    headv.ivs,
                                                    dviews(res@)[n].entry.version,
                                                ));
                                            }
                                            assert forall|k: int|
                                                0 <= k < pending@.len() implies satisfies(
                                                dviews(res@),
                                                #[trigger] rviews(pending@)[k],
                                            ) by {
                                                if k > 0 {
                                                    assert(rviews(pend2@)[k - 1] == rviews(
                                                        pending@,
                                                    )[k]);
                                                    assert(satisfies(
                                                        dviews(res@),
                                                        rviews(pend2@)[k - 1],
                                                    ));
                                                }
                                            }
                                        }
                                        return Result::Ok(res);
                                    }
                                    Result::Err(SolverFail::Fatal(fe)) => {
                                        return Result::Err(SolverFail::Fatal(fe));
                                    }
                                    Result::Err(SolverFail::Conflict(t)) => {
                                        let mut terms: Vec<(PubGrubPackage, VersionRange)> =
                                            Vec::new();
                                        terms.push(
                                            (
                                                PubGrubPackage::Package {
                                                    name: head.name.clone(),
                                                    extra: Option::None,
                                                    url: Option::None,
                                                },
                                                head.range.duplicate(),
                                            ),
                                        );
                                        tree = DerivationTree::Derived {
                                            terms,
                                            cause1: Box::new(tree),
                                            cause2: Box::new(t),
                                        };
                                    }
                                }
                            }
                        }
                        ci += 1;
                    }
                    proof {
                        if plainly_satisfiable(*ledger, *selector, *py, rviews(pending@)) && (
                        forall|k: int|
                            0 <= k < pending@.len() ==> !name_decided(
                                dviews(decided@),
                                (#[trigger] rviews(pending@)[k]).name,
                            )) {
                            assert(rviews(pending@)[0] == headv);
                            let m0 = choose|m0: VersionMap|
                                ledger.spec_state_is(headv.name, FetchState::Ready(m0))
                                    && selector.spec_select(headv.name, m0@, headv.ivs, *py)
                                    is Some && selector.spec_select(
                                    headv.name,
                                    m0@,
                                    headv.ivs,
                                    *py,
                                ).unwrap().deps.len() == 0;
                            crate::index::lemma_one_result(*ledger, headv.name, m0, *map);
                            assert(order@.len() > 0);
                            assert(false);
                        }
                    }
                    Result::Err(SolverFail::Conflict(tree))
                }
            }
        }
    }
}

/// A sound resolution chooses at most one identity per name, so no two
/// chosen identities can share a name while differing in any other way,
/// a URL pin included.
pub proof fn lemma_sound_one_identity_per_name(
    l: FetchLedger,
    py: PythonRequirement,
    reqs: Seq<ReqView>,
    res: Seq<DecisionView>,
    i: int,
    j: int,
)
    requires
        sound_resolution(l, py, reqs, res),
        0 <= i < res.len(),
        0 <= j < res.len(),
        res[i].package == res[j].package,
    ensures
        i == j,
{
    if i < j || j < i {
        assert(false);
    }
}

/// Every name whose metadata is fetched and cached, for the search to decide.
fn build_undecided(ledger: &FetchLedger) -> (r: Vec<String>)
    ensures
        forall|n: Seq<char>, m: VersionMap|
            #[trigger] ledger.spec_state_is(n, FetchState::Ready(m)) ==> spec_visited(r@, n),
{
    let mut r: Vec<String> = Vec::new();
    let mut i: usize = 0;
    while i < ledger.entries.len()
        invariant
            0 <= i <= ledger.entries@.len(),
            forall|k: int|
                0 <= k < i && (#[trigger] ledger.entries@[k]).1 is Ready ==> spec_visited(
                    r@,
                    ledger.entries@[k].0@,
                ),
        decreases ledger.entries@.len() - i,
    {
        let ghost pre = r@;
        let is_ready = match &ledger.entries[i].1 {
            FetchState::Ready(_) => true,
            _ => false,
        };
        if is_ready {
            r.push(ledger.entries[i].0.clone());
        }
        proof {
            assert forall|k: int|
                0 <= k < i + 1 && (#[trigger] ledger.entries@[k]).1 is Ready implies spec_visited(
                r@,
                ledger.entries@[k].0@,
            ) by {
                if k < i {
                    let w = choose|w: int|
                        0 <= w < pre.len() && (#[trigger] pre[w])@ == ledger.entries@[k].0@;
                    assert(r@[w]@ == ledger.entries@[k].0@);
                } else {
                    assert(r@[r@.len() - 1]@ == ledger.entries@[k].0@);
                }
            }
        }
        i += 1;
    }
    proof {
        assert forall|n: Seq<char>, m: VersionMap|
            #[trigger] ledger.spec_state_is(n, FetchState::Ready(m)) implies spec_visited(
            r@,
            n,
        ) by {
            let k = choose|k: int|
                0 <= k < ledger.entries@.len() && ledger.entries@[k].0@ == n && ledger.entries@[k].1
                    == FetchState::Ready(m);
            assert(ledger.entries@[k].1 is Ready);
        }
    }
    r
}

/// Whether a root requirement matches zero offerable versions: its name has
/// no fetched version map, or the policy selects nothing from it.
pub open spec fn root_not_found(
    ledger: FetchLedger,
    selector: CandidateSelector,
    py: PythonRequirement,
    q: ReqView,
) -> bool {
    ||| forall|m: VersionMap| !ledger.spec_state_is(q.name, FetchState::Ready(m))
    ||| exists|m: VersionMap|
        #[trigger] ledger.spec_state_is(q.name, FetchState::Ready(m)) && selector.spec_select(
            q.name,
            m@,
            q.ivs,
            py,
        ) is None
}

impl Resolution {
    /// The version decided for `name`, if the resolution holds one.
    pub fn version_of(&self, name: &String) -> (r: Option<Version>)
        ensures
            match r {
                Option::Some(v) => exists|i: int|
                    0 <= i < dviews(self.decisions@).len() && (#[trigger] dviews(
                        self.decisions@,
                    )[i]).package == name@ && dviews(self.decisions@)[i].entry.version == v,
                Option::None => !name_decided(dviews(self.decisions@), name@),
            },
    {
        let mut i: usize = 0;
        while i < self.decisions.len()
            invariant
                0 <= i <= self.decisions@.len(),
                forall|k: int| 0 <= k < i ==> dviews(self.decisions@)[k].package != name@,
            decreases self.decisions@.len() - i,
        {
            proof {
                assert(dviews(self.decisions@)[i as int] == self.decisions@[i as int]@);
            }
            if self.decisions[i].package == *name {
                return Option::Some(self.decisions[i].entry.version);
            }
            i += 1;
        }
        Option::None
    }

    /// How many packages were decided.
    pub fn len(&self) -> (r: usize)
        ensures
            r == self.decisions@.len(),
    {
        self.decisions.len()
    }
}

/// Resolve the requirement set against the fetched index: compute one
/// decision per package satisfying every direct and transitive constraint,
/// or explain the failure. On success the result is sound: names are unique,
/// every requirement and every dependency edge of every decision is
/// satisfied by a valid entry of the index, admissible in the environment. A
/// root requirement that matches zero offerable versions is reported as
/// `NotFound`; an unsatisfiable but well-formed set is reported as
/// `NoSolution` with a derivation tree whose attached version evidence comes
/// only from maps actually fetched and packages actually visited.
pub fn resolve(
    requirements: &Vec<Requirement>,
    selector: &CandidateSelector,
    python_requirement: &PythonRequirement,
    ledger: &FetchLedger,
) -> (r: Result<Resolution, ResolveError>)
    requires
        ledger.wf(),
        ledger.maps_wf(),
    ensures
        (r matches Result::Ok(res) ==> sound_resolution(
            *ledger,
            *python_requirement,
            rviews(requirements@),
            dviews(res.decisions@),
        )),
        (r matches Result::Err(e) ==> (e matches ResolveError::NotFound(q) ==> exists|i: int|
            0 <= i < requirements@.len() && (#[trigger] requirements@[i])@ == q@ && root_not_found(
                *ledger,
                *selector,
                *python_requirement,
                q@,
            ))),
        has_url_conflict(rviews(requirements@)) ==> r matches Result::Err(
            ResolveError::ConflictingUrls(_, _, _),
        ),
        (!has_url_conflict(rviews(requirements@)) && (exists|i: int|
            0 <= i < requirements@.len() && root_not_found(
                *ledger,
                *selector,
                *python_requirement,
                (#[trigger] requirements@[i])@,
            ))) ==> r matches Result::Err(ResolveError::NotFound(_)),
        requirements@.len() == 0 ==> r is Ok,
        (plainly_satisfiable(*ledger, *selector, *python_requirement, rviews(requirements@))
            && !has_url_conflict(rviews(requirements@))) ==> r is Ok,
        (r matches Result::Err(e) ==> (e matches ResolveError::SelfDependency {
            package,
            version,
        } ==> self_dep_evidence(*ledger, *package, *version))),
        (r matches Result::Err(e) ==> (e matches ResolveError::ConflictingUrls(
            n,
            u1,
            u2,
        ) ==> url_canon(u1@) != url_canon(u2@))),
        (r matches Result::Err(e) ==> (e matches ResolveError::NoSolution(ns) ==> {
            &&& ns.python_requirement == Option::Some(*python_requirement)
            &&& ns.selector is Some
            &&& exists|vis: Seq<String>|
                crate::error::ns_context_honest(*ledger, *python_requirement, vis, ns)
        })),
{
    let urls = match register_urls(requirements) {
        Result::Ok(u) => u,
        Result::Err(e) => {
            return Result::Err(e);
        }
    };
    let mut visited: Vec<String> = Vec::new();
    // a requirement that matches zero versions is reported directly
    let mut i: usize = 0;
    while i < requirements.len()
        invariant
            0 <= i <= requirements@.len(),
            ledger.wf(),
            !has_url_conflict(rviews(requirements@)),
            forall|k: int|
                0 <= k < i ==> !root_not_found(
                    *ledger,
                    *selector,
                    *python_requirement,
                    (#[trigger] requirements@[k])@,
                ),
        decreases requirements@.len() - i,
    {
        let q = &requirements[i];
        mark_visited(&mut visited, &q.name);
        let found = match ledger.get(&q.name) {
            Option::None => false,
            Option::Some(m) => {
                match selector.select_index(&q.name, &q.range, m, python_requirement) {
                    Option::Some(_) => {
                        proof {
                            assert forall|m2: VersionMap|
                                #[trigger] ledger.spec_state_is(
                                    q.name@,
                                    FetchState::Ready(m2),
                                ) implies !(selector.spec_select(
                                q.name@,
                                m2@,
                                q.range.intervals@,
                                *python_requirement,
                            ) is None) by {
                                crate::index::lemma_one_result(*ledger, q.name@, m2, *m);
                            }
                            assert(!root_not_found(
                                *ledger,
                                *selector,
                                *python_requirement,
                                q@,
                            ));
                        }
                        true
                    }
                    Option::None => {
                        proof {
                            assert(root_not_found(*ledger, *selector, *python_requirement, q@));
                        }
                        false
                    }
                }
            }
        };
        if !found {
            proof {
                assert(requirements@[i as int]@ == q@);
                assert(root_not_found(*ledger, *selector, *python_requirement, q@));
                if plainly_satisfiable(
                    *ledger,
                    *selector,
                    *python_requirement,
                    rviews(requirements@),
                ) {
                    assert(rviews(requirements@)[i as int] == q@);
                    let m0 = choose|m0: VersionMap|
                        ledger.spec_state_is(q@.name, FetchState::Ready(m0))
                            && selector.spec_select(q@.name, m0@, q@.ivs, *python_requirement)
                            is Some && selector.spec_select(
                            q@.name,
                            m0@,
                            q@.ivs,
                            *python_requirement,
                        ).unwrap().deps.len() == 0;
                    assert forall|m2: VersionMap|
                        #[trigger] ledger.spec_state_is(
                            q@.name,
                            FetchState::Ready(m2),
                        ) implies !(selector.spec_select(q@.name, m2@, q@.ivs, *python_requirement)
                        is None) by {
                        crate::index::lemma_one_result(*ledger, q@.name, m2, m0);
                    }
                    assert(!root_not_found(*ledger, *selector, *python_requirement, q@));
                    assert(false);
                }
            }
            return Result::Err(ResolveError::NotFound(q.duplicate()));
        }
        proof {
            assert(requirements@[i as int]@ == q@);
        }
        i += 1;
    }
    let undecided = build_undecided(ledger);
    let pending = duplicate_reqs_from(requirements, 0);
    let decided: Vec<Decision> = Vec::new();
    proof {
        assert(dviews(decided@) =~= Seq::<DecisionView>::empty());
        assert(rviews(pending@) =~= rviews(requirements@));
    }
    let sub = solve_rec(
        ledger,
        selector,
        python_requirement,
        &urls,
        &pending,
        &decided,
        &undecided,
        &mut visited,
    );
    proof {
        if plainly_satisfiable(*ledger, *selector, *python_requirement, rviews(requirements@)) {
            assert(rviews(pending@) == rviews(requirements@));
            assert forall|k: int|
                0 <= k < pending@.len() implies !name_decided(
                dviews(decided@),
                (#[trigger] rviews(pending@)[k]).name,
            ) by {
                assert(dviews(decided@).len() == 0);
            }
            assert(sub is Ok);
        }
    }
    match sub {
        Result::Ok(decisions) => {
            proof {
                assert forall|k: int| 0 <= k < requirements@.len() implies satisfies(
                    dviews(decisions@),
                    #[trigger] rviews(requirements@)[k],
                ) by {
                    assert(rviews(pending@)[k] == rviews(requirements@)[k]);
                }
            }
            Result::Ok(Resolution { decisions })
        }
        Result::Err(SolverFail::Fatal(e)) => Result::Err(e),
        Result::Err(SolverFail::Conflict(tree)) => {
            match ResolveError::from_solver_error(SolverError::NoSolution(tree)) {
                ResolveError::NoSolution(ns) => {
                    let ns = ns.with_available_versions(python_requirement, &visited, ledger)
                        .with_selector(selector.duplicate()).with_python_requirement(
                        python_requirement,
                    );
                    proof {
                        assert(crate::error::ns_context_honest(
                            *ledger,
                            *python_requirement,
                            visited@,
                            ns,
                        ));
                    }
                    Result::Err(ResolveError::NoSolution(ns))
                }
                _ => {
                    proof {
                        assert(false);
                    }
                    Result::Err(ResolveError::StreamTermination)
                }
            }
        }
    }
}
} // verus!
