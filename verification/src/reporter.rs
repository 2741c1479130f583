use vstd::prelude::*;
use crate::derivation::{DerivationTree, External};
use crate::error::{NoSolutionError, ResolveError};
use crate::package::{PkgView, PubGrubPackage, PubGrubPython, PythonRequirement};
use crate::range::{VersionBound, VersionInterval, VersionRange};
use crate::selector::CandidateSelector;
use crate::text::version_text;
use crate::version::Version;

verus! {

/// The text of a package identity.
pub open spec fn package_text_spec(p: PkgView) -> Seq<char> {
    match p {
        PkgView::Root => "the requirements"@,
        PkgView::Python(PubGrubPython::Installed) => "the installed interpreter"@,
        PkgView::Python(PubGrubPython::Target) => "the target interpreter"@,
        PkgView::Package { name, extra, url } => {
            let with_extra = match extra {
                Option::None => name,
                Option::Some(e) => name + "["@ + e + "]"@,
            };
            match url {
                Option::None => with_extra,
                Option::Some(u) => with_extra + " @ "@ + u,
            }
        },
    }
}

/// Render a package identity for the report.
pub fn package_text(p: &PubGrubPackage) -> (r: String)
    ensures
        r@ == package_text_spec(p@),
{
    match p {
        PubGrubPackage::Root => String::from_str("the requirements"),
        PubGrubPackage::Python(PubGrubPython::Installed) => String::from_str(
            "the installed interpreter",
        ),
        PubGrubPackage::Python(PubGrubPython::Target) => String::from_str(
            "the target interpreter",
        ),
        PubGrubPackage::Package { name, extra, url } => {
            let mut s = name.clone();
            match extra {
                Option::None => {}
                Option::Some(e) => {
                    s.append("[");
                    s.append(e.as_str());
                    s.append("]");
                }
            }
            match url {
                Option::None => {}
                Option::Some(u) => {
                    s.append(" @ ");
                    s.append(u.as_str());
                }
            }
            proof {
                assert(s@ =~= package_text_spec(p@));
            }
            s
        }
    }
}

/// The text of one interval of a range.
pub open spec fn interval_text_spec(iv: VersionInterval) -> Seq<char> {
    match (iv.lo, iv.hi) {
        (VersionBound::Unbounded, VersionBound::Unbounded) => "any version"@,
        (VersionBound::Included(a), VersionBound::Included(b)) => if a == b {
            "=="@ + crate::text::version_text_spec(a)
        } else {
            ">="@ + crate::text::version_text_spec(a) + ", <="@ + crate::text::version_text_spec(b)
        },
        (lo, hi) => {
            let lo_part = match lo {
                VersionBound::Unbounded => Seq::<char>::empty(),
                VersionBound::Included(a) => ">="@ + crate::text::version_text_spec(a),
                VersionBound::Excluded(a) => ">"@ + crate::text::version_text_spec(a),
            };
            let sep = if !(lo is Unbounded) && !(hi is Unbounded) {
                ", "@
            } else {
                Seq::<char>::empty()
            };
            let hi_part = match hi {
                VersionBound::Unbounded => Seq::<char>::empty(),
                VersionBound::Included(b) => "<="@ + crate::text::version_text_spec(b),
                VersionBound::Excluded(b) => "<"@ + crate::text::version_text_spec(b),
            };
            lo_part + sep + hi_part
        },
    }
}

/// Render one interval of a range.
fn interval_text(iv: &VersionInterval) -> (r: String)
    ensures
        r@ == interval_text_spec(*iv),
{
    match (&iv.lo, &iv.hi) {
        (VersionBound::Unbounded, VersionBound::Unbounded) => String::from_str("any version"),
        (VersionBound::Included(a), VersionBound::Included(b)) => {
            if a == b {
                let mut s = String::from_str("==");
                let t = version_text(a);
                s.append(t.as_str());
                proof {
                    assert(s@ =~= interval_text_spec(*iv));
                }
                s
            } else {
                let mut s = String::from_str(">=");
                let t = version_text(a);
                s.append(t.as_str());
                s.append(", <=");
                let u = version_text(b);
                s.append(u.as_str());
                proof {
                    assert(s@ =~= interval_text_spec(*iv));
                }
                s
            }
        }
        (lo, hi) => {
            let mut s = String::new();
            let mut first = true;
            proof {
                assert(s@ =~= Seq::<char>::empty());
            }
            match lo {
                VersionBound::Unbounded => {}
                VersionBound::Included(a) => {
                    s.append(">=");
                    let t = version_text(a);
                    s.append(t.as_str());
                    first = false;
                }
                VersionBound::Excluded(a) => {
                    s.append(">");
                    let t = version_text(a);
                    s.append(t.as_str());
                    first = false;
                }
            }
            match hi {
                VersionBound::Unbounded => {}
                VersionBound::Included(b) => {
                    if !first {
                        s.append(", ");
                    }
                    s.append("<=");
                    let t = version_text(b);
                    s.append(t.as_str());
                }
                VersionBound::Excluded(b) => {
                    if !first {
                        s.append(", ");
                    }
                    s.append("<");
                    let t = version_text(b);
                    s.append(t.as_str());
                }
            }
            proof {
                assert(s@ =~= interval_text_spec(*iv));
            }
            s
        }
    }
}

/// The text of a list of intervals, joined by ` or `.
pub open spec fn intervals_text_spec(ivs: Seq<VersionInterval>) -> Seq<char>
    decreases ivs.len(),
{
    if ivs.len() == 0 {
        Seq::<char>::empty()
    } else if ivs.len() == 1 {
        interval_text_spec(ivs[0])
    } else {
        intervals_text_spec(ivs.drop_last()) + " or "@ + interval_text_spec(ivs.last())
    }
}

/// The text of a range: its intervals joined, or `no version`.
pub open spec fn range_text_spec(r: VersionRange) -> Seq<char> {
    if r.intervals@.len() == 0 {
        "no version"@
    } else {
        intervals_text_spec(r.intervals@)
    }
}

/// Render a range for the report.
pub fn range_text(r: &VersionRange) -> (out: String)
    ensures
        out@ == range_text_spec(*r),
{
    if r.intervals.len() == 0 {
        return String::from_str("no version");
    }
    let mut s = String::new();
    let mut i: usize = 0;
    proof {
        assert(s@ =~= intervals_text_spec(r.intervals@.take(0)));
    }
    while i < r.intervals.len()
        invariant
            0 <= i <= r.intervals@.len(),
            s@ == intervals_text_spec(r.intervals@.take(i as int)),
        decreases r.intervals@.len() - i,
    {
        if i > 0 {
            s.append(" or ");
        }
        let t = interval_text(&r.intervals[i]);
        s.append(t.as_str());
        proof {
            let pre = r.intervals@.take(i as int);
            let cur = r.intervals@.take(i as int + 1);
            assert(cur.last() == r.intervals@[i as int]);
            assert(cur.drop_last() =~= pre);
            if i == 0 {
                assert(s@ =~= intervals_text_spec(cur));
            } else {
                assert(s@ =~= intervals_text_spec(cur));
            }
        }
        i += 1;
    }
    proof {
        assert(r.intervals@.take(r.intervals@.len() as int) =~= r.intervals@);
    }
    s
}

/// The text of a version list, comma-separated.
pub open spec fn versions_text_spec(vs: Seq<Version>) -> Seq<char>
    decreases vs.len(),
{
    if vs.len() == 0 {
        Seq::<char>::empty()
    } else if vs.len() == 1 {
        crate::text::version_text_spec(vs[0])
    } else {
        versions_text_spec(vs.drop_last()) + ", "@ + crate::text::version_text_spec(vs.last())
    }
}

/// Render a version list, comma-separated.
fn versions_text(vs: &Vec<Version>) -> (out: String)
    ensures
        out@ == versions_text_spec(vs@),
{
    let mut s = String::new();
    let mut i: usize = 0;
    proof {
        assert(s@ =~= versions_text_spec(vs@.take(0)));
    }
    while i < vs.len()
        invariant
            0 <= i <= vs@.len(),
            s@ == versions_text_spec(vs@.take(i as int)),
        decreases vs@.len() - i,
    {
        if i > 0 {
            s.append(", ");
        }
        let t = version_text(&vs[i]);
        s.append(t.as_str());
        proof {
            let cur = vs@.take(i as int + 1);
            assert(cur.last() == vs@[i as int]);
            assert(cur.drop_last() =~= vs@.take(i as int));
            assert(s@ =~= versions_text_spec(cur));
        }
        i += 1;
    }
    proof {
        assert(vs@.take(vs@.len() as int) =~= vs@);
    }
    s
}

/// Whether an attached available-versions entry warrants the pre-release
/// hint: a named package the policy does not allow pre-releases for, with an
/// examined pre-release among its versions.
pub open spec fn hint_worthy(selector: CandidateSelector, p: PubGrubPackage, vs: Seq<Version>) -> bool {
    match p@ {
        PkgView::Package { name, extra, url } => !selector.spec_allows_pre(name) && exists|t: int|
            0 <= t < vs.len() && (#[trigger] vs[t]).spec_is_pre(),
        _ => false,
    }
}

/// The first attached version list for package identity `pv`, if any.
pub open spec fn examined_of(
    av: Seq<(PubGrubPackage, Vec<Version>)>,
    pv: PkgView,
) -> Option<Seq<Version>>
    decreases av.len(),
{
    if av.len() == 0 {
        Option::None
    } else if av[0].0@ == pv {
        Option::Some(av[0].1@)
    } else {
        examined_of(av.drop_first(), pv)
    }
}

/// The text of one external incompatibility, with the examined versions
/// substituted for a package that was examined and the environment's
/// interpreter version for a virtual interpreter package.
pub open spec fn format_external_spec(
    av: Seq<(PubGrubPackage, Vec<Version>)>,
    py: Option<PythonRequirement>,
    e: External,
) -> Seq<char> {
    match e {
        External::NoVersions(p, range) => {
            let base = "there is no version of "@ + package_text_spec(p@) + " matching "@
                + range_text_spec(range);
            match examined_of(av, p@) {
                Option::None => base,
                Option::Some(vs) => base + " (examined versions: "@ + versions_text_spec(vs)
                    + ")"@,
            }
        },
        External::FromDependencyOf(p1, r1, p2, r2) => {
            let base = package_text_spec(p1@) + " "@ + range_text_spec(r1) + " depends on "@
                + package_text_spec(p2@) + " "@ + range_text_spec(r2);
            match py {
                Option::None => base,
                Option::Some(pyv) => match p2@ {
                    PkgView::Python(PubGrubPython::Installed) => base + " (installed: "@
                        + crate::text::version_text_spec(pyv.installed) + ")"@,
                    PkgView::Python(PubGrubPython::Target) => base + " (target: "@
                        + crate::text::version_text_spec(pyv.target) + ")"@,
                    _ => base,
                },
            }
        },
    }
}

/// The narrative text of a whole derivation tree.
pub open spec fn report_spec(
    av: Seq<(PubGrubPackage, Vec<Version>)>,
    py: Option<PythonRequirement>,
    tree: DerivationTree,
) -> Seq<char>
    decreases tree,
{
    match tree {
        DerivationTree::External(e) => format_external_spec(av, py, e),
        DerivationTree::Derived { terms, cause1, cause2 } => {
            let base = "because "@ + report_spec(av, py, *cause1) + " and "@ + report_spec(
                av,
                py,
                *cause2,
            );
            if terms@.len() > 0 {
                base + ", "@ + package_text_spec(terms@[0].0@) + " "@ + range_text_spec(
                    terms@[0].1,
                ) + " cannot be used"@
            } else {
                base
            }
        },
    }
}

/// The text of the pre-release hint for a named package.
pub open spec fn hint_text_spec(p: PubGrubPackage) -> Seq<char> {
    match p@ {
        PkgView::Package { name, extra, url } => "pre-releases of "@ + name
            + " were excluded by the pre-release policy; allowing them may make the requirements satisfiable"@,
        _ => Seq::<char>::empty(),
    }
}

/// The hints owed for the attached entries, in order: one per hint-worthy
/// entry.
pub open spec fn hint_list_spec(
    selector: CandidateSelector,
    av: Seq<(PubGrubPackage, Vec<Version>)>,
) -> Seq<Seq<char>>
    decreases av.len(),
{
    if av.len() == 0 {
        Seq::<Seq<char>>::empty()
    } else {
        let rest = hint_list_spec(selector, av.drop_last());
        if hint_worthy(selector, av.last().0, av.last().1@) {
            rest.push(hint_text_spec(av.last().0))
        } else {
            rest
        }
    }
}

/// Hints joined to the report, each after a blank line.
pub open spec fn hints_cat(hs: Seq<Seq<char>>) -> Seq<char>
    decreases hs.len(),
{
    if hs.len() == 0 {
        Seq::<char>::empty()
    } else {
        hints_cat(hs.drop_last()) + "\n\n"@ + hs.last()
    }
}

/// The rendered resolution-failure report: the derivation narrative, then —
/// only where a selector is attached — each hint after a blank line.
pub open spec fn message_spec(ns: NoSolutionError) -> Seq<char> {
    let base = report_spec(ns.available_versions@, ns.python_requirement, ns.derivation_tree);
    match ns.selector {
        Option::None => base,
        Option::Some(sel) => base + hints_cat(hint_list_spec(sel, ns.available_versions@)),
    }
}

/// Walks a derivation tree and renders the explanation of the unsatisfiable
/// core, substituting for every leaf the versions actually examined during
/// resolution and the environment's interpreter versions. Rendering is pure:
/// the same tree and context always render the same text.
pub struct PubGrubReportFormatter<'a> {
    pub available_versions: &'a Vec<(PubGrubPackage, Vec<Version>)>,
    pub python_requirement: Option<&'a PythonRequirement>,
}

impl<'a> PubGrubReportFormatter<'a> {
    /// The attached entries.
    pub open spec fn spec_av(self) -> Seq<(PubGrubPackage, Vec<Version>)> {
        self.available_versions@
    }

    /// The attached interpreter requirement.
    pub open spec fn spec_python(self) -> Option<PythonRequirement> {
        match self.python_requirement {
            Option::None => Option::None,
            Option::Some(p) => Option::Some(*p),
        }
    }

    /// The versions attached for `p`, if it was examined: only these may be
    /// claimed available.
    fn examined(&self, p: &PubGrubPackage) -> (r: Option<&Vec<Version>>)
        ensures
            match r {
                Option::Some(vs) => examined_of(self.spec_av(), p@) == Option::Some(vs@),
                Option::None => examined_of(self.spec_av(), p@) is None,
            },
    {
        let ghost av = self.available_versions@;
        let mut i: usize = 0;
        proof {
            assert(av.skip(0) =~= av);
        }
        while i < self.available_versions.len()
            invariant
                0 <= i <= av.len(),
                av == self.available_versions@,
                examined_of(av.skip(i as int), p@) == examined_of(av, p@),
            decreases av.len() - i,
        {
            proof {
                assert(av.skip(i as int)[0] == av[i as int]);
                assert(av.skip(i as int).drop_first() =~= av.skip(i as int + 1));
            }
            if crate::package::same_package(&self.available_versions[i].0, p) {
                return Option::Some(&self.available_versions[i].1);
            }
            i += 1;
        }
        Option::None
    }

    /// Render one external incompatibility.
    fn format_external(&self, e: &External) -> (out: String)
        ensures
            out@ == format_external_spec(self.spec_av(), self.spec_python(), *e),
    {
        match e {
            External::NoVersions(p, range) => {
                let mut s = String::from_str("there is no version of ");
                let pt = package_text(p);
                s.append(pt.as_str());
                s.append(" matching ");
                let rt = range_text(range);
                s.append(rt.as_str());
                match self.examined(p) {
                    Option::None => {}
                    Option::Some(vs) => {
                        s.append(" (examined versions: ");
                        let vt = versions_text(vs);
                        s.append(vt.as_str());
                        s.append(")");
                    }
                }
                proof {
                    assert(s@ =~= format_external_spec(self.spec_av(), self.spec_python(), *e));
                }
                s
            }
            External::FromDependencyOf(p1, r1, p2, r2) => {
                let mut s = package_text(p1);
                s.append(" ");
                let rt1 = range_text(r1);
                s.append(rt1.as_str());
                s.append(" depends on ");
                let pt2 = package_text(p2);
                s.append(pt2.as_str());
                s.append(" ");
                let rt2 = range_text(r2);
                s.append(rt2.as_str());
                match self.python_requirement {
                    Option::None => {}
                    Option::Some(py) => {
                        match p2 {
                            PubGrubPackage::Python(PubGrubPython::Installed) => {
                                s.append(" (installed: ");
                                let vt = version_text(&py.installed);
                                s.append(vt.as_str());
                                s.append(")");
                            }
                            PubGrubPackage::Python(PubGrubPython::Target) => {
                                s.append(" (target: ");
                                let vt = version_text(&py.target);
                                s.append(vt.as_str());
                                s.append(")");
                            }
                            _ => {}
                        }
                    }
                }
                proof {
                    assert(s@ =~= format_external_spec(self.spec_av(), self.spec_python(), *e));
                }
                s
            }
        }
    }

    /// Render the narrative explanation of the whole tree.
    pub fn report(&self, tree: &DerivationTree) -> (out: String)
        ensures
            out@ == report_spec(self.spec_av(), self.spec_python(), *tree),
        decreases *tree,
    {
        match tree {
            DerivationTree::External(e) => self.format_external(e),
            DerivationTree::Derived { terms, cause1, cause2 } => {
                let mut s = String::from_str("because ");
                let c1 = self.report(cause1);
                s.append(c1.as_str());
                s.append(" and ");
                let c2 = self.report(cause2);
                s.append(c2.as_str());
                if terms.len() > 0 {
                    s.append(", ");
                    let pt = package_text(&terms[0].0);
                    s.append(pt.as_str());
                    s.append(" ");
                    let rt = range_text(&terms[0].1);
                    s.append(rt.as_str());
                    s.append(" cannot be used");
                    proof {
                        assert(s@ =~= report_spec(self.spec_av(), self.spec_python(), *tree));
                    }
                } else {
                    proof {
                        assert(s@ =~= report_spec(self.spec_av(), self.spec_python(), *tree));
                    }
                }
                s
            }
        }
    }

    /// Supplementary hints derived from the selector policy: exactly when
    /// some package's examined versions include a pre-release that the
    /// policy would not consider, a hint suggests relaxing the pre-release
    /// policy for it.
    pub fn hints(&self, tree: &DerivationTree, selector: &CandidateSelector) -> (r: Vec<String>)
        ensures
            r@.len() == hint_list_spec(*selector, self.spec_av()).len(),
            forall|t: int|
                0 <= t < r@.len() ==> (#[trigger] r@[t])@ == hint_list_spec(
                    *selector,
                    self.spec_av(),
                )[t],
            (r@.len() > 0) == exists|k: int|
                0 <= k < self.available_versions@.len() && hint_worthy(
                    *selector,
                    (#[trigger] self.available_versions@[k]).0,
                    self.available_versions@[k].1@,
                ),
    {
        let ghost av = self.available_versions@;
        let mut out: Vec<String> = Vec::new();
        let mut i: usize = 0;
        proof {
            assert(av.take(0) =~= Seq::<(PubGrubPackage, Vec<Version>)>::empty());
        }
        while i < self.available_versions.len()
            invariant
                0 <= i <= self.available_versions@.len(),
                av == self.available_versions@,
                out@.len() == hint_list_spec(*selector, av.take(i as int)).len(),
                forall|t: int|
                    0 <= t < out@.len() ==> (#[trigger] out@[t])@ == hint_list_spec(
                        *selector,
                        av.take(i as int),
                    )[t],
                (out@.len() > 0) == exists|k: int|
                    0 <= k < i && hint_worthy(
                        *selector,
                        (#[trigger] self.available_versions@[k]).0,
                        self.available_versions@[k].1@,
                    ),
            decreases self.available_versions@.len() - i,
        {
            let p = &self.available_versions[i].0;
            let vs = &self.available_versions[i].1;
            let ghost gi = i as int;
            match p {
                PubGrubPackage::Package { name, extra: _, url: _ } => {
                    if !selector.allows_pre(name) {
                        let mut has_pre = false;
                        let mut j: usize = 0;
                        while j < vs.len()
                            invariant
                                0 <= j <= vs@.len(),
                                has_pre == exists|t: int|
                                    0 <= t < j && (#[trigger] vs@[t]).spec_is_pre(),
                            decreases vs@.len() - j,
                        {
                            if vs[j].is_pre() {
                                has_pre = true;
                            }
                            j += 1;
                        }
                        if has_pre {
                            let mut s = String::from_str("pre-releases of ");
                            s.append(name.as_str());
                            s.append(
                                " were excluded by the pre-release policy; allowing them may make the requirements satisfiable",
                            );
                            proof {
                                assert(s@ =~= hint_text_spec(self.available_versions@[gi].0));
                            }
                            out.push(s);
                            proof {
                                assert(hint_worthy(
                                    *selector,
                                    self.available_versions@[gi].0,
                                    self.available_versions@[gi].1@,
                                ));
                            }
                        } else {
                            proof {
                                assert(!hint_worthy(
                                    *selector,
                                    self.available_versions@[gi].0,
                                    self.available_versions@[gi].1@,
                                ));
                            }
                        }
                    } else {
                        proof {
                            assert(!hint_worthy(
                                *selector,
                                self.available_versions@[gi].0,
                                self.available_versions@[gi].1@,
                            ));
                        }
                    }
                }
                _ => {
                    proof {
                        assert(!hint_worthy(
                            *selector,
                            self.available_versions@[gi].0,
                            self.available_versions@[gi].1@,
                        ));
                    }
                }
            }
            proof {
                let cur = av.take(gi + 1);
                assert(cur.last() == av[gi]);
                assert(cur.drop_last() =~= av.take(gi));
            }
            i += 1;
        }
        proof {
            assert(av.take(av.len() as int) =~= av);
        }
        out
    }
}

impl NoSolutionError {
    /// The rendered resolution-failure report: the derivation narrative,
    /// then — only where a selector is attached — each hint after a blank
    /// line. Pure and deterministic in the error's own data: equal errors
    /// render byte-identical text; no input or output is performed.
    pub fn message(&self) -> (out: String)
        ensures
            out@ == message_spec(*self),
    {
        let formatter = PubGrubReportFormatter {
            available_versions: &self.available_versions,
            python_requirement: match &self.python_requirement {
                Option::None => Option::None,
                Option::Some(p) => Option::Some(p),
            },
        };
        proof {
            assert(formatter.spec_av() == self.available_versions@);
            assert(formatter.spec_python() == self.python_requirement);
        }
        let mut s = formatter.report(&self.derivation_tree);
        match &self.selector {
            Option::None => {}
            Option::Some(sel) => {
                let hints = formatter.hints(&self.derivation_tree, sel);
                let ghost hlist = hint_list_spec(*sel, self.available_versions@);
                let ghost base = s@;
                let mut i: usize = 0;
                proof {
                    assert(hints_cat(hlist.take(0)) =~= Seq::<char>::empty());
                    assert(s@ =~= base + hints_cat(hlist.take(0)));
                }
                while i < hints.len()
                    invariant
                        0 <= i <= hints@.len(),
                        hints@.len() == hlist.len(),
                        forall|t: int| 0 <= t < hints@.len() ==> (#[trigger] hints@[t])@ == hlist[t],
                        s@ == base + hints_cat(hlist.take(i as int)),
                    decreases hints@.len() - i,
                {
                    s.append("\n\n");
                    s.append(hints[i].as_str());
                    proof {
                        let cur = hlist.take(i as int + 1);
                        assert(cur.last() == hlist[i as int]);
                        assert(cur.drop_last() =~= hlist.take(i as int));
                        assert(s@ =~= base + hints_cat(cur));
                    }
                    i += 1;
                }
                proof {
                    assert(hlist.take(hlist.len() as int) =~= hlist);
                    assert(s@ =~= message_spec(*self));
                }
            }
        }
        s
    }
}

/// The message text of each error kind, mirroring the taxonomy's wording.
pub open spec fn resolve_error_text(e: ResolveError) -> Seq<char> {
    match e {
        ResolveError::NotFound(q) => "Failed to find a version of "@ + q.name@
            + " that satisfies the requirement"@,
        ResolveError::StreamTermination => "The request stream terminated unexpectedly"@,
        ResolveError::Client(m) => m@,
        ResolveError::TrySend(m) => m@,
        ResolveError::Join(m) => m@,
        ResolveError::Unregistered => "Attempted to wait on an unregistered task"@,
        ResolveError::NameMismatch { given, metadata } => "Package metadata name `"@ + metadata@
            + "` does not match given name `"@ + given@ + "`"@,
        ResolveError::ConflictingUrls(name, a, b) => "There are conflicting URLs for package `"@
            + name@ + "`:\n- "@ + a@ + "\n- "@ + b@,
        ResolveError::ConflictingVersions(name, detail) => "There are conflicting versions for `"@
            + name@ + "`: "@ + detail@,
        ResolveError::DisallowedUrl(name, url) => "Package `"@ + name@
            + "` attempted to resolve via URL: "@ + url@
            + ". URL dependencies must be expressed as direct requirements or constraints. Consider adding `"@
            + name@ + " @ "@ + url@ + "` to your dependencies or constraints file."@,
        ResolveError::Fetch(d, m) => "Failed to download: "@ + d.file@ + ": "@ + m@,
        ResolveError::FetchAndBuild(d, m) => "Failed to download and build: "@ + d.file@ + ": "@
            + m@,
        ResolveError::NoSolution(ns) => message_spec(ns),
        ResolveError::SelfDependency { package, version } => package_text_spec((*package)@) + " "@
            + crate::text::version_text_spec(*version) + " depends on itself"@,
        ResolveError::Failure(m) => m@,
    }
}

impl ResolveError {
    /// The error's message text.
    pub fn message(&self) -> (out: String)
        ensures
            out@ == resolve_error_text(*self),
    {
        match self {
            ResolveError::NotFound(q) => {
                let mut s = String::from_str("Failed to find a version of ");
                s.append(q.name.as_str());
                s.append(" that satisfies the requirement");
                proof {
                    assert(s@ =~= resolve_error_text(*self));
                }
                s
            }
            ResolveError::StreamTermination => String::from_str(
                "The request stream terminated unexpectedly",
            ),
            ResolveError::Client(m) => m.clone(),
            ResolveError::TrySend(m) => m.clone(),
            ResolveError::Join(m) => m.clone(),
            ResolveError::Unregistered => String::from_str(
                "Attempted to wait on an unregistered task",
            ),
            ResolveError::NameMismatch { given, metadata } => {
                let mut s = String::from_str("Package metadata name `");
                s.append(metadata.as_str());
                s.append("` does not match given name `");
                s.append(given.as_str());
                s.append("`");
                proof {
                    assert(s@ =~= resolve_error_text(*self));
                }
                s
            }
            ResolveError::ConflictingUrls(name, a, b) => {
                let mut s = String::from_str("There are conflicting URLs for package `");
                s.append(name.as_str());
                s.append("`:\n- ");
                s.append(a.as_str());
                s.append("\n- ");
                s.append(b.as_str());
                proof {
                    assert(s@ =~= resolve_error_text(*self));
                }
                s
            }
            ResolveError::ConflictingVersions(name, detail) => {
                let mut s = String::from_str("There are conflicting versions for `");
                s.append(name.as_str());
                s.append("`: ");
                s.append(detail.as_str());
                proof {
                    assert(s@ =~= resolve_error_text(*self));
                }
                s
            }
            ResolveError::DisallowedUrl(name, url) => {
                let mut s = String::from_str("Package `");
                s.append(name.as_str());
                s.append("` attempted to resolve via URL: ");
                s.append(url.as_str());
                s.append(
                    ". URL dependencies must be expressed as direct requirements or constraints. Consider adding `",
                );
                s.append(name.as_str());
                s.append(" @ ");
                s.append(url.as_str());
                s.append("` to your dependencies or constraints file.");
                proof {
                    assert(s@ =~= resolve_error_text(*self));
                }
                s
            }
            ResolveError::Fetch(d, m) => {
                let mut s = String::from_str("Failed to download: ");
                s.append(d.file.as_str());
                s.append(": ");
                s.append(m.as_str());
                proof {
                    assert(s@ =~= resolve_error_text(*self));
                }
                s
            }
            ResolveError::FetchAndBuild(d, m) => {
                let mut s = String::from_str("Failed to download and build: ");
                s.append(d.file.as_str());
                s.append(": ");
                s.append(m.as_str());
                proof {
                    assert(s@ =~= resolve_error_text(*self));
                }
                s
            }
            ResolveError::NoSolution(ns) => ns.message(),
            ResolveError::SelfDependency { package, version } => {
                let mut s = package_text(package);
                s.append(" ");
                let vt = version_text(version);
                s.append(vt.as_str());
                s.append(" depends on itself");
                proof {
                    assert(s@ =~= resolve_error_text(*self));
                }
                s
            }
            ResolveError::Failure(m) => m.clone(),
        }
    }
}

} // verus!
