use vstd::prelude::*;
use crate::package::PythonRequirement;
use crate::range::{ivs_contain, VersionInterval, VersionRange};
use crate::version::Version;
use crate::version_map::{Candidate, EntryView, VersionMap};

verus! {

/// Whether candidates are tried newest-first (the default) or
/// lowest-compatible-first.
#[derive(Clone, Copy, Debug, PartialEq, Eq, Structural)]
pub enum ResolutionMode {
    Highest,
    Lowest,
}

/// Per-resolution candidate-selection policy: the resolution direction, the
/// per-package pre-release allow-list, and externally pinned or
/// installed-preferred versions. Immutable for the resolution's duration.
#[derive(Clone, Debug)]
pub struct CandidateSelector {
    pub mode: ResolutionMode,
    /// Packages for which pre-release versions may be chosen; a pre-release
    /// of any other package is never offered, so a package with only
    /// pre-releases matches nothing until it is listed here.
    pub prerelease_allowed: Vec<String>,
    /// Pinned or installed versions, preferred whenever they satisfy the
    /// range, to minimize churn. A pinned pre-release is acceptable.
    pub preferences: Vec<(String, Version)>,
}

/// The first preferred version recorded for `name`, if any.
pub open spec fn pref_of(prefs: Seq<(String, Version)>, name: Seq<char>) -> Option<Version>
    decreases prefs.len(),
{
    if prefs.len() == 0 {
        Option::None
    } else if prefs[0].0@ == name {
        Option::Some(prefs[0].1)
    } else {
        pref_of(prefs.drop_first(), name)
    }
}

/// The first entry whose version is `v`, if any.
pub open spec fn entry_with(map: Seq<EntryView>, v: Version) -> Option<EntryView>
    decreases map.len(),
{
    if map.len() == 0 {
        Option::None
    } else if map[0].version == v {
        Option::Some(map[0])
    } else {
        entry_with(map.drop_first(), v)
    }
}

/// Whether an entry may be offered for a constraint range: its version lies
/// in the range, its interpreter range admits the environment, and it is not
/// an excluded pre-release.
pub open spec fn admissible(
    e: EntryView,
    ivs: Seq<VersionInterval>,
    py: PythonRequirement,
    allow_pre: bool,
) -> bool {
    ivs_contain(ivs, e.version) && e.python_ok(py) && (allow_pre || !e.version.spec_is_pre())
}

/// The last (highest-versioned, for an ascending map) admissible entry.
pub open spec fn spec_highest(
    map: Seq<EntryView>,
    ivs: Seq<VersionInterval>,
    py: PythonRequirement,
    allow_pre: bool,
) -> Option<EntryView>
    decreases map.len(),
{
    if map.len() == 0 {
        Option::None
    } else if admissible(map.last(), ivs, py, allow_pre) {
        Option::Some(map.last())
    } else {
        spec_highest(map.drop_last(), ivs, py, allow_pre)
    }
}

/// The first (lowest-versioned, for an ascending map) admissible entry.
pub open spec fn spec_lowest(
    map: Seq<EntryView>,
    ivs: Seq<VersionInterval>,
    py: PythonRequirement,
    allow_pre: bool,
) -> Option<EntryView>
    decreases map.len(),
{
    if map.len() == 0 {
        Option::None
    } else if admissible(map[0], ivs, py, allow_pre) {
        Option::Some(map[0])
    } else {
        spec_lowest(map.drop_first(), ivs, py, allow_pre)
    }
}

impl CandidateSelector {
    /// Whether pre-releases of `name` were explicitly allowed.
    pub open spec fn spec_allows_pre(self, name: Seq<char>) -> bool {
        exists|i: int|
            0 <= i < self.prerelease_allowed@.len() && self.prerelease_allowed@[i]@ == name
    }

    /// The entry the policy's direction picks, pre-releases as allowed.
    pub open spec fn spec_directional(
        self,
        map: Seq<EntryView>,
        ivs: Seq<VersionInterval>,
        py: PythonRequirement,
        allow_pre: bool,
    ) -> Option<EntryView> {
        match self.mode {
            ResolutionMode::Highest => spec_highest(map, ivs, py, allow_pre),
            ResolutionMode::Lowest => spec_lowest(map, ivs, py, allow_pre),
        }
    }

    /// The preferred (pinned or installed) entry, if one satisfies the range
    /// and the environment.
    pub open spec fn spec_pinned(
        self,
        name: Seq<char>,
        map: Seq<EntryView>,
        ivs: Seq<VersionInterval>,
        py: PythonRequirement,
    ) -> Option<EntryView> {
        match pref_of(self.preferences@, name) {
            Option::None => Option::None,
            Option::Some(v) => if ivs_contain(ivs, v) {
                match entry_with(map, v) {
                    Option::None => Option::None,
                    Option::Some(e) => if e.python_ok(py) {
                        Option::Some(e)
                    } else {
                        Option::None
                    },
                }
            } else {
                Option::None
            },
        }
    }

    /// The policy, in order: a pinned or installed version within the range
    /// is preferred; otherwise the directionally first version in the range,
    /// excluding pre-releases unless the policy explicitly allows them for
    /// this package — a package offering only excluded pre-releases matches
    /// nothing. Selection is a function of its inputs alone.
    pub open spec fn spec_select(
        self,
        name: Seq<char>,
        map: Seq<EntryView>,
        ivs: Seq<VersionInterval>,
        py: PythonRequirement,
    ) -> Option<EntryView> {
        match self.spec_pinned(name, map, ivs, py) {
            Option::Some(e) => Option::Some(e),
            Option::None => self.spec_directional(map, ivs, py, self.spec_allows_pre(name)),
        }
    }

    pub fn new(mode: ResolutionMode) -> (r: CandidateSelector)
        ensures
            r.mode == mode,
            r.prerelease_allowed@.len() == 0,
            r.preferences@.len() == 0,
    {
        CandidateSelector { mode, prerelease_allowed: Vec::new(), preferences: Vec::new() }
    }

    /// Allow pre-releases of `name` to be chosen freely.
    pub fn allow_prerelease(&mut self, name: String)
        ensures
            final(self).mode == old(self).mode,
            final(self).preferences == old(self).preferences,
            final(self).prerelease_allowed@ == old(self).prerelease_allowed@.push(name),
            final(self).spec_allows_pre(name@),
    {
        self.prerelease_allowed.push(name);
        proof {
            let last = self.prerelease_allowed@.len() - 1;
            assert(self.prerelease_allowed@[last]@ == name@);
        }
    }

    /// Record a pinned or installed version to prefer for `name`.
    pub fn prefer(&mut self, name: String, v: Version)
        ensures
            final(self).mode == old(self).mode,
            final(self).prerelease_allowed == old(self).prerelease_allowed,
            final(self).preferences@ == old(self).preferences@.push((name, v)),
    {
        self.preferences.push((name, v));
    }

    /// Whether pre-releases of `name` were explicitly allowed.
    pub fn allows_pre(&self, name: &String) -> (r: bool)
        ensures
            r == self.spec_allows_pre(name@),
    {
        let mut i: usize = 0;
        while i < self.prerelease_allowed.len()
            invariant
                0 <= i <= self.prerelease_allowed@.len(),
                forall|k: int| 0 <= k < i ==> self.prerelease_allowed@[k]@ != name@,
            decreases self.prerelease_allowed@.len() - i,
        {
            if self.prerelease_allowed[i] == *name {
                return true;
            }
            i += 1;
        }
        false
    }

    /// The first preferred version recorded for `name`, if any.
    fn find_pref(&self, name: &String) -> (r: Option<Version>)
        ensures
            r == pref_of(self.preferences@, name@),
    {
        let prefs = &self.preferences;
        let mut i: usize = 0;
        proof {
            assert(prefs@.skip(0) =~= prefs@);
        }
        while i < prefs.len()
            invariant
                0 <= i <= prefs@.len(),
                prefs@ == self.preferences@,
                pref_of(prefs@.skip(i as int), name@) == pref_of(prefs@, name@),
            decreases prefs@.len() - i,
        {
            proof {
                assert(prefs@.skip(i as int)[0] == prefs@[i as int]);
                assert(prefs@.skip(i as int).drop_first() =~= prefs@.skip(i as int + 1));
            }
            if prefs[i].0 == *name {
                proof {
                    assert(pref_of(prefs@.skip(i as int), name@) == Option::Some(
                        prefs@[i as int].1,
                    ));
                }
                return Option::Some(prefs[i].1);
            }
            i += 1;
        }
        Option::None
    }
}

/// The position of the first entry of `map` whose version is `v`.
fn find_version(map: &VersionMap, v: &Version) -> (r: Option<usize>)
    ensures
        match r {
            Option::Some(i) => i < map@.len() && entry_with(map@, *v) == Option::Some(map@[i as int]),
            Option::None => entry_with(map@, *v) is None,
        },
{
    let ghost mv = map@;
    let mut i: usize = 0;
    proof {
        assert(mv.skip(0) =~= mv);
    }
    while i < map.entries.len()
        invariant
            0 <= i <= mv.len(),
            mv == map@,
            mv.len() == map.entries@.len(),
            entry_with(mv.skip(i as int), *v) == entry_with(mv, *v),
        decreases mv.len() - i,
    {
        proof {
            assert(mv[i as int] == map.entries@[i as int]@);
            assert(mv.skip(i as int)[0] == mv[i as int]);
            assert(mv.skip(i as int).drop_first() =~= mv.skip(i as int + 1));
        }
        if map.entries[i].version == *v {
            return Option::Some(i);
        }
        i += 1;
    }
    Option::None
}

/// The position of the directionally first admissible entry of `map`.
fn find_directional(
    mode: ResolutionMode,
    map: &VersionMap,
    range: &VersionRange,
    py: &PythonRequirement,
    allow_pre: bool,
) -> (r: Option<usize>)
    ensures
        match r {
            Option::Some(i) => i < map@.len() && (match mode {
                ResolutionMode::Highest => spec_highest(map@, range.intervals@, *py, allow_pre),
                ResolutionMode::Lowest => spec_lowest(map@, range.intervals@, *py, allow_pre),
            }) == Option::Some(map@[i as int]),
            Option::None => (match mode {
                ResolutionMode::Highest => spec_highest(map@, range.intervals@, *py, allow_pre),
                ResolutionMode::Lowest => spec_lowest(map@, range.intervals@, *py, allow_pre),
            }) is None,
        },
{
    let ghost mv = map@;
    let ghost ivs = range.intervals@;
    match mode {
        ResolutionMode::Highest => {
            let mut i: usize = map.entries.len();
            proof {
                assert(mv.take(i as int) =~= mv);
            }
            while i > 0
                invariant
                    0 <= i <= mv.len(),
                    mode == ResolutionMode::Highest,
                    mv == map@,
                    mv.len() == map.entries@.len(),
                    ivs == range.intervals@,
                    spec_highest(mv.take(i as int), ivs, *py, allow_pre) == spec_highest(
                        mv,
                        ivs,
                        *py,
                        allow_pre,
                    ),
                decreases i,
            {
                let k = i - 1;
                proof {
                    assert(mv.take(i as int).last() == mv[k as int]);
                    assert(mv.take(i as int).drop_last() =~= mv.take(k as int));
                    assert(mv[k as int] == map.entries@[k as int]@);
                }
                let e = &map.entries[k];
                let ok = range.contains(&e.version) && e.python_ok(py) && (allow_pre
                    || !e.version.is_pre());
                if ok {
                    proof {
                        assert(admissible(mv[k as int], ivs, *py, allow_pre));
                        assert(mv.take(i as int).len() == i);
                        assert(spec_highest(mv.take(i as int), ivs, *py, allow_pre)
                            == Option::Some(mv[k as int]));
                    }
                    return Option::Some(k);
                }
                proof {
                    assert(!admissible(mv[k as int], ivs, *py, allow_pre));
                }
                i = k;
            }
            Option::None
        }
        ResolutionMode::Lowest => {
            let mut i: usize = 0;
            proof {
                assert(mv.skip(0) =~= mv);
            }
            while i < map.entries.len()
                invariant
                    0 <= i <= mv.len(),
                    mode == ResolutionMode::Lowest,
                    mv == map@,
                    mv.len() == map.entries@.len(),
                    ivs == range.intervals@,
                    spec_lowest(mv.skip(i as int), ivs, *py, allow_pre) == spec_lowest(
                        mv,
                        ivs,
                        *py,
                        allow_pre,
                    ),
                decreases mv.len() - i,
            {
                proof {
                    assert(mv.skip(i as int)[0] == mv[i as int]);
                    assert(mv.skip(i as int).drop_first() =~= mv.skip(i as int + 1));
                    assert(mv[i as int] == map.entries@[i as int]@);
                }
                let e = &map.entries[i];
                let ok = range.contains(&e.version) && e.python_ok(py) && (allow_pre
                    || !e.version.is_pre());
                if ok {
                    proof {
                        assert(admissible(mv[i as int], ivs, *py, allow_pre));
                        assert(mv.skip(i as int).len() == mv.len() - i);
                        assert(spec_lowest(mv.skip(i as int), ivs, *py, allow_pre)
                            == Option::Some(mv[i as int]));
                    }
                    return Option::Some(i);
                }
                proof {
                    assert(!admissible(mv[i as int], ivs, *py, allow_pre));
                }
                i += 1;
            }
            Option::None
        }
    }
}

impl CandidateSelector {
    /// The position in `map` of the entry the policy selects, if any:
    /// deterministic, exactly `spec_select`.
    pub fn select_index(
        &self,
        name: &String,
        range: &VersionRange,
        map: &VersionMap,
        py: &PythonRequirement,
    ) -> (r: Option<usize>)
        ensures
            match r {
                Option::Some(i) => i < map@.len() && self.spec_select(
                    name@,
                    map@,
                    range.intervals@,
                    *py,
                ) == Option::Some(map@[i as int]),
                Option::None => self.spec_select(name@, map@, range.intervals@, *py) is None,
            },
    {
        // Pinned or installed version first.
        let pinned = match self.find_pref(name) {
            Option::None => Option::None,
            Option::Some(v) => {
                if range.contains(&v) {
                    match find_version(map, &v) {
                        Option::None => Option::None,
                        Option::Some(i) => {
                            if map.entries[i].python_ok(py) {
                                proof {
                                    assert(map@[i as int] == map.entries@[i as int]@);
                                }
                                Option::Some(i)
                            } else {
                                Option::None
                            }
                        }
                    }
                } else {
                    Option::None
                }
            }
        };
        match pinned {
            Option::Some(i) => Option::Some(i),
            Option::None => {
                proof {
                    assert(self.spec_pinned(name@, map@, range.intervals@, *py) is None);
                }
                let allow = self.allows_pre(name);
                find_directional(self.mode, map, range, py, allow)
            }
        }
    }

    /// The candidate the policy selects for `name` under `range`, if any.
    pub fn select(
        &self,
        name: &String,
        range: &VersionRange,
        map: &VersionMap,
        py: &PythonRequirement,
    ) -> (r: Option<Candidate>)
        ensures
            match r {
                Option::Some(c) => {
                    &&& self.spec_select(name@, map@, range.intervals@, *py) is Some
                    &&& c.version == self.spec_select(
                        name@,
                        map@,
                        range.intervals@,
                        *py,
                    ).unwrap().version
                    &&& c.dist@ == self.spec_select(
                        name@,
                        map@,
                        range.intervals@,
                        *py,
                    ).unwrap().dist
                },
                Option::None => self.spec_select(name@, map@, range.intervals@, *py) is None,
            },
    {
        match self.select_index(name, range, map, py) {
            Option::None => Option::None,
            Option::Some(i) => {
                let e = &map.entries[i];
                proof {
                    assert(map@[i as int] == map.entries@[i as int]@);
                }
                Option::Some(Candidate { version: e.version, dist: e.dist.duplicate() })
            }
        }
    }
}


/// A found entry has the looked-up version.
pub proof fn lemma_entry_with_version(map: Seq<EntryView>, v: Version)
    requires
        entry_with(map, v) is Some,
    ensures
        entry_with(map, v).unwrap().version == v,
    decreases map.len(),
{
    if map.len() == 0 {
    } else if map[0].version == v {
    } else {
        lemma_entry_with_version(map.drop_first(), v);
    }
}

/// Where the directional scan finds nothing, nothing is admissible.
pub proof fn lemma_highest_none(
    map: Seq<EntryView>,
    ivs: Seq<VersionInterval>,
    py: PythonRequirement,
    allow_pre: bool,
)
    requires
        spec_highest(map, ivs, py, allow_pre) is None,
    ensures
        forall|k: int| 0 <= k < map.len() ==> !admissible(#[trigger] map[k], ivs, py, allow_pre),
    decreases map.len(),
{
    if map.len() == 0 {
    } else if admissible(map.last(), ivs, py, allow_pre) {
    } else {
        lemma_highest_none(map.drop_last(), ivs, py, allow_pre);
        assert forall|k: int| 0 <= k < map.len() implies !admissible(
            #[trigger] map[k],
            ivs,
            py,
            allow_pre,
        ) by {
            if k < map.len() - 1 {
                assert(map.drop_last()[k] == map[k]);
            }
        }
    }
}

/// Where the directional scan finds nothing, nothing is admissible.
pub proof fn lemma_lowest_none(
    map: Seq<EntryView>,
    ivs: Seq<VersionInterval>,
    py: PythonRequirement,
    allow_pre: bool,
)
    requires
        spec_lowest(map, ivs, py, allow_pre) is None,
    ensures
        forall|k: int| 0 <= k < map.len() ==> !admissible(#[trigger] map[k], ivs, py, allow_pre),
    decreases map.len(),
{
    if map.len() == 0 {
    } else if admissible(map[0], ivs, py, allow_pre) {
    } else {
        lemma_lowest_none(map.drop_first(), ivs, py, allow_pre);
        assert forall|k: int| 0 <= k < map.len() implies !admissible(
            #[trigger] map[k],
            ivs,
            py,
            allow_pre,
        ) by {
            if k > 0 {
                assert(map.drop_first()[k - 1] == map[k]);
            }
        }
    }
}

/// The directionally last admissible entry is admissible.
pub proof fn lemma_highest_admissible(
    map: Seq<EntryView>,
    ivs: Seq<VersionInterval>,
    py: PythonRequirement,
    allow_pre: bool,
)
    requires
        spec_highest(map, ivs, py, allow_pre) is Some,
    ensures
        admissible(spec_highest(map, ivs, py, allow_pre).unwrap(), ivs, py, allow_pre),
    decreases map.len(),
{
    if map.len() == 0 {
    } else if admissible(map.last(), ivs, py, allow_pre) {
    } else {
        lemma_highest_admissible(map.drop_last(), ivs, py, allow_pre);
    }
}

/// The directionally first admissible entry is admissible.
pub proof fn lemma_lowest_admissible(
    map: Seq<EntryView>,
    ivs: Seq<VersionInterval>,
    py: PythonRequirement,
    allow_pre: bool,
)
    requires
        spec_lowest(map, ivs, py, allow_pre) is Some,
    ensures
        admissible(spec_lowest(map, ivs, py, allow_pre).unwrap(), ivs, py, allow_pre),
    decreases map.len(),
{
    if map.len() == 0 {
    } else if admissible(map[0], ivs, py, allow_pre) {
    } else {
        lemma_lowest_admissible(map.drop_first(), ivs, py, allow_pre);
    }
}

/// On a version-ascending map — the shape the index caches — the
/// directionally last admissible entry is version-maximal among admissible
/// entries: "newest-first" in versions, not merely in position.
pub proof fn lemma_highest_is_max(
    map: Seq<EntryView>,
    ivs: Seq<VersionInterval>,
    py: PythonRequirement,
    allow_pre: bool,
)
    requires
        forall|i: int, j: int| 0 <= i < j < map.len() ==> map[i].version.spec_lt(map[j].version),
        spec_highest(map, ivs, py, allow_pre) is Some,
    ensures
        forall|k: int|
            0 <= k < map.len() && admissible(#[trigger] map[k], ivs, py, allow_pre) ==> !spec_highest(
                map,
                ivs,
                py,
                allow_pre,
            ).unwrap().version.spec_lt(map[k].version),
    decreases map.len(),
{
    let e = spec_highest(map, ivs, py, allow_pre).unwrap();
    if admissible(map.last(), ivs, py, allow_pre) {
        assert forall|k: int|
            0 <= k < map.len() && admissible(#[trigger] map[k], ivs, py, allow_pre) implies !e
            .version.spec_lt(map[k].version) by {
            crate::version::lemma_version_order(e.version, map[k].version, map[k].version);
        }
    } else {
        assert forall|i: int, j: int|
            0 <= i < j < map.drop_last().len() implies map.drop_last()[i].version.spec_lt(
            map.drop_last()[j].version,
        ) by {
            assert(map.drop_last()[i] == map[i] && map.drop_last()[j] == map[j]);
        }
        lemma_highest_is_max(map.drop_last(), ivs, py, allow_pre);
        assert forall|k: int|
            0 <= k < map.len() && admissible(#[trigger] map[k], ivs, py, allow_pre) implies !e
            .version.spec_lt(map[k].version) by {
            assert(k < map.len() - 1);
            assert(map.drop_last()[k] == map[k]);
        }
    }
}

/// On a version-ascending map the directionally first admissible entry is
/// version-minimal among admissible entries: "oldest-first" in versions.
pub proof fn lemma_lowest_is_min(
    map: Seq<EntryView>,
    ivs: Seq<VersionInterval>,
    py: PythonRequirement,
    allow_pre: bool,
)
    requires
        forall|i: int, j: int| 0 <= i < j < map.len() ==> map[i].version.spec_lt(map[j].version),
        spec_lowest(map, ivs, py, allow_pre) is Some,
    ensures
        forall|k: int|
            0 <= k < map.len() && admissible(#[trigger] map[k], ivs, py, allow_pre) ==> !map[k]
                .version.spec_lt(spec_lowest(map, ivs, py, allow_pre).unwrap().version),
    decreases map.len(),
{
    let e = spec_lowest(map, ivs, py, allow_pre).unwrap();
    if admissible(map[0], ivs, py, allow_pre) {
        assert forall|k: int|
            0 <= k < map.len() && admissible(#[trigger] map[k], ivs, py, allow_pre) implies !map[k]
            .version.spec_lt(e.version) by {
            crate::version::lemma_version_order(map[k].version, e.version, e.version);
        }
    } else {
        assert forall|i: int, j: int|
            0 <= i < j < map.drop_first().len() implies map.drop_first()[i].version.spec_lt(
            map.drop_first()[j].version,
        ) by {
            assert(map.drop_first()[i] == map[i + 1] && map.drop_first()[j] == map[j + 1]);
        }
        lemma_lowest_is_min(map.drop_first(), ivs, py, allow_pre);
        assert forall|k: int|
            0 <= k < map.len() && admissible(#[trigger] map[k], ivs, py, allow_pre) implies !map[k]
            .version.spec_lt(e.version) by {
            assert(k > 0);
            assert(map.drop_first()[k - 1] == map[k]);
        }
    }
}

/// Whatever the policy selects lies in the constraint range and is usable in
/// the environment.
pub proof fn lemma_select_admissible(
    sel: CandidateSelector,
    name: Seq<char>,
    map: Seq<EntryView>,
    ivs: Seq<VersionInterval>,
    py: PythonRequirement,
)
    requires
        sel.spec_select(name, map, ivs, py) is Some,
    ensures
        ivs_contain(ivs, sel.spec_select(name, map, ivs, py).unwrap().version),
        sel.spec_select(name, map, ivs, py).unwrap().python_ok(py),
    decreases map.len(),
{
    match sel.spec_pinned(name, map, ivs, py) {
        Option::Some(e) => {
            let v = pref_of(sel.preferences@, name).unwrap();
            lemma_entry_with_version(map, v);
        }
        Option::None => {
            let allow = sel.spec_allows_pre(name);
            match sel.mode {
                ResolutionMode::Highest => lemma_highest_admissible(map, ivs, py, allow),
                ResolutionMode::Lowest => lemma_lowest_admissible(map, ivs, py, allow),
            }
        }
    }
}

impl CandidateSelector {
    /// A copy with the same policy.
    pub fn duplicate(&self) -> (r: CandidateSelector)
        ensures
            r.mode == self.mode,
            r.prerelease_allowed@.len() == self.prerelease_allowed@.len(),
            forall|k: int|
                0 <= k < r.prerelease_allowed@.len() ==> r.prerelease_allowed@[k]@
                    == self.prerelease_allowed@[k]@,
            r.preferences@.len() == self.preferences@.len(),
            forall|k: int|
                0 <= k < r.preferences@.len() ==> r.preferences@[k].0@ == self.preferences@[k].0@
                    && r.preferences@[k].1 == self.preferences@[k].1,
    {
        let mut prerelease_allowed: Vec<String> = Vec::new();
        let mut i: usize = 0;
        while i < self.prerelease_allowed.len()
            invariant
                0 <= i <= self.prerelease_allowed@.len(),
                prerelease_allowed@.len() == i,
                forall|k: int|
                    0 <= k < i ==> prerelease_allowed@[k]@ == self.prerelease_allowed@[k]@,
            decreases self.prerelease_allowed@.len() - i,
        {
            prerelease_allowed.push(self.prerelease_allowed[i].clone());
            i += 1;
        }
        let mut preferences: Vec<(String, Version)> = Vec::new();
        let mut j: usize = 0;
        while j < self.preferences.len()
            invariant
                0 <= j <= self.preferences@.len(),
                preferences@.len() == j,
                forall|k: int|
                    0 <= k < j ==> preferences@[k].0@ == self.preferences@[k].0@
                        && preferences@[k].1 == self.preferences@[k].1,
            decreases self.preferences@.len() - j,
        {
            preferences.push((self.preferences[j].0.clone(), self.preferences[j].1));
            j += 1;
        }
        CandidateSelector { mode: self.mode, prerelease_allowed, preferences }
    }
}

} // verus!
