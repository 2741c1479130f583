use vstd::prelude::*;
use crate::version_map::VersionMap;

verus! {

/// Per-key fetch state of the metadata index: a fetch is running, its result
/// is cached, or it failed (failures are not cached as poison: a later
/// request may retry).
#[derive(Clone, Debug)]
pub enum FetchState {
    InFlight,
    Ready(VersionMap),
    Failed(String),
}

/// What a requester must do after announcing interest in a name: start the
/// one underlying fetch, await the fetch already in flight, or read the
/// cached result.
#[derive(Clone, Copy, Debug, PartialEq, Eq, Structural)]
pub enum BeginAction {
    Fetch,
    Await,
    Ready,
}

/// The memoized, single-flight version-metadata index, as an explicit state
/// machine per key: the first requester for a name is told to fetch, all
/// concurrent requesters for the same name are told to await that same
/// fetch, and once complete every requester reads the one cached result.
#[derive(Clone, Debug)]
pub struct FetchLedger {
    pub entries: Vec<(String, FetchState)>,
}

impl FetchLedger {
    /// Names are unique, so each name has one well-defined state.
    pub open spec fn wf(self) -> bool {
        forall|i: int, j: int|
            0 <= i < j < self.entries@.len() ==> self.entries@[i].0@ != self.entries@[j].0@
    }

    /// Every cached version map is well-formed (ascending, duplicate-free).
    pub open spec fn maps_wf(self) -> bool {
        forall|i: int|
            0 <= i < self.entries@.len() ==> match (#[trigger] self.entries@[i]).1 {
                FetchState::Ready(m) => m.wf(),
                _ => true,
            }
    }

    pub open spec fn spec_has(self, name: Seq<char>) -> bool {
        exists|i: int| 0 <= i < self.entries@.len() && self.entries@[i].0@ == name
    }

    pub open spec fn spec_state_is(self, name: Seq<char>, st: FetchState) -> bool {
        exists|i: int|
            0 <= i < self.entries@.len() && self.entries@[i].0@ == name && self.entries@[i].1 == st
    }

    pub open spec fn spec_is_failed(self, name: Seq<char>) -> bool {
        exists|i: int|
            0 <= i < self.entries@.len() && self.entries@[i].0@ == name && self.entries@[i].1
                is Failed
    }

    /// The action `begin` answers for `name`, as a function of the ledger
    /// alone: fetch only where the ledger holds no live entry for the name.
    pub open spec fn spec_begin_action(self, name: Seq<char>) -> BeginAction {
        if !self.spec_has(name) || self.spec_is_failed(name) {
            BeginAction::Fetch
        } else if self.spec_state_is(name, FetchState::InFlight) {
            BeginAction::Await
        } else {
            BeginAction::Ready
        }
    }

    pub fn new() -> (r: FetchLedger)
        ensures
            r.wf(),
            r.entries@.len() == 0,
    {
        FetchLedger { entries: Vec::new() }
    }

    /// The position of `name`'s entry, if any.
    fn find(&self, name: &String) -> (r: Option<usize>)
        ensures
            match r {
                Option::Some(i) => i < self.entries@.len() && self.entries@[i as int].0@ == name@,
                Option::None => !self.spec_has(name@),
            },
    {
        let mut i: usize = 0;
        while i < self.entries.len()
            invariant
                0 <= i <= self.entries@.len(),
                forall|k: int| 0 <= k < i ==> self.entries@[k].0@ != name@,
            decreases self.entries@.len() - i,
        {
            if self.entries[i].0 == *name {
                return Option::Some(i);
            }
            i += 1;
        }
        Option::None
    }

    /// Announce interest in `name`. The first requester is told to start the
    /// one underlying fetch and the ledger records it as in flight; a
    /// requester that finds the fetch in flight awaits it; one that finds the
    /// result cached reads it. A failed earlier fetch is retried.
    pub fn begin(&mut self, name: &String) -> (a: BeginAction)
        requires
            old(self).wf(),
        ensures
            final(self).wf(),
            a == old(self).spec_begin_action(name@),
            a == BeginAction::Fetch ==> final(self).spec_state_is(name@, FetchState::InFlight),
            a != BeginAction::Fetch ==> *final(self) == *old(self),
            final(self).spec_has(name@),
            old(self).maps_wf() ==> final(self).maps_wf(),
            forall|n: Seq<char>, st: FetchState|
                n != name@ ==> #[trigger] final(self).spec_state_is(n, st) == old(
                    self,
                ).spec_state_is(n, st),
    {
        let found = self.find(name);
        match found {
            Option::None => {
                let ghost pre = self.entries@;
                self.entries.push((name.clone(), FetchState::InFlight));
                proof {
                    let last = self.entries@.len() - 1;
                    assert(self.entries@[last].0@ == name@ && self.entries@[last].1
                        == FetchState::InFlight);
                    assert forall|n: Seq<char>, st: FetchState| n != name@ implies #[trigger] self
                        .spec_state_is(n, st) == old(self).spec_state_is(n, st) by {
                        if self.spec_state_is(n, st) {
                            let i = choose|i: int|
                                0 <= i < self.entries@.len() && self.entries@[i].0@ == n
                                    && self.entries@[i].1 == st;
                            assert(i < pre.len() && pre[i].0@ == n && pre[i].1 == st);
                        }
                        if old(self).spec_state_is(n, st) {
                            let i = choose|i: int|
                                0 <= i < pre.len() && pre[i].0@ == n && pre[i].1 == st;
                            assert(self.entries@[i].0@ == n && self.entries@[i].1 == st);
                        }
                    }
                }
                BeginAction::Fetch
            }
            Option::Some(i) => {
                let ghost gi = i as int;
                proof {
                    assert forall|j: int|
                        0 <= j < self.entries@.len() && self.entries@[j].0@
                            == name@ implies j == gi by {
                        if j != gi {
                            assert(false);
                        }
                    }
                }
                let is_failed = match &self.entries[i].1 {
                    FetchState::Failed(_) => true,
                    _ => false,
                };
                if is_failed {
                    let ghost pre = self.entries@;
                    self.entries[i].1 = FetchState::InFlight;
                    proof {
                        assert(self.entries@[gi].0@ == name@ && self.entries@[gi].1
                            == FetchState::InFlight);
                        assert forall|n: Seq<char>, st: FetchState| n != name@ implies #[trigger] self
                            .spec_state_is(n, st) == old(self).spec_state_is(n, st) by {
                            if self.spec_state_is(n, st) {
                                let k = choose|k: int|
                                    0 <= k < self.entries@.len() && self.entries@[k].0@ == n
                                        && self.entries@[k].1 == st;
                                assert(pre[k].0@ == n && pre[k].1 == st);
                            }
                            if old(self).spec_state_is(n, st) {
                                let k = choose|k: int|
                                    0 <= k < pre.len() && pre[k].0@ == n && pre[k].1 == st;
                                assert(self.entries@[k].0@ == n && self.entries@[k].1 == st);
                            }
                        }
                    }
                    BeginAction::Fetch
                } else {
                    match &self.entries[i].1 {
                        FetchState::InFlight => {
                            proof {
                                assert(self.spec_state_is(name@, FetchState::InFlight));
                            }
                            BeginAction::Await
                        }
                        _ => {
                            proof {
                                assert(!(self.entries@[gi].1 is Failed) && !(self.entries@[gi].1
                                    is InFlight));
                                assert(!self.spec_is_failed(name@));
                                assert(!self.spec_state_is(name@, FetchState::InFlight));
                            }
                            BeginAction::Ready
                        }
                    }
                }
            }
        }
    }

    /// Record the outcome of the one fetch in flight for `name`.
    pub fn complete(&mut self, name: &String, outcome: Result<VersionMap, String>)
        requires
            old(self).wf(),
            old(self).spec_state_is(name@, FetchState::InFlight),
            (outcome matches Result::Ok(m) ==> m.wf()),
        ensures
            final(self).wf(),
            old(self).maps_wf() ==> final(self).maps_wf(),
            match outcome {
                Result::Ok(m) => final(self).spec_state_is(name@, FetchState::Ready(m)),
                Result::Err(e) => final(self).spec_state_is(name@, FetchState::Failed(e)),
            },
            forall|n: Seq<char>, st: FetchState|
                n != name@ ==> #[trigger] final(self).spec_state_is(n, st) == old(
                    self,
                ).spec_state_is(n, st),
    {
        let found = self.find(name);
        match found {
            Option::None => {
                proof {
                    assert(false);
                }
            }
            Option::Some(i) => {
                let ghost gi = i as int;
                let ghost pre = self.entries@;
                let st = match outcome {
                    Result::Ok(m) => FetchState::Ready(m),
                    Result::Err(e) => FetchState::Failed(e),
                };
                self.entries[i].1 = st;
                proof {
                    assert(self.entries@[gi].0@ == name@);
                    assert forall|n: Seq<char>, s: FetchState| n != name@ implies #[trigger] self
                        .spec_state_is(n, s) == old(self).spec_state_is(n, s) by {
                        if self.spec_state_is(n, s) {
                            let k = choose|k: int|
                                0 <= k < self.entries@.len() && self.entries@[k].0@ == n
                                    && self.entries@[k].1 == s;
                            assert(pre[k].0@ == n && pre[k].1 == s);
                        }
                        if old(self).spec_state_is(n, s) {
                            let k = choose|k: int|
                                0 <= k < pre.len() && pre[k].0@ == n && pre[k].1 == s;
                            assert(self.entries@[k].0@ == n && self.entries@[k].1 == s);
                        }
                    }
                }
            }
        }
    }

    /// The cached version map for `name`, if its fetch completed.
    pub fn get(&self, name: &String) -> (r: Option<&VersionMap>)
        requires
            self.wf(),
        ensures
            match r {
                Option::Some(m) => self.spec_state_is(name@, FetchState::Ready(*m)),
                Option::None => forall|m: VersionMap|
                    !self.spec_state_is(name@, FetchState::Ready(m)),
            },
    {
        let found = self.find(name);
        match found {
            Option::None => {
                proof {
                    assert forall|m: VersionMap| !self.spec_state_is(
                        name@,
                        FetchState::Ready(m),
                    ) by {
                        if self.spec_state_is(name@, FetchState::Ready(m)) {
                            assert(self.spec_has(name@));
                        }
                    }
                }
                Option::None
            }
            Option::Some(i) => {
                let ghost gi = i as int;
                proof {
                    assert forall|j: int|
                        0 <= j < self.entries@.len() && self.entries@[j].0@
                            == name@ implies j == gi by {}
                }
                match &self.entries[i].1 {
                    FetchState::Ready(m) => Option::Some(m),
                    _ => {
                        proof {
                            assert forall|m: VersionMap| !self.spec_state_is(
                                name@,
                                FetchState::Ready(m),
                            ) by {}
                        }
                        Option::None
                    }
                }
            }
        }
    }
}

/// Single-flight: once a request for a name has begun and has not failed
/// (the ledger holds it in flight or ready), a later request for the same
/// name is never told to fetch; with `begin`'s contract, N concurrent
/// requests for one name issue exactly one underlying fetch.
pub proof fn lemma_single_flight(l: FetchLedger, name: Seq<char>)
    requires
        l.wf(),
        l.spec_state_is(name, FetchState::InFlight) || exists|m: VersionMap|
            l.spec_state_is(name, FetchState::Ready(m)),
    ensures
        l.spec_begin_action(name) != BeginAction::Fetch,
{
    let i = choose|i: int|
        0 <= i < l.entries@.len() && l.entries@[i].0@ == name && (l.entries@[i].1
            == FetchState::InFlight || l.entries@[i].1 is Ready);
    if l.spec_state_is(name, FetchState::InFlight) {
        let j = choose|j: int|
            0 <= j < l.entries@.len() && l.entries@[j].0@ == name && l.entries@[j].1
                == FetchState::InFlight;
        assert(l.spec_has(name));
        if l.spec_is_failed(name) {
            let k = choose|k: int|
                0 <= k < l.entries@.len() && l.entries@[k].0@ == name && l.entries@[k].1 is Failed;
            assert(k == j);
        }
    } else {
        let m = choose|m: VersionMap| l.spec_state_is(name, FetchState::Ready(m));
        let j = choose|j: int|
            0 <= j < l.entries@.len() && l.entries@[j].0@ == name && l.entries@[j].1
                == FetchState::Ready(m);
        assert(l.spec_has(name));
        if l.spec_is_failed(name) {
            let k = choose|k: int|
                0 <= k < l.entries@.len() && l.entries@[k].0@ == name && l.entries@[k].1 is Failed;
            assert(k == j);
        }
        if l.spec_state_is(name, FetchState::InFlight) {
            assert(false);
        }
    }
}

/// All requesters share one result: a ledger holds at most one cached
/// version map per name.
pub proof fn lemma_one_result(l: FetchLedger, name: Seq<char>, m1: VersionMap, m2: VersionMap)
    requires
        l.wf(),
        l.spec_state_is(name, FetchState::Ready(m1)),
        l.spec_state_is(name, FetchState::Ready(m2)),
    ensures
        m1 == m2,
{
    let i = choose|i: int|
        0 <= i < l.entries@.len() && l.entries@[i].0@ == name && l.entries@[i].1
            == FetchState::Ready(m1);
    let j = choose|j: int|
        0 <= j < l.entries@.len() && l.entries@[j].0@ == name && l.entries@[j].1
            == FetchState::Ready(m2);
    assert(i == j);
}

/// Whether `name` is among the visited names.
pub open spec fn spec_visited(visited: Seq<String>, name: Seq<char>) -> bool {
    exists|i: int| 0 <= i < visited.len() && visited[i]@ == name
}

/// Mark a name as examined during resolution.
pub fn mark_visited(visited: &mut Vec<String>, name: &String)
    ensures
        final(visited)@ == old(visited)@.push(*name),
        spec_visited(final(visited)@, name@),
        forall|n: Seq<char>|
            spec_visited(old(visited)@, n) ==> spec_visited(final(visited)@, n),
{
    visited.push(name.clone());
    proof {
        let last = visited@.len() - 1;
        assert(visited@[last]@ == name@);
        assert forall|n: Seq<char>| spec_visited(old(visited)@, n) implies spec_visited(
            visited@,
            n,
        ) by {
            let i = choose|i: int| 0 <= i < old(visited)@.len() && old(visited)@[i]@ == n;
            assert(visited@[i]@ == n);
        }
    }
}

/// Membership test on the visited names.
pub fn visited_contains(visited: &Vec<String>, name: &String) -> (r: bool)
    ensures
        r == spec_visited(visited@, name@),
{
    let mut i: usize = 0;
    while i < visited.len()
        invariant
            0 <= i <= visited@.len(),
            forall|k: int| 0 <= k < i ==> visited@[k]@ != name@,
        decreases visited@.len() - i,
    {
        if visited[i] == *name {
            return true;
        }
        i += 1;
    }
    false
}

} // verus!
