use puffin_resolver::error::ResolveError;
use puffin_resolver::index::{BeginAction, FetchLedger};
use puffin_resolver::package::{PythonRequirement, Requirement};
use puffin_resolver::range::VersionRange;
use puffin_resolver::selector::{CandidateSelector, ResolutionMode};
use puffin_resolver::solver::resolve;
use puffin_resolver::version::Version;
use puffin_resolver::version_map::{Dist, DistKind, VersionMap, VersionMapEntry};

fn v(major: u64, minor: u64, micro: u64) -> Version {
    Version::release(major, minor, micro)
}

fn entry(version: Version, deps: Vec<Requirement>) -> VersionMapEntry {
    VersionMapEntry {
        version,
        dist: Dist { kind: DistKind::Built, file: String::from("artifact.whl") },
        requires_python: None,
        dependencies: deps,
    }
}

fn ready(ledger: &mut FetchLedger, name: &str, entries: Vec<VersionMapEntry>) {
    let name = String::from(name);
    let mut map = VersionMap::new();
    for e in entries {
        map.push(e);
    }
    assert_eq!(ledger.begin(&name), BeginAction::Fetch);
    ledger.complete(&name, Ok(map));
}

fn req(name: &str, range: VersionRange) -> Requirement {
    Requirement::new(String::from(name), range)
}

fn default_selector() -> CandidateSelector {
    CandidateSelector::new(ResolutionMode::Highest)
}

fn py() -> PythonRequirement {
    PythonRequirement::new(v(3, 10, 0), v(3, 8, 0))
}

/// The unreachable newer version is backtracked over, not reported as a
/// failure: `a>=1` with `a 2.0 -> b==2.0` dead and `a 1.0 -> b==1.0` live
/// must resolve to `a 1.0, b 1.0`.
#[test]
fn scenario_backtracks_to_reachable_version() {
    let mut ledger = FetchLedger::new();
    ready(
        &mut ledger,
        "a",
        vec![
            entry(v(1, 0, 0), vec![req("b", VersionRange::exact(v(1, 0, 0)))]),
            entry(v(2, 0, 0), vec![req("b", VersionRange::exact(v(2, 0, 0)))]),
        ],
    );
    ready(&mut ledger, "b", vec![entry(v(1, 0, 0), vec![])]);
    let reqs = vec![req("a", VersionRange::at_least(v(1, 0, 0)))];
    let r = resolve(&reqs, &default_selector(), &py(), &ledger);
    let res = r.expect("a reachable selection exists");
    assert_eq!(res.version_of(&String::from("a")), Some(v(1, 0, 0)));
    assert_eq!(res.version_of(&String::from("b")), Some(v(1, 0, 0)));
    assert_eq!(res.len(), 2);
}

/// A package whose only version is a pre-release is `NotFound` under the
/// default policy, and resolves to that pre-release once allowed.
#[test]
fn scenario_prerelease_opt_in() {
    let mut ledger = FetchLedger::new();
    ready(&mut ledger, "a", vec![entry(Version::pre_release(1, 0, 0, 1), vec![])]);
    let reqs = vec![req("a", VersionRange::any())];
    match resolve(&reqs, &default_selector(), &py(), &ledger) {
        Err(ResolveError::NotFound(q)) => assert_eq!(q.name, "a"),
        other => panic!("expected NotFound, got {:?}", other.is_ok()),
    }
    let mut selector = default_selector();
    selector.allow_prerelease(String::from("a"));
    let res = resolve(&reqs, &selector, &py(), &ledger).expect("pre-release now selectable");
    assert_eq!(res.version_of(&String::from("a")), Some(Version::pre_release(1, 0, 0, 1)));
}

/// Pre-releases never shadow a final release, and once allowed they are
/// ranked like any other version.
#[test]
fn prerelease_never_shadows_final_release() {
    let mut ledger = FetchLedger::new();
    ready(
        &mut ledger,
        "a",
        vec![entry(v(1, 0, 0), vec![]), entry(Version::pre_release(2, 0, 0, 1), vec![])],
    );
    // both versions in range: the final release wins under the default policy
    let reqs = vec![req("a", VersionRange::any())];
    let res = resolve(&reqs, &default_selector(), &py(), &ledger).unwrap();
    assert_eq!(res.version_of(&String::from("a")), Some(v(1, 0, 0)));
    // allowed, the newer pre-release outranks the final release
    let mut selector = default_selector();
    selector.allow_prerelease(String::from("a"));
    let res = resolve(&reqs, &selector, &py(), &ledger).unwrap();
    assert_eq!(res.version_of(&String::from("a")), Some(Version::pre_release(2, 0, 0, 1)));
}

/// A package whose own dependency range on itself excludes its version is a
/// fatal `SelfDependency`, never a generic `NoSolution`.
#[test]
fn self_dependency_is_fatal() {
    let mut ledger = FetchLedger::new();
    ready(
        &mut ledger,
        "a",
        vec![entry(v(1, 0, 0), vec![req("a", VersionRange::at_least(v(2, 0, 0)))])],
    );
    let reqs = vec![req("a", VersionRange::any())];
    match resolve(&reqs, &default_selector(), &py(), &ledger) {
        Err(ResolveError::SelfDependency { version, .. }) => {
            assert_eq!(*version, v(1, 0, 0));
        }
        Err(ResolveError::NoSolution(_)) => panic!("self-dependency reported as NoSolution"),
        other => panic!("expected SelfDependency, got ok={:?}", other.is_ok()),
    }
}

/// A self-dependency whose range admits its own version is harmless.
#[test]
fn satisfied_self_dependency_is_allowed() {
    let mut ledger = FetchLedger::new();
    ready(
        &mut ledger,
        "a",
        vec![entry(v(1, 0, 0), vec![req("a", VersionRange::at_least(v(1, 0, 0)))])],
    );
    let reqs = vec![req("a", VersionRange::any())];
    let res = resolve(&reqs, &default_selector(), &py(), &ledger).unwrap();
    assert_eq!(res.version_of(&String::from("a")), Some(v(1, 0, 0)));
}

/// Requiring one package under two different URLs is `ConflictingUrls`,
/// whichever requirement comes first.
#[test]
fn conflicting_urls_regardless_of_order() {
    let mut ledger = FetchLedger::new();
    ready(&mut ledger, "a", vec![entry(v(1, 0, 0), vec![])]);
    let with_a = Requirement::with_url(
        String::from("a"),
        VersionRange::any(),
        String::from("https://example.com/one.whl"),
    );
    let with_b = Requirement::with_url(
        String::from("a"),
        VersionRange::any(),
        String::from("https://example.com/two.whl"),
    );
    for reqs in [
        vec![with_a.duplicate(), with_b.duplicate()],
        vec![with_b.duplicate(), with_a.duplicate()],
    ] {
        match resolve(&reqs, &default_selector(), &py(), &ledger) {
            Err(ResolveError::ConflictingUrls(name, _, _)) => assert_eq!(name, "a"),
            other => panic!("expected ConflictingUrls, got ok={:?}", other.is_ok()),
        }
    }
}

/// Equivalent URL spellings are no conflict: url parsing normalizes them.
#[test]
fn equivalent_urls_are_no_conflict() {
    let mut ledger = FetchLedger::new();
    ready(&mut ledger, "a", vec![entry(v(1, 0, 0), vec![])]);
    let one = Requirement::with_url(
        String::from("a"),
        VersionRange::any(),
        String::from("https://example.com/one.whl"),
    );
    let two = Requirement::with_url(
        String::from("a"),
        VersionRange::any(),
        String::from("https://EXAMPLE.com/one.whl"),
    );
    let reqs = vec![one, two];
    assert!(resolve(&reqs, &default_selector(), &py(), &ledger).is_ok());
}

/// A transitive dependency may not introduce a URL pin of its own.
#[test]
fn transitive_url_is_disallowed() {
    let mut ledger = FetchLedger::new();
    ready(
        &mut ledger,
        "a",
        vec![entry(
            v(1, 0, 0),
            vec![Requirement::with_url(
                String::from("b"),
                VersionRange::any(),
                String::from("https://example.com/b.whl"),
            )],
        )],
    );
    ready(&mut ledger, "b", vec![entry(v(1, 0, 0), vec![])]);
    let reqs = vec![req("a", VersionRange::any())];
    match resolve(&reqs, &default_selector(), &py(), &ledger) {
        Err(ResolveError::DisallowedUrl(name, _)) => assert_eq!(name, "b"),
        other => panic!("expected DisallowedUrl, got ok={:?}", other.is_ok()),
    }
}

/// An unsatisfiable set yields `NoSolution` whose report names only examined
/// packages, and repeated resolution renders the identical text.
#[test]
fn no_solution_report_is_deterministic() {
    let mut ledger = FetchLedger::new();
    ready(
        &mut ledger,
        "a",
        vec![entry(v(1, 0, 0), vec![req("b", VersionRange::at_least(v(9, 0, 0)))])],
    );
    ready(&mut ledger, "b", vec![entry(v(1, 0, 0), vec![])]);
    let reqs = vec![req("a", VersionRange::any())];
    let first = match resolve(&reqs, &default_selector(), &py(), &ledger) {
        Err(ResolveError::NoSolution(ns)) => ns.message(),
        other => panic!("expected NoSolution, got ok={:?}", other.is_ok()),
    };
    let second = match resolve(&reqs, &default_selector(), &py(), &ledger) {
        Err(ResolveError::NoSolution(ns)) => ns.message(),
        other => panic!("expected NoSolution, got ok={:?}", other.is_ok()),
    };
    assert_eq!(first, second);
    assert!(first.contains("b"));
    assert!(first.contains("1.0.0"));
}

/// Fixed inputs give an identical assignment, however the index was filled.
#[test]
fn resolution_is_deterministic_across_fetch_orders() {
    let build = |names: [&str; 3]| {
        let mut ledger = FetchLedger::new();
        for name in names {
            match name {
                "a" => ready(
                    &mut ledger,
                    "a",
                    vec![
                        entry(v(1, 0, 0), vec![req("b", VersionRange::any())]),
                        entry(v(2, 0, 0), vec![req("b", VersionRange::any())]),
                    ],
                ),
                "b" => ready(
                    &mut ledger,
                    "b",
                    vec![entry(v(1, 0, 0), vec![req("c", VersionRange::any())])],
                ),
                _ => ready(&mut ledger, "c", vec![entry(v(3, 0, 0), vec![])]),
            }
        }
        ledger
    };
    let reqs = vec![req("a", VersionRange::any())];
    let mut outcomes = Vec::new();
    for order in [["a", "b", "c"], ["c", "b", "a"], ["b", "c", "a"]] {
        let ledger = build(order);
        let res = resolve(&reqs, &default_selector(), &py(), &ledger).unwrap();
        outcomes.push((
            res.version_of(&String::from("a")),
            res.version_of(&String::from("b")),
            res.version_of(&String::from("c")),
        ));
    }
    assert_eq!(outcomes[0], outcomes[1]);
    assert_eq!(outcomes[1], outcomes[2]);
    assert_eq!(outcomes[0].0, Some(v(2, 0, 0)));
}

/// The lowest-compatible direction picks the oldest admissible version.
#[test]
fn lowest_direction_resolves_oldest() {
    let mut ledger = FetchLedger::new();
    ready(&mut ledger, "a", vec![entry(v(1, 0, 0), vec![]), entry(v(2, 0, 0), vec![])]);
    let reqs = vec![req("a", VersionRange::any())];
    let res = resolve(&reqs, &CandidateSelector::new(ResolutionMode::Lowest), &py(), &ledger)
        .unwrap();
    assert_eq!(res.version_of(&String::from("a")), Some(v(1, 0, 0)));
}

/// A pinned (installed) version is preferred over a newer one while it
/// satisfies the range.
#[test]
fn pinned_version_is_preferred() {
    let mut ledger = FetchLedger::new();
    ready(&mut ledger, "a", vec![entry(v(1, 0, 0), vec![]), entry(v(2, 0, 0), vec![])]);
    let reqs = vec![req("a", VersionRange::any())];
    let mut selector = default_selector();
    selector.prefer(String::from("a"), v(1, 0, 0));
    let res = resolve(&reqs, &selector, &py(), &ledger).unwrap();
    assert_eq!(res.version_of(&String::from("a")), Some(v(1, 0, 0)));
    // outside the range the pin is ignored
    let reqs = vec![req("a", VersionRange::at_least(v(2, 0, 0)))];
    let res = resolve(&reqs, &selector, &py(), &ledger).unwrap();
    assert_eq!(res.version_of(&String::from("a")), Some(v(2, 0, 0)));
}

/// A version whose declared interpreter range excludes the environment is
/// never offered.
#[test]
fn interpreter_range_filters_candidates() {
    let mut ledger = FetchLedger::new();
    let mut too_new = entry(v(2, 0, 0), vec![]);
    too_new.requires_python = Some(VersionRange::at_least(v(3, 12, 0)));
    ready(&mut ledger, "a", vec![entry(v(1, 0, 0), vec![]), too_new]);
    let reqs = vec![req("a", VersionRange::any())];
    let res = resolve(&reqs, &default_selector(), &py(), &ledger).unwrap();
    assert_eq!(res.version_of(&String::from("a")), Some(v(1, 0, 0)));
}

/// A transitive dependency offered only under a newer interpreter is blamed
/// on the interpreter requirement, and the report shows the environment.
#[test]
fn interpreter_conflict_names_the_interpreter() {
    let mut ledger = FetchLedger::new();
    ready(
        &mut ledger,
        "a",
        vec![entry(v(1, 0, 0), vec![req("b", VersionRange::any())])],
    );
    let mut b = entry(v(1, 0, 0), vec![]);
    b.requires_python = Some(VersionRange::at_least(v(3, 12, 0)));
    ready(&mut ledger, "b", vec![b]);
    let reqs = vec![req("a", VersionRange::any())];
    match resolve(&reqs, &default_selector(), &py(), &ledger) {
        Err(ResolveError::NoSolution(ns)) => {
            let message = ns.message();
            assert!(message.contains("the target interpreter"));
            assert!(message.contains("(target: 3.8.0)"));
        }
        other => panic!("expected NoSolution, got ok={:?}", other.is_ok()),
    }
}
