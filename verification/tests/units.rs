use puffin_resolver::derivation::{DerivationTree, External};
use puffin_resolver::error::{NoSolutionError, ResolveError};
use puffin_resolver::index::{BeginAction, FetchLedger};
use puffin_resolver::package::{PubGrubPackage, PythonRequirement};
use puffin_resolver::range::VersionRange;
use puffin_resolver::text::{u64_text, version_text};
use puffin_resolver::version::Version;
use puffin_resolver::version_map::{Dist, DistKind, VersionMap, VersionMapEntry};

fn v(major: u64, minor: u64, micro: u64) -> Version {
    Version::release(major, minor, micro)
}

fn entry(version: Version) -> VersionMapEntry {
    VersionMapEntry {
        version,
        dist: Dist { kind: DistKind::Source, file: String::from("artifact.tar.gz") },
        requires_python: None,
        dependencies: vec![],
    }
}

#[test]
fn version_order_puts_prerelease_before_release() {
    let rc = Version::pre_release(1, 0, 0, 1);
    let rel = v(1, 0, 0);
    assert!(rc.lt(&rel));
    assert!(!rel.lt(&rc));
    assert!(Version::pre_release(1, 0, 0, 1).lt(&Version::pre_release(1, 0, 0, 2)));
    assert!(v(0, 9, 9).lt(&rc));
    assert!(v(1, 0, 0).lt(&v(1, 0, 1)));
    assert!(v(1, 9, 0).lt(&v(2, 0, 0)));
}

#[test]
fn range_algebra_is_pointwise() {
    let lo = VersionRange::at_least(v(1, 0, 0));
    let hi = VersionRange::earlier_than(v(2, 0, 0));
    let both = lo.intersection(&hi);
    assert!(both.contains(&v(1, 5, 0)));
    assert!(!both.contains(&v(0, 9, 0)));
    assert!(!both.contains(&v(2, 0, 0)));
    let either = VersionRange::exact(v(0, 1, 0)).union(&VersionRange::exact(v(3, 0, 0)));
    assert!(either.contains(&v(0, 1, 0)));
    assert!(either.contains(&v(3, 0, 0)));
    assert!(!either.contains(&v(1, 0, 0)));
    let outside = both.complement();
    assert!(outside.contains(&v(0, 9, 0)));
    assert!(outside.contains(&v(2, 0, 0)));
    assert!(!outside.contains(&v(1, 5, 0)));
    assert!(!VersionRange::none().contains(&v(1, 0, 0)));
    assert!(VersionRange::any().contains(&v(1, 0, 0)));
}

#[test]
fn decimal_and_version_text() {
    assert_eq!(u64_text(0), "0");
    assert_eq!(u64_text(7), "7");
    assert_eq!(u64_text(10), "10");
    assert_eq!(u64_text(90210), "90210");
    assert_eq!(version_text(&v(1, 2, 3)), "1.2.3");
    assert_eq!(version_text(&Version::pre_release(1, 0, 0, 4)), "1.0.0rc4");
}

#[test]
fn ledger_is_single_flight() {
    let mut ledger = FetchLedger::new();
    let name = String::from("a");
    assert_eq!(ledger.begin(&name), BeginAction::Fetch);
    // a second concurrent requester awaits the one fetch in flight
    assert_eq!(ledger.begin(&name), BeginAction::Await);
    assert!(ledger.get(&name).is_none());
    let mut map = VersionMap::new();
    map.push(entry(v(1, 0, 0)));
    ledger.complete(&name, Ok(map));
    // every later requester reads the one cached result
    assert_eq!(ledger.begin(&name), BeginAction::Ready);
    let got = ledger.get(&name).expect("cached");
    assert_eq!(got.len(), 1);
}

#[test]
fn failed_fetch_is_not_poisoned() {
    let mut ledger = FetchLedger::new();
    let name = String::from("a");
    assert_eq!(ledger.begin(&name), BeginAction::Fetch);
    ledger.complete(&name, Err(String::from("connection reset")));
    // the failure is not cached as poison: a retry is permitted
    assert_eq!(ledger.begin(&name), BeginAction::Fetch);
    let mut map = VersionMap::new();
    map.push(entry(v(1, 0, 0)));
    ledger.complete(&name, Ok(map));
    assert_eq!(ledger.begin(&name), BeginAction::Ready);
}

fn named(name: &str) -> PubGrubPackage {
    PubGrubPackage::Package { name: String::from(name), extra: None, url: None }
}

#[test]
fn available_versions_show_only_visited_packages() {
    // the derivation tree names two packages, but only one was visited
    let tree = DerivationTree::Derived {
        terms: vec![(named("seen"), VersionRange::any())],
        cause1: Box::new(DerivationTree::External(External::NoVersions(
            named("seen"),
            VersionRange::any(),
        ))),
        cause2: Box::new(DerivationTree::External(External::NoVersions(
            named("unseen"),
            VersionRange::any(),
        ))),
    };
    let mut ledger = FetchLedger::new();
    for name in ["seen", "unseen"] {
        let key = String::from(name);
        assert_eq!(ledger.begin(&key), BeginAction::Fetch);
        let mut map = VersionMap::new();
        map.push(entry(v(1, 0, 0)));
        map.push(entry(v(2, 0, 0)));
        ledger.complete(&key, Ok(map));
    }
    let visited = vec![String::from("seen")];
    let ns = NoSolutionError {
        derivation_tree: tree,
        available_versions: vec![],
        selector: None,
        python_requirement: None,
    };
    let py = PythonRequirement::new(v(3, 10, 0), v(3, 8, 0));
    let ns = ns.with_available_versions(&py, &visited, &ledger);
    assert_eq!(ns.available_versions.len(), 1);
    assert_eq!(ns.available_versions[0].1, vec![v(1, 0, 0), v(2, 0, 0)]);
    match &ns.available_versions[0].0 {
        PubGrubPackage::Package { name, .. } => assert_eq!(name.as_str(), "seen"),
        other => panic!("unexpected package {:?}", other),
    }
    // the rendered report claims no version of the unvisited package
    let message = ns.message();
    assert!(message.contains("of seen matching any version (examined versions: 1.0.0, 2.0.0)"));
    assert!(!message.contains("of unseen matching any version (examined"));
}

#[test]
fn not_found_message_matches_taxonomy() {
    let q = puffin_resolver::package::Requirement::new(String::from("pkg"), VersionRange::any());
    let e = puffin_resolver::error::ResolveError::NotFound(q);
    assert_eq!(e.message(), "Failed to find a version of pkg that satisfies the requirement");
    let s = puffin_resolver::error::ResolveError::SelfDependency {
        package: Box::new(named("pkg")),
        version: Box::new(v(1, 2, 3)),
    };
    assert_eq!(s.message(), "pkg 1.2.3 depends on itself");
}

#[test]
fn collaborator_error_messages() {
    let dist = || Dist { kind: DistKind::Built, file: String::from("pkg-1.0.0.whl") };
    assert_eq!(
        ResolveError::StreamTermination.message(),
        "The request stream terminated unexpectedly"
    );
    assert_eq!(
        ResolveError::Unregistered.message(),
        "Attempted to wait on an unregistered task"
    );
    assert_eq!(ResolveError::Client(String::from("503")).message(), "503");
    assert_eq!(ResolveError::TrySend(String::from("channel closed")).message(), "channel closed");
    assert_eq!(ResolveError::Join(String::from("task gone")).message(), "task gone");
    assert_eq!(
        ResolveError::NameMismatch {
            given: String::from("asked"),
            metadata: String::from("answered"),
        }
        .message(),
        "Package metadata name `answered` does not match given name `asked`"
    );
    assert_eq!(
        ResolveError::ConflictingUrls(
            String::from("pkg"),
            String::from("https://a"),
            String::from("https://b"),
        )
        .message(),
        "There are conflicting URLs for package `pkg`:\n- https://a\n- https://b"
    );
    assert_eq!(
        ResolveError::ConflictingVersions(String::from("pkg"), String::from("1.0.0 and 2.0.0"))
            .message(),
        "There are conflicting versions for `pkg`: 1.0.0 and 2.0.0"
    );
    assert_eq!(
        ResolveError::DisallowedUrl(String::from("pkg"), String::from("https://a")).message(),
        "Package `pkg` attempted to resolve via URL: https://a. URL dependencies must be \
         expressed as direct requirements or constraints. Consider adding `pkg @ https://a` \
         to your dependencies or constraints file."
    );
    assert_eq!(
        ResolveError::Fetch(dist(), String::from("timed out")).message(),
        "Failed to download: pkg-1.0.0.whl: timed out"
    );
    assert_eq!(
        ResolveError::FetchAndBuild(dist(), String::from("build failed")).message(),
        "Failed to download and build: pkg-1.0.0.whl: build failed"
    );
    assert_eq!(ResolveError::Failure(String::from("odd state")).message(), "odd state");
}

#[test]
fn metadata_name_mismatch_is_detected() {
    let asked = String::from("pkg");
    assert!(ResolveError::check_metadata_name(&asked, &String::from("pkg")).is_ok());
    match ResolveError::check_metadata_name(&asked, &String::from("other")) {
        Err(ResolveError::NameMismatch { given, metadata }) => {
            assert_eq!(given, "pkg");
            assert_eq!(metadata, "other");
        }
        _ => panic!("expected NameMismatch"),
    }
}
