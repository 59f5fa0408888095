use depwatch::{
    Constraint, CrateDeps, CrateName, CrateRelease, CrateVersion, DependencyAnalyzer,
};

fn ver(text: &str) -> CrateVersion {
    CrateVersion::parse(text).unwrap()
}

fn release(name: &str, version: &str, yanked: bool) -> CrateRelease {
    CrateRelease {
        name: CrateName::new(name),
        version: ver(version),
        deps: CrateDeps::default(),
        yanked,
    }
}

fn hyper_deps(constraint: &str) -> CrateDeps {
    let mut deps = CrateDeps::default();
    deps.main.insert(CrateName::new("hyper"), Constraint::parse(constraint).unwrap());
    deps
}

#[test]
fn tracks_latest_without_matching() {
    let deps = hyper_deps("^0.11.0");

    let mut analyzer = DependencyAnalyzer::new(&deps, None);
    analyzer.process(&vec![release("hyper", "0.10.0", false), release("hyper", "0.10.1", false)]);

    let analyzed = analyzer.finalize();

    let hyper = CrateName::new("hyper");
    assert_eq!(analyzed.main.get(&hyper).unwrap().latest_that_matches, None);
    assert_eq!(analyzed.main.get(&hyper).unwrap().latest, Some(ver("0.10.1")));
}

#[test]
fn tracks_latest_that_matches() {
    let deps = hyper_deps("^0.10.0");

    let mut analyzer = DependencyAnalyzer::new(&deps, None);
    analyzer.process(&vec![
        release("hyper", "0.10.0", false),
        release("hyper", "0.10.1", false),
        release("hyper", "0.11.0", false),
    ]);

    let analyzed = analyzer.finalize();

    let hyper = CrateName::new("hyper");
    assert_eq!(analyzed.main.get(&hyper).unwrap().latest_that_matches, Some(ver("0.10.1")));
    assert_eq!(analyzed.main.get(&hyper).unwrap().latest, Some(ver("0.11.0")));
}

#[test]
fn skips_yanked_releases() {
    let deps = hyper_deps("^0.10.0");

    let mut analyzer = DependencyAnalyzer::new(&deps, None);
    analyzer.process(&vec![release("hyper", "0.10.0", false), release("hyper", "0.10.1", true)]);

    let analyzed = analyzer.finalize();

    let hyper = CrateName::new("hyper");
    assert_eq!(analyzed.main.get(&hyper).unwrap().latest_that_matches, Some(ver("0.10.0")));
    assert_eq!(analyzed.main.get(&hyper).unwrap().latest, Some(ver("0.10.0")));
}

#[test]
fn skips_prereleases() {
    let deps = hyper_deps("^0.10.0");

    let mut analyzer = DependencyAnalyzer::new(&deps, None);
    analyzer.process(&vec![
        release("hyper", "0.10.0", false),
        release("hyper", "0.10.1-alpha", false),
    ]);

    let analyzed = analyzer.finalize();

    let hyper = CrateName::new("hyper");
    assert_eq!(analyzed.main.get(&hyper).unwrap().latest_that_matches, Some(ver("0.10.0")));
    assert_eq!(analyzed.main.get(&hyper).unwrap().latest, Some(ver("0.10.0")));
}

#[test]
fn matching_release_raises_both_fields() {
    let deps = hyper_deps("^0.10.0");

    let mut analyzer = DependencyAnalyzer::new(&deps, None);
    analyzer.process(&vec![release("hyper", "0.10.0", false), release("hyper", "0.10.1", false)]);

    let analyzed = analyzer.finalize();

    let hyper = CrateName::new("hyper");
    assert_eq!(analyzed.main.get(&hyper).unwrap().latest_that_matches, Some(ver("0.10.1")));
    assert_eq!(analyzed.main.get(&hyper).unwrap().latest, Some(ver("0.10.1")));
}

#[test]
fn only_yanked_releases_leave_fields_unset() {
    let deps = hyper_deps("^0.10.0");

    let mut analyzer = DependencyAnalyzer::new(&deps, None);
    analyzer.process(&vec![release("hyper", "0.10.0", true), release("hyper", "99.0.0", true)]);

    let analyzed = analyzer.finalize();

    let hyper = CrateName::new("hyper");
    assert_eq!(analyzed.main.get(&hyper).unwrap().latest_that_matches, None);
    assert_eq!(analyzed.main.get(&hyper).unwrap().latest, None);
}

#[test]
fn untracked_names_are_ignored() {
    let deps = hyper_deps("^0.10.0");

    let mut analyzer = DependencyAnalyzer::new(&deps, None);
    analyzer.process(&vec![release("serde", "1.0.0", false)]);

    let analyzed = analyzer.finalize();

    let hyper = CrateName::new("hyper");
    assert_eq!(analyzed.main.get(&hyper).unwrap().latest_that_matches, None);
    assert_eq!(analyzed.main.get(&hyper).unwrap().latest, None);
    assert!(analyzed.main.get(&CrateName::new("serde")).is_none());
}

#[test]
fn empty_batch_changes_nothing() {
    let deps = hyper_deps("^0.10.0");

    let mut analyzer = DependencyAnalyzer::new(&deps, None);
    analyzer.process(&vec![]);

    let analyzed = analyzer.finalize();

    let hyper = CrateName::new("hyper");
    assert_eq!(analyzed.main.get(&hyper).unwrap().latest_that_matches, None);
    assert_eq!(analyzed.main.get(&hyper).unwrap().latest, None);
}

#[test]
fn batching_and_reingestion_do_not_change_results() {
    let one_call = {
        let mut analyzer = DependencyAnalyzer::new(&hyper_deps("^0.10.0"), None);
        analyzer.process(&vec![
            release("hyper", "0.10.0", false),
            release("hyper", "0.10.1", false),
            release("hyper", "0.11.0", false),
        ]);
        analyzer.finalize()
    };
    let many_calls = {
        let mut analyzer = DependencyAnalyzer::new(&hyper_deps("^0.10.0"), None);
        analyzer.process(&vec![release("hyper", "0.11.0", false)]);
        analyzer.process(&vec![release("hyper", "0.10.1", false)]);
        analyzer.process(&vec![release("hyper", "0.10.0", false)]);
        analyzer.process(&vec![release("hyper", "0.10.1", false)]);
        analyzer.finalize()
    };

    let hyper = CrateName::new("hyper");
    assert_eq!(
        one_call.main.get(&hyper).unwrap().latest_that_matches,
        many_calls.main.get(&hyper).unwrap().latest_that_matches
    );
    assert_eq!(one_call.main.get(&hyper).unwrap().latest, many_calls.main.get(&hyper).unwrap().latest);
    assert_eq!(one_call.main.get(&hyper).unwrap().latest_that_matches, Some(ver("0.10.1")));
    assert_eq!(one_call.main.get(&hyper).unwrap().latest, Some(ver("0.11.0")));
}

#[test]
fn kinds_are_tracked_independently() {
    let mut deps = CrateDeps::default();
    deps.main.insert(CrateName::new("hyper"), Constraint::parse("^0.10.0").unwrap());
    deps.dev.insert(CrateName::new("hyper"), Constraint::parse("^0.11.0").unwrap());
    deps.build.insert(CrateName::new("serde"), Constraint::parse("^1.0.0").unwrap());

    let mut analyzer = DependencyAnalyzer::new(&deps, None);
    analyzer.process(&vec![
        release("hyper", "0.10.2", false),
        release("hyper", "0.11.1", false),
        release("serde", "1.0.5", false),
    ]);

    let analyzed = analyzer.finalize();

    let hyper = CrateName::new("hyper");
    let serde = CrateName::new("serde");
    assert_eq!(analyzed.main.get(&hyper).unwrap().latest_that_matches, Some(ver("0.10.2")));
    assert_eq!(analyzed.dev.get(&hyper).unwrap().latest_that_matches, Some(ver("0.11.1")));
    assert_eq!(analyzed.build.get(&serde).unwrap().latest_that_matches, Some(ver("1.0.5")));
    assert_eq!(analyzed.main.get(&hyper).unwrap().latest, Some(ver("0.11.1")));
    assert!(analyzed.build.get(&hyper).is_none());
}

#[test]
fn vulnerabilities_stay_empty_without_advisory_source() {
    let deps = hyper_deps("^0.10.0");

    let mut analyzer = DependencyAnalyzer::new(&deps, None);
    analyzer.process(&vec![release("hyper", "0.10.0", false)]);

    let analyzed = analyzer.finalize();

    let hyper = CrateName::new("hyper");
    assert!(analyzed.main.get(&hyper).unwrap().vulnerabilities.is_empty());
}

#[test]
fn declared_names_are_looked_up_by_text() {
    let mut deps = CrateDeps::default();
    deps.main.insert(CrateName::new("hyper"), Constraint::parse("^0.10.0").unwrap());
    assert!(deps.main.contains_name(&CrateName::new("hyper")));
    assert!(!deps.main.contains_name(&CrateName::new("serde")));
    assert!(deps.main.get(&CrateName::new("hyper")).is_some());
    assert_eq!(deps.main.len(), 1);
}
