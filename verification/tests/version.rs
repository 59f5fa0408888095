use depwatch::{Constraint, CrateVersion};

fn ver(text: &str) -> CrateVersion {
    CrateVersion::parse(text).unwrap()
}

#[test]
fn parse_rejects_malformed_text() {
    assert!(CrateVersion::parse("").is_none());
    assert!(CrateVersion::parse("not a version").is_none());
    assert!(CrateVersion::parse("1.2").is_none());
    assert!(CrateVersion::parse("1.2.3").is_some());
    assert!(CrateVersion::parse("1.2.3-alpha.1+build.5").is_some());
}

#[test]
fn prerelease_flag_follows_the_text() {
    assert!(!ver("1.2.3").is_prerelease());
    assert!(ver("1.2.3-alpha").is_prerelease());
    assert!(ver("0.10.1-alpha").is_prerelease());
    assert!(!ver("1.2.3+build").is_prerelease());
}

#[test]
fn numeric_parts_order_versions() {
    assert!(ver("0.9.9").lt(&ver("0.10.0")));
    assert!(ver("0.10.0").lt(&ver("0.10.1")));
    assert!(ver("0.10.1").lt(&ver("1.0.0")));
    assert!(!ver("1.0.0").lt(&ver("1.0.0")));
    assert!(!ver("1.0.0").lt(&ver("0.9.9")));
}

#[test]
fn prereleases_order_below_their_release() {
    assert!(ver("1.0.0-alpha").lt(&ver("1.0.0")));
    assert!(!ver("1.0.0").lt(&ver("1.0.0-alpha")));
    assert!(ver("0.9.9").lt(&ver("1.0.0-alpha")));
}

#[test]
fn prerelease_identifiers_order_by_semver_precedence() {
    assert!(ver("1.0.0-alpha").lt(&ver("1.0.0-alpha.1")));
    assert!(ver("1.0.0-alpha.1").lt(&ver("1.0.0-alpha.beta")));
    assert!(ver("1.0.0-alpha.beta").lt(&ver("1.0.0-beta")));
    assert!(ver("1.0.0-beta.2").lt(&ver("1.0.0-beta.11")));
    assert!(ver("1.0.0-beta.11").lt(&ver("1.0.0-rc.1")));
    assert!(ver("1.0.0-9").lt(&ver("1.0.0-a")));
    assert!(!ver("1.0.0-rc.1").lt(&ver("1.0.0-beta.11")));
}

#[test]
fn build_metadata_does_not_order_versions() {
    assert!(!ver("1.2.3+alpha").lt(&ver("1.2.3+beta")));
    assert!(!ver("1.2.3+beta").lt(&ver("1.2.3+alpha")));
}

#[test]
fn constraint_parse_rejects_malformed_text() {
    assert!(Constraint::parse("^0.10.0").is_some());
    assert!(Constraint::parse(">=1.2, <1.8").is_some());
    assert!(Constraint::parse("not a constraint").is_none());
}

#[test]
fn constraint_matches_follows_the_range() {
    let caret = Constraint::parse("^0.10.0").unwrap();
    assert!(caret.matches(&ver("0.10.0")));
    assert!(caret.matches(&ver("0.10.7")));
    assert!(!caret.matches(&ver("0.11.0")));
    assert!(!caret.matches(&ver("0.10.1-alpha")));

    let range = Constraint::parse(">=1.2, <1.8").unwrap();
    assert!(range.matches(&ver("1.5.0")));
    assert!(!range.matches(&ver("1.8.0")));
    assert!(!range.matches(&ver("1.1.9")));
}
