use frontmatter_mcp::bump_semver;
use frontmatter_mcp::semver::{bump_would_overflow, SemverError};

#[test]
fn bump_semver_patch() {
    assert_eq!(bump_semver("1.2.3", "patch").unwrap(), "1.2.4");
}

#[test]
fn bump_semver_minor() {
    assert_eq!(bump_semver("1.2.3", "minor").unwrap(), "1.3.0");
}

#[test]
fn bump_semver_major() {
    assert_eq!(bump_semver("1.2.3", "major").unwrap(), "2.0.0");
}

#[test]
fn bump_semver_bad_level() {
    assert!(bump_semver("1.2.3", "huge").is_err());
}

#[test]
fn bump_semver_says_what_is_wrong() {
    let invalid = |v: &str| Err(SemverError::Invalid(v.to_owned()));
    for v in ["", "1", "1.2", "1.2.3.4", "1..2.3"] {
        assert_eq!(bump_semver(v, "patch"), invalid(v));
    }
    assert_eq!(bump_semver("..", "patch"), Err(SemverError::Major(String::new())));
    assert_eq!(bump_semver("v1.2.3", "patch"), Err(SemverError::Major("v1".to_owned())));
    assert_eq!(bump_semver("-1.2.3", "patch"), Err(SemverError::Major("-1".to_owned())));
    assert_eq!(bump_semver("1. 2.3", "patch"), Err(SemverError::Minor(" 2".to_owned())));
    assert_eq!(bump_semver("1.2.3-rc", "patch"), Err(SemverError::Patch("3-rc".to_owned())));
    assert_eq!(bump_semver("1.2.+", "patch"), Err(SemverError::Patch("+".to_owned())));
    let great = "18446744073709551616".to_owned();
    assert_eq!(bump_semver("1.2.18446744073709551616", "major"), Err(SemverError::Patch(great)));
    assert_eq!(bump_semver("1.2.3", ""), Err(SemverError::Level(String::new())));
    // The version is looked at before the level.
    assert_eq!(bump_semver("1.x.3", "huge"), Err(SemverError::Minor("x".to_owned())));
}

#[test]
fn bump_semver_reads_numbers_as_they_come() {
    assert_eq!(bump_semver("+1.02.003", "patch").unwrap(), "1.2.4");
    assert_eq!(bump_semver("0.0.0", "minor").unwrap(), "0.1.0");
    assert_eq!(bump_semver("9.99.999", "patch").unwrap(), "9.99.1000");
    assert_eq!(bump_semver("18446744073709551615.0.0", "minor").unwrap(), "18446744073709551615.1.0");
}

#[test]
fn bump_semver_can_go_on() {
    let mut v = "0.9.9".to_owned();
    for level in ["patch", "minor", "patch", "major", "patch"] {
        v = bump_semver(&v, level).unwrap();
    }
    assert_eq!(v, "1.0.1");
}

#[test]
fn bump_semver_overflow_is_told() {
    let top = "1.18446744073709551615.3";
    assert!(bump_would_overflow(top, "minor"));
    assert!(!bump_would_overflow(top, "patch"));
    assert!(!bump_would_overflow(top, "huge"));
    assert!(!bump_would_overflow("x", "minor"));
    assert!(bump_would_overflow("18446744073709551615.0.0", "major"));
    assert!(bump_would_overflow("0.0.18446744073709551615", "patch"));
}
