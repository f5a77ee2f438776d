use wkg::pipeline::PackageSpec;
use wkg::resolve::{resolve_version, select_latest, ReleaseInfo};
use wkg::version::{parse_version, version_to_string};
use wkg::Error;

fn rel(s: &str, yanked: bool) -> ReleaseInfo {
    ReleaseInfo { version: parse_version(s).unwrap(), yanked }
}

#[test]
fn latest_skips_yanked() {
    let releases = vec![rel("1.0.0", false), rel("1.2.0", true), rel("2.0.0", false)];
    let v = resolve_version(None, &releases).unwrap();
    assert_eq!(version_to_string(v), "2.0.0");
}

#[test]
fn yanked_excluded_even_when_highest() {
    let releases = vec![rel("1.0.0", false), rel("3.0.0", true)];
    assert_eq!(version_to_string(select_latest(&releases).unwrap()), "1.0.0");
}

#[test]
fn all_yanked_is_no_releases() {
    let releases = vec![rel("1.0.0", true), rel("2.0.0", true)];
    assert!(matches!(
        resolve_version(None, &releases),
        Err(Error::NoReleasesFound)
    ));
    let empty: Vec<ReleaseInfo> = vec![];
    assert!(matches!(select_latest(&empty), Err(Error::NoReleasesFound)));
}

#[test]
fn explicit_version_returned_unchanged() {
    let spec = PackageSpec::parse("wasi:http@0.2.0").unwrap();
    assert!(!spec.version_query_needed());
    // no release list is consulted: an empty one changes nothing
    let releases: Vec<ReleaseInfo> = vec![];
    let v = resolve_version(spec.version.as_ref(), &releases).unwrap();
    assert_eq!(version_to_string(v), "0.2.0");
}

#[test]
fn missing_version_needs_query() {
    let spec = PackageSpec::parse("wasi:http").unwrap();
    assert!(spec.version_query_needed());
    assert!(spec.version.is_none());
}

#[test]
fn prerelease_precedence_in_resolution() {
    let releases = vec![
        rel("1.0.0-rc.1", false),
        rel("1.0.0", false),
        rel("1.0.0-rc.2", false),
    ];
    assert_eq!(version_to_string(select_latest(&releases).unwrap()), "1.0.0");
}
