use wkg::version::{parse_version, version_lt_exec, version_to_string, PreId};
use wkg::Error;

#[test]
fn parse_plain_version() {
    let v = parse_version("1.2.3").unwrap();
    assert_eq!(v.major, 1);
    assert_eq!(v.minor, 2);
    assert_eq!(v.patch, 3);
    assert_eq!(v.pre.len(), 0);
}

#[test]
fn parse_prerelease_version() {
    let v = parse_version("1.0.0-alpha.1").unwrap();
    assert_eq!(v.pre.len(), 2);
    assert!(matches!(&v.pre[0], PreId::Alpha(s) if s == "alpha"));
    assert!(matches!(v.pre[1], PreId::Num(1)));
}

#[test]
fn parse_largest_value() {
    let v = parse_version("18446744073709551615.0.0").unwrap();
    assert_eq!(v.major, u64::MAX);
}

#[test]
fn render_round_trip() {
    for s in [
        "0.1.0",
        "10.20.30",
        "1.0.0-alpha",
        "1.0.0-alpha.1",
        "2.0.0-rc.1.x-y",
        "1.2.3-0.a0",
    ] {
        let v = parse_version(s).unwrap();
        assert_eq!(version_to_string(&v), s, "{s}");
    }
}

#[test]
fn parse_rejects_malformed() {
    for s in [
        "",
        "1",
        "1.2",
        "1.2.3.4",
        "01.0.0",
        "1.00.0",
        "a.b.c",
        "1.2.3-",
        "1.2.3-.",
        "1.2.3-a..b",
        "1.2.3-01",
        "1.2.3x",
        "1.2.3-a_b",
        "18446744073709551616.0.0",
        "1.2.3 ",
    ] {
        assert!(matches!(parse_version(s), Err(Error::InvalidReference(_))), "{s}");
    }
}

#[test]
fn precedence_ordering() {
    let one = parse_version("1.0.0").unwrap();
    let two = parse_version("2.0.0").unwrap();
    assert!(version_lt_exec(&one, &two));
    assert!(!version_lt_exec(&two, &one));
    assert!(!version_lt_exec(&one, &one));

    let alpha = parse_version("1.0.0-alpha").unwrap();
    // a pre-release precedes the release itself
    assert!(version_lt_exec(&alpha, &one));
    assert!(!version_lt_exec(&one, &alpha));

    // a numeric identifier precedes an alphanumeric one
    let numeric = parse_version("1.0.0-1").unwrap();
    assert!(version_lt_exec(&numeric, &alpha));
    assert!(version_lt_exec(&numeric, &parse_version("1.0.0-2").unwrap()));

    // a shorter pre-release precedes its extensions
    let alpha1 = parse_version("1.0.0-alpha.1").unwrap();
    assert!(version_lt_exec(&alpha, &alpha1));

    // alphanumeric identifiers compare lexicographically
    let beta = parse_version("1.0.0-beta").unwrap();
    assert!(version_lt_exec(&alpha, &beta));
}
