use wkg::package::PackageRef;
use wkg::Error;

#[test]
fn parse_valid_reference() {
    let p = PackageRef::parse("wasi:cli").unwrap();
    assert_eq!(p.namespace().as_str(), "wasi");
    assert_eq!(p.name().as_str(), "cli");
    assert_eq!(p.to_string(), "wasi:cli");
}

#[test]
fn parse_kebab_reference() {
    let p = PackageRef::parse("wasm-pkg:loader-v2").unwrap();
    assert_eq!(p.namespace().as_str(), "wasm-pkg");
    assert_eq!(p.name().as_str(), "loader-v2");
    assert_eq!(p.to_string(), "wasm-pkg:loader-v2");
}

#[test]
fn round_trip_parse_render_parse() {
    for s in ["wasi:cli", "a:b", "my-ns1:the-name2"] {
        let p1 = PackageRef::parse(s).unwrap();
        let p2 = PackageRef::parse(&p1.to_string()).unwrap();
        assert_eq!(p1.namespace().as_str(), p2.namespace().as_str());
        assert_eq!(p1.name().as_str(), p2.name().as_str());
        assert_eq!(p2.to_string(), s);
    }
}

#[test]
fn parse_rejects_missing_colon() {
    match PackageRef::parse("wasi") {
        Err(Error::InvalidReference(m)) => assert_eq!(m, "missing expected ':'"),
        _ => panic!("expected failure"),
    }
    assert!(matches!(
        PackageRef::parse("wasicli"),
        Err(Error::InvalidReference(_))
    ));
}

#[test]
fn parse_rejects_invalid_labels() {
    for s in [
        "", "Wasi:cli", "wasi:", ":cli", "-a:b", "a-:b", "a--b:c", "a:b:c", "wasi:c_li",
        "wa si:cli",
    ] {
        assert!(
            matches!(PackageRef::parse(s), Err(Error::InvalidReference(_))),
            "{s}"
        );
    }
}
