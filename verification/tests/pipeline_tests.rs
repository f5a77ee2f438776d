use wkg::pipeline::PackageSpec;
use wkg::version::version_to_string;
use wkg::Error;

#[test]
fn spec_with_version() {
    let s = PackageSpec::parse("wasi:http@0.2.0").unwrap();
    assert_eq!(s.package.to_string(), "wasi:http");
    assert_eq!(version_to_string(s.version.as_ref().unwrap()), "0.2.0");
}

#[test]
fn spec_without_version() {
    let s = PackageSpec::parse("wasi:cli").unwrap();
    assert_eq!(s.package.to_string(), "wasi:cli");
    assert!(s.version.is_none());
}

#[test]
fn spec_rejects_bad_input() {
    for s in [
        "wasi",
        "wasi:cli@",
        "wasi:cli@1",
        "wasi:cli@1.0",
        "@1.0.0",
        "wasi:cli@1.0.0@2.0.0",
        "Wasi:cli@1.0.0",
    ] {
        assert!(matches!(PackageSpec::parse(s), Err(Error::InvalidReference(_))), "{s}");
    }
}

#[test]
fn error_messages_name_the_failure() {
    assert_eq!(Error::NoReleasesFound.message(), "no releases found");
    assert_eq!(
        Error::FetchIncomplete("reset".to_string()).message(),
        "content stream ended early: reset"
    );
    assert_eq!(
        Error::OutputExists("x.wasm".to_string()).message(),
        "output path already exists: x.wasm"
    );
    assert_eq!(
        Error::DecodeError("bad magic".to_string()).message(),
        "failed to decode package content: bad magic"
    );
    let e = match PackageSpec::parse("nope") {
        Err(e) => e,
        Ok(_) => panic!("expected failure"),
    };
    assert_eq!(e.message(), "invalid package reference: missing expected ':'");
}
