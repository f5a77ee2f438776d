use wkg::package::PackageRef;
use wkg::publish::{check_overwrite, final_output_path, output_is_directory};
use wkg::version::parse_version;
use wkg::Error;

#[test]
fn directory_mode_synthesizes_name() {
    let pkg = PackageRef::parse("wasi:cli").unwrap();
    let ver = parse_version("0.2.0").unwrap();
    assert_eq!(final_output_path("out/", &pkg, &ver, true), "out/wasi_cli@0.2.0.wit");
    assert_eq!(final_output_path("out/", &pkg, &ver, false), "out/wasi_cli@0.2.0.wasm");
}

#[test]
fn prerelease_version_in_synthesized_name() {
    let pkg = PackageRef::parse("wasi:http").unwrap();
    let ver = parse_version("0.2.0-rc.1").unwrap();
    assert_eq!(
        final_output_path("./", &pkg, &ver, false),
        "./wasi_http@0.2.0-rc.1.wasm"
    );
}

#[test]
fn explicit_path_is_verbatim() {
    let pkg = PackageRef::parse("wasi:cli").unwrap();
    let ver = parse_version("0.2.0").unwrap();
    assert_eq!(final_output_path("artifact.bin", &pkg, &ver, false), "artifact.bin");
    assert!(!output_is_directory("artifact.bin"));
    assert!(output_is_directory("out/"));
    assert!(!output_is_directory(""));
}

#[test]
fn overwrite_rule() {
    assert!(matches!(
        check_overwrite("x.wasm", true, false),
        Err(Error::OutputExists(p)) if p == "x.wasm"
    ));
    assert!(check_overwrite("x.wasm", true, true).is_ok());
    assert!(check_overwrite("x.wasm", false, false).is_ok());
}
