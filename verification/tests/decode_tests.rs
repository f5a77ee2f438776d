use wit_parser::Resolve;
use wkg::format::{apply_decode_outcome, DecodeOutcome, Format};
use wkg::Error;

// mirrors the decode step the front end performs around the library
fn outcome_of(bytes: &[u8]) -> DecodeOutcome {
    match wit_component::decode(bytes) {
        Ok(wit_component::DecodedWasm::WitPackage(resolve, pkg)) => {
            let mut printer = wit_component::WitPrinter::default();
            match printer.print(&resolve, pkg, &[]) {
                Ok(()) => DecodeOutcome::InterfaceText(String::from(printer.output)),
                Err(e) => DecodeOutcome::Failed(format!("{e:#}")),
            }
        }
        Ok(_) => DecodeOutcome::OtherArtifact,
        Err(e) => DecodeOutcome::Failed(format!("{e:#}")),
    }
}

fn interface_package_bytes() -> Vec<u8> {
    let mut resolve = Resolve::default();
    let pkg = resolve
        .push_str("demo.wit", "package demo:example;\n\nworld w {\n}\n")
        .unwrap();
    wit_component::encode(&resolve, pkg, false).unwrap()
}

#[test]
fn interface_package_decodes_to_text() {
    let outcome = outcome_of(&interface_package_bytes());
    match &outcome {
        DecodeOutcome::InterfaceText(t) => assert!(t.contains("package demo:example"), "{t}"),
        _ => panic!("expected an interface package"),
    }
    let text = apply_decode_outcome(Format::Auto, outcome).unwrap();
    assert!(text.unwrap().contains("package demo:example"));
}

#[test]
fn garbage_decode_degrades_or_fails() {
    // the real decoder rejects bytes that are not WebAssembly
    let outcome = outcome_of(b"not a wasm binary");
    assert!(matches!(&outcome, DecodeOutcome::Failed(m) if !m.is_empty()));
    match outcome_of(b"not a wasm binary") {
        o @ DecodeOutcome::Failed(_) => {
            assert!(matches!(
                apply_decode_outcome(Format::Wit, o),
                Err(Error::DecodeError(_))
            ));
        }
        _ => panic!("expected a decode failure"),
    }
    match outcome_of(b"not a wasm binary") {
        o @ DecodeOutcome::Failed(_) => {
            assert!(matches!(apply_decode_outcome(Format::Auto, o), Ok(None)));
        }
        _ => panic!("expected a decode failure"),
    }
}
