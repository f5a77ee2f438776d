use wkg::fetch::assemble_content;
use wkg::format::{
    apply_decode_outcome, decide_format, path_extension, sniff_needed, DecodeOutcome, Format,
};
use wkg::Error;

#[test]
fn assemble_in_order() {
    let chunks = vec![b"ab".to_vec(), b"cd".to_vec()];
    let bytes = assemble_content(&chunks, &None).unwrap();
    assert_eq!(bytes, b"abcd".to_vec());
}

#[test]
fn assemble_empty_stream() {
    let chunks: Vec<Vec<u8>> = vec![];
    let bytes = assemble_content(&chunks, &None).unwrap();
    assert_eq!(bytes.len(), 0);
}

#[test]
fn failed_stream_is_fetch_incomplete() {
    let chunks = vec![b"ab".to_vec()];
    let r = assemble_content(&chunks, &Some("connection reset".to_string()));
    assert!(matches!(r, Err(Error::FetchIncomplete(m)) if m == "connection reset"));
}

#[test]
fn explicit_format_is_honored() {
    assert_eq!(decide_format(Format::Wasm, "out.wit"), Format::Wasm);
    assert_eq!(decide_format(Format::Wit, "out.wasm"), Format::Wit);
}

#[test]
fn auto_adopts_recognized_extension() {
    assert_eq!(decide_format(Format::Auto, "a/b/out.wasm"), Format::Wasm);
    assert_eq!(decide_format(Format::Auto, "out.wit"), Format::Wit);
    assert_eq!(decide_format(Format::Auto, "out.txt"), Format::Auto);
    assert_eq!(decide_format(Format::Auto, "out"), Format::Auto);
    assert_eq!(decide_format(Format::Auto, "out/"), Format::Auto);
    assert_eq!(decide_format(Format::Auto, ".wasm"), Format::Auto);
    assert_eq!(decide_format(Format::Auto, "dir.wit/out"), Format::Auto);
}

#[test]
fn forced_wasm_never_sniffs() {
    assert!(!sniff_needed(Format::Wasm));
    assert!(sniff_needed(Format::Auto));
    assert!(sniff_needed(Format::Wit));
}

#[test]
fn interface_text_is_published_as_text() {
    let text = apply_decode_outcome(
        Format::Auto,
        DecodeOutcome::InterfaceText("package x;".to_string()),
    )
    .unwrap();
    assert_eq!(text.as_deref(), Some("package x;"));
}

#[test]
fn other_artifact_stays_binary() {
    assert!(matches!(
        apply_decode_outcome(Format::Auto, DecodeOutcome::OtherArtifact),
        Ok(None)
    ));
    assert!(matches!(
        apply_decode_outcome(Format::Wit, DecodeOutcome::OtherArtifact),
        Ok(None)
    ));
}

#[test]
fn decode_failure_fatal_only_for_wit() {
    assert!(matches!(
        apply_decode_outcome(Format::Wit, DecodeOutcome::Failed("bad".to_string())),
        Err(Error::DecodeError(_))
    ));
    assert!(matches!(
        apply_decode_outcome(Format::Auto, DecodeOutcome::Failed("bad".to_string())),
        Ok(None)
    ));
}

#[test]
fn path_extension_follows_the_last_segment() {
    assert_eq!(path_extension("a/b.wit").as_deref(), Some("wit"));
    assert_eq!(path_extension("x.tar.gz").as_deref(), Some("gz"));
    assert!(path_extension("a/b").is_none());
    assert!(path_extension(".hidden").is_none());
    assert!(path_extension("dir.d/file").is_none());
}

#[test]
fn trailing_separators_are_ignored_for_extensions() {
    assert_eq!(path_extension("out.wasm/").as_deref(), Some("wasm"));
    assert_eq!(path_extension("out.wasm//").as_deref(), Some("wasm"));
    assert!(path_extension("out/").is_none());
    assert_eq!(decide_format(Format::Auto, "out.wasm/"), Format::Wasm);
    assert_eq!(decide_format(Format::Auto, "a/out.wit/"), Format::Wit);
}
