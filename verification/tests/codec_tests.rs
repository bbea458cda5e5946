use fixture_pipeline::errors::PipelineError;
use fixture_pipeline::leb128::decode_leb128;
use fixture_pipeline::leb128::leb128_bytes;
use fixture_pipeline::postprocess::post_process_module;

fn header() -> Vec<u8> {
    vec![0x00, 0x61, 0x73, 0x6D, 0x01, 0x00, 0x00, 0x00]
}

fn section(id: u8, payload: &[u8]) -> Vec<u8> {
    assert!(payload.len() < 0x80);
    let mut s = vec![id, payload.len() as u8];
    s.extend_from_slice(payload);
    s
}

fn export_entry(name: &[u8], kind: u8, index: u8) -> Vec<u8> {
    assert!(name.len() < 0x80 && index < 0x80);
    let mut e = vec![name.len() as u8];
    e.extend_from_slice(name);
    e.push(kind);
    e.push(index);
    e
}

#[test]
fn leb128_encodes_canonically() {
    assert_eq!(leb128_bytes(0), vec![0x00]);
    assert_eq!(leb128_bytes(127), vec![0x7F]);
    assert_eq!(leb128_bytes(128), vec![0x80, 0x01]);
    assert_eq!(leb128_bytes(624_485), vec![0xE5, 0x8E, 0x26]);
}

#[test]
fn leb128_decode_inverts_encode() {
    for n in [0u64, 1, 127, 128, 300, 624_485, 0xFFFF_FFFF] {
        let enc = leb128_bytes(n);
        let len = enc.len();
        assert_eq!(decode_leb128(&enc, 0), Some((n, len)));
    }
}

#[test]
fn leb128_decode_rejects_padding() {
    // 0x80 0x00 would also denote zero, but only the one-byte form
    // is canonical.
    assert_eq!(decode_leb128(&vec![0x80, 0x00], 0), None);
}

#[test]
fn leb128_decode_rejects_truncation() {
    assert_eq!(decode_leb128(&vec![0x80], 0), None);
    assert_eq!(decode_leb128(&Vec::new(), 0), None);
}

#[test]
fn leb128_decode_rejects_oversized_values() {
    // 2^32 needs more than 32 bits.
    let enc = vec![0x80, 0x80, 0x80, 0x80, 0x10];
    assert_eq!(decode_leb128(&enc, 0), None);
}

#[test]
fn post_process_keeps_only_sanctioned_function_exports() {
    let mut exports = vec![4u8];
    exports.extend_from_slice(&export_entry(b"call", 0, 1));
    exports.extend_from_slice(&export_entry(b"foo", 0, 9));
    exports.extend_from_slice(&export_entry(b"deploy", 0, 2));
    exports.extend_from_slice(&export_entry(b"mem", 2, 0));

    let mut module = header();
    module.extend_from_slice(&section(1, &[0xAA, 0xBB, 0xCC]));
    module.extend_from_slice(&section(7, &exports));
    module.extend_from_slice(&section(10, &[0x00]));

    let mut kept = vec![2u8];
    kept.extend_from_slice(&export_entry(b"call", 0, 1));
    kept.extend_from_slice(&export_entry(b"deploy", 0, 2));

    let mut expected = header();
    expected.extend_from_slice(&section(1, &[0xAA, 0xBB, 0xCC]));
    expected.extend_from_slice(&section(7, &kept));
    expected.extend_from_slice(&section(10, &[0x00]));

    assert_eq!(post_process_module(&module), Ok(expected));
}

#[test]
fn post_process_drops_sanctioned_names_of_other_kinds() {
    // A global named "call" is not a function export and must go.
    let mut exports = vec![1u8];
    exports.extend_from_slice(&export_entry(b"call", 3, 0));

    let mut module = header();
    module.extend_from_slice(&section(7, &exports));

    let mut expected = header();
    expected.extend_from_slice(&section(7, &[0x00]));

    assert_eq!(post_process_module(&module), Ok(expected));
}

#[test]
fn post_process_without_export_section_is_identity() {
    let mut module = header();
    module.extend_from_slice(&section(1, &[0x60]));
    module.extend_from_slice(&section(10, &[0x01, 0x02]));
    assert_eq!(post_process_module(&module), Ok(module.clone()));
}

#[test]
fn post_process_of_bare_header_is_identity() {
    let module = header();
    assert_eq!(post_process_module(&module), Ok(module.clone()));
}

#[test]
fn post_process_rejects_bad_magic() {
    let mut module = header();
    module[0] = 0x01;
    assert_eq!(post_process_module(&module), Err(PipelineError::PostProcess));
}

#[test]
fn post_process_rejects_truncated_module() {
    let module = vec![0x00, 0x61, 0x73, 0x6D];
    assert_eq!(post_process_module(&module), Err(PipelineError::PostProcess));

    let mut truncated_section = header();
    truncated_section.extend_from_slice(&[0x01, 0x05, 0xAA]);
    assert_eq!(
        post_process_module(&truncated_section),
        Err(PipelineError::PostProcess)
    );
}

#[test]
fn post_process_rejects_malformed_export_payload() {
    // Count says two entries, but only one follows.
    let mut exports = vec![2u8];
    exports.extend_from_slice(&export_entry(b"call", 0, 1));
    let mut module = header();
    module.extend_from_slice(&section(7, &exports));
    assert_eq!(post_process_module(&module), Err(PipelineError::PostProcess));
}

#[test]
fn post_process_rejects_trailing_export_bytes() {
    let mut exports = vec![1u8];
    exports.extend_from_slice(&export_entry(b"call", 0, 1));
    exports.push(0x00);
    let mut module = header();
    module.extend_from_slice(&section(7, &exports));
    assert_eq!(post_process_module(&module), Err(PipelineError::PostProcess));
}

#[test]
fn post_process_rejects_unknown_export_kind() {
    let mut exports = vec![1u8];
    exports.extend_from_slice(&export_entry(b"call", 4, 1));
    let mut module = header();
    module.extend_from_slice(&section(7, &exports));
    assert_eq!(post_process_module(&module), Err(PipelineError::PostProcess));
}
