use fixture_pipeline::fingerprint::fingerprint;
use fixture_pipeline::fingerprint::hex_bytes;
use fixture_pipeline::fingerprint::pipeline_salt;

/// The fingerprint must be the lowercase hex of the salted digest
/// that the outside hash library computes; a wrapper that handed its
/// input back unchanged would fail this.
#[test]
fn fingerprint_matches_external_digest() {
    let data: Vec<u8> = b"(module)".to_vec();
    let mut hasher = twox_hash::XxHash32::default();
    std::hash::Hasher::write(&mut hasher, &data);
    std::hash::Hasher::write(&mut hasher, &pipeline_salt());
    let expected = format!("{:x}", std::hash::Hasher::finish(&hasher)).into_bytes();
    assert_eq!(fingerprint(&data), expected);
}

#[test]
fn fingerprint_deterministic_across_calls() {
    let data: Vec<u8> = b"some source text".to_vec();
    let first = fingerprint(&data);
    let second = fingerprint(&data.clone());
    assert_eq!(first, second);
}

#[test]
fn fingerprint_changes_with_content() {
    let a = fingerprint(&b"alpha".to_vec());
    let b = fingerprint(&b"alphb".to_vec());
    assert_ne!(a, b);
}

#[test]
fn fingerprint_of_empty_input_is_salted() {
    // Even empty content fingerprints to the digest of the salt
    // alone, not to an empty string.
    let fp = fingerprint(&Vec::new());
    assert!(!fp.is_empty());
    let mut hasher = twox_hash::XxHash32::default();
    std::hash::Hasher::write(&mut hasher, &pipeline_salt());
    let expected = format!("{:x}", std::hash::Hasher::finish(&hasher)).into_bytes();
    assert_eq!(fp, expected);
}

#[test]
fn hex_rendering_is_minimal_lowercase() {
    assert_eq!(hex_bytes(0), b"0".to_vec());
    assert_eq!(hex_bytes(10), b"a".to_vec());
    assert_eq!(hex_bytes(0x1A2B3C), b"1a2b3c".to_vec());
    assert_eq!(hex_bytes(u64::MAX), b"ffffffffffffffff".to_vec());
}
