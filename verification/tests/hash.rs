use sha2::Digest;
use vite_plus::hash::{
    compare_digest, digest, encode_digest, parse_expected_hash, verify_hash, HashAlgorithm,
    HashError,
};

#[test]
fn test_verify_file_hash_sha1() {
    let content = b"Hello, World!";
    let mut hasher = sha1::Sha1::new();
    hasher.update(content);
    let expected_hash = format!("sha1.{:x}", hasher.finalize());

    assert!(verify_hash(content, &expected_hash).is_ok());

    let wrong_hash = "sha1.0000000000000000000000000000000000000000";
    assert!(verify_hash(content, wrong_hash).is_err());
}

#[test]
fn test_verify_file_hash_sri() {
    let content = b"Hello, World!";
    let digest = sha2::Sha512::digest(content);
    let expected_sri = format!("sha512-{}", base64_simd::STANDARD.encode_to_string(digest));

    let result = verify_hash(content, &expected_sri);
    assert!(result.is_ok(), "{result:?}");

    let wrong_sri = format!("sha512-{}", base64_simd::STANDARD.encode_to_string([0u8; 64]));
    let result = verify_hash(content, &wrong_sri);
    assert!(matches!(result, Err(HashError::Mismatch { .. })), "{result:?}");
}

#[test]
fn test_verify_file_hash_sha224() {
    let content = b"Test content for SHA224";
    let mut hasher = sha2::Sha224::new();
    hasher.update(content);
    let expected_hash = format!("sha224.{:x}", hasher.finalize());

    assert!(verify_hash(content, &expected_hash).is_ok());

    let wrong_hash = "sha224.00000000000000000000000000000000000000000000000000000000";
    assert!(verify_hash(content, wrong_hash).is_err());
}

#[test]
fn known_digests_match_their_pins() {
    assert!(verify_hash(b"Hello, World!", "sha1.0a0a9f2a6772942557ab5355d76af442f8f65e01").is_ok());
    assert!(verify_hash(
        b"abc",
        "sha256.ba7816bf8f01cfea414140de5dae2223b00361a396177a9cb410ff61f20015ad"
    )
    .is_ok());
    assert!(verify_hash(b"abc", "sha256-ungWv48Bz+pBQUDeXa4iI7ADYaOWF3qctBD/YfIAFa0=").is_ok());
}

#[test]
fn a_mismatch_reports_the_actual_hash_in_the_pins_form() {
    match verify_hash(b"abc", "sha256.00") {
        Err(HashError::Mismatch { expected, actual }) => {
            assert_eq!(expected, "sha256.00");
            assert_eq!(
                actual,
                "sha256.ba7816bf8f01cfea414140de5dae2223b00361a396177a9cb410ff61f20015ad"
            );
        }
        other => panic!("expected a mismatch, got {other:?}"),
    }
}

#[test]
fn malformed_and_unsupported_pins_are_refused() {
    assert_eq!(
        verify_hash(b"x", "sha256"),
        Err(HashError::InvalidFormat("sha256".to_string()))
    );
    assert_eq!(verify_hash(b"x", "md5.abcd"), Err(HashError::Unsupported("md5".to_string())));
    assert_eq!(verify_hash(b"x", "SHA1-abcd"), Err(HashError::Unsupported("SHA1".to_string())));
}

#[test]
fn the_first_dot_wins_over_a_dash() {
    let parsed = parse_expected_hash("sha1-x.y").map_err(|e| format!("{e:?}"));
    assert_eq!(parsed.unwrap_err(), "Unsupported(\"sha1-x\")");
    let parsed = parse_expected_hash("sha512-ab.c").unwrap_err();
    assert_eq!(parsed, HashError::Unsupported("sha512-ab".to_string()));
    let parsed = parse_expected_hash("sha512-abc").unwrap();
    assert_eq!(parsed.algorithm, HashAlgorithm::Sha512);
    assert_eq!(parsed.separator, '-');
    assert_eq!(parsed.encoded, "abc");
}

#[test]
fn digests_and_their_encodings() {
    assert_eq!(
        encode_digest('.', &digest(HashAlgorithm::Sha256, b"abc")),
        "ba7816bf8f01cfea414140de5dae2223b00361a396177a9cb410ff61f20015ad"
    );
    assert_eq!(digest(HashAlgorithm::Sha1, b"").len(), 20);
    assert_eq!(digest(HashAlgorithm::Sha224, b"").len(), 28);
    assert_eq!(digest(HashAlgorithm::Sha512, b"").len(), 64);
    assert_eq!(encode_digest('.', &[0xde, 0xad, 0x0f]), "dead0f");
    assert_eq!(encode_digest('-', &[0, 0, 0]), "AAAA");
    assert_eq!(encode_digest('-', &[0xff]), "/w==");
}

#[test]
fn comparing_an_equal_digest_succeeds() {
    let expected = parse_expected_hash("sha1.abc").unwrap();
    assert!(compare_digest("sha1.abc", &expected, "abc").is_ok());
    assert_eq!(
        compare_digest("sha1.abc", &expected, "abd"),
        Err(HashError::Mismatch { expected: "sha1.abc".to_string(), actual: "sha1.abd".to_string() })
    );
}

#[test]
fn own_digest_pin_verifies_in_both_forms() {
    let data = b"vite-plus";
    for (name, algorithm) in [
        ("sha512", HashAlgorithm::Sha512),
        ("sha256", HashAlgorithm::Sha256),
        ("sha224", HashAlgorithm::Sha224),
        ("sha1", HashAlgorithm::Sha1),
    ] {
        let d = digest(algorithm, data);
        for separator in ['.', '-'] {
            let pin = format!("{name}{separator}{}", encode_digest(separator, &d));
            assert_eq!(verify_hash(data, &pin), Ok(()), "{pin}");
        }
    }
}
