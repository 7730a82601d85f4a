use recite_core::model::fingerprint::{
    canonical_blake3_fingerprint, producer_content_fingerprint, producer_content_fingerprint_detailed,
    ContentFingerprint, ContentFingerprintError, ProducerContentFingerprintError,
};
use recite_core::model::producer::{
    compare_producer_fingerprints, duplicate_fingerprint_keys, ProducerFingerprint,
    ProducerFingerprintMismatch, ProducerFreshness,
};
use recite_core::manifest::lower::producer::lower_producer_fingerprints;
use recite_core::manifest::raw::RawProducerFingerprint;
use recite_core::manifest::spans::{ManifestSourceFormat, ManifestSpans};
use recite_core::model::producer_validation::{is_json_number_lexeme, is_namespaced_extension_key};

fn fp(kind: &str, id: &str, value: &str) -> ProducerFingerprint {
    ProducerFingerprint {
        id: id.to_string(),
        kind: kind.to_string(),
        algorithm: "blake3".to_string(),
        value: value.to_string(),
    }
}

#[test]
fn comparing_fingerprints_with_themselves_is_fresh() {
    let fps = vec![fp("file", "a.txt", "01"), fp("file", "b.txt", "02"), fp("db", "x", "03")];
    assert_eq!(compare_producer_fingerprints(&fps, &fps), ProducerFreshness::Fresh);
    assert_eq!(compare_producer_fingerprints(&[], &[]), ProducerFreshness::Fresh);
}

#[test]
fn fingerprint_order_does_not_matter() {
    let a = vec![fp("file", "a.txt", "01"), fp("file", "b.txt", "02")];
    let b = vec![fp("file", "b.txt", "02"), fp("file", "a.txt", "01")];
    assert_eq!(compare_producer_fingerprints(&a, &b), ProducerFreshness::Fresh);
}

#[test]
fn reordering_repeated_fingerprints_gives_the_same_outcome() {
    let e1 = vec![fp("file", "a", "1"), fp("db", "x", "3"), fp("file", "a", "2")];
    let e2 = vec![fp("file", "a", "2"), fp("file", "a", "1"), fp("db", "x", "3")];
    let a1 = vec![fp("db", "x", "3"), fp("db", "x", "4")];
    let a2 = vec![fp("db", "x", "4"), fp("db", "x", "3")];
    let r1 = compare_producer_fingerprints(&e1, &a1);
    assert_eq!(r1, compare_producer_fingerprints(&e2, &a2));
    assert!(matches!(r1, ProducerFreshness::Invalid { .. }));
}

#[test]
fn missing_fingerprints_are_reported_in_key_order() {
    let expected = vec![fp("file", "b.txt", "02"), fp("file", "a.txt", "01"), fp("db", "x", "03")];
    let actual = vec![fp("file", "a.txt", "01")];
    assert_eq!(
        compare_producer_fingerprints(&expected, &actual),
        ProducerFreshness::Missing { expected: vec![fp("db", "x", "03"), fp("file", "b.txt", "02")] }
    );
}

#[test]
fn unexpected_fingerprints_are_reported() {
    let expected = vec![fp("file", "a.txt", "01")];
    let actual = vec![fp("file", "a.txt", "01"), fp("file", "c.txt", "09")];
    assert_eq!(
        compare_producer_fingerprints(&expected, &actual),
        ProducerFreshness::Unexpected { actual: vec![fp("file", "c.txt", "09")] }
    );
}

#[test]
fn changed_fingerprints_are_reported_as_mismatches() {
    let expected = vec![fp("file", "a.txt", "01")];
    let actual = vec![fp("file", "a.txt", "ff")];
    assert_eq!(
        compare_producer_fingerprints(&expected, &actual),
        ProducerFreshness::Mismatch {
            entries: vec![ProducerFingerprintMismatch {
                expected: fp("file", "a.txt", "01"),
                actual: fp("file", "a.txt", "ff"),
            }],
        }
    );
}

#[test]
fn several_kinds_of_change_are_mixed() {
    let expected = vec![fp("file", "a.txt", "01"), fp("file", "b.txt", "02")];
    let actual = vec![fp("file", "a.txt", "ff"), fp("file", "c.txt", "03")];
    assert_eq!(
        compare_producer_fingerprints(&expected, &actual),
        ProducerFreshness::Mixed {
            missing: vec![fp("file", "b.txt", "02")],
            mismatched: vec![ProducerFingerprintMismatch {
                expected: fp("file", "a.txt", "01"),
                actual: fp("file", "a.txt", "ff"),
            }],
            unexpected: vec![fp("file", "c.txt", "03")],
        }
    );
}

#[test]
fn swapping_sides_swaps_missing_and_unexpected() {
    let a = vec![fp("file", "a.txt", "01"), fp("file", "b.txt", "02")];
    let b = vec![fp("file", "a.txt", "01"), fp("file", "c.txt", "03")];
    match (compare_producer_fingerprints(&a, &b), compare_producer_fingerprints(&b, &a)) {
        (
            ProducerFreshness::Mixed { missing: m1, mismatched: x1, unexpected: u1 },
            ProducerFreshness::Mixed { missing: m2, mismatched: x2, unexpected: u2 },
        ) => {
            assert_eq!(m1, u2);
            assert_eq!(u1, m2);
            assert!(x1.is_empty() && x2.is_empty());
        }
        other => panic!("unexpected outcome {other:?}"),
    }
}

#[test]
fn repeated_keys_make_the_comparison_invalid() {
    let expected = vec![fp("file", "a.txt", "01"), fp("file", "a.txt", "02"), fp("db", "x", "1")];
    let actual = vec![fp("db", "x", "1")];
    assert_eq!(
        duplicate_fingerprint_keys(&expected),
        vec![("file".to_string(), "a.txt".to_string())]
    );
    assert_eq!(
        compare_producer_fingerprints(&expected, &actual),
        ProducerFreshness::Invalid {
            expected_duplicates: vec![("file".to_string(), "a.txt".to_string())],
            actual_duplicates: vec![],
        }
    );
    assert!(matches!(
        compare_producer_fingerprints(&expected, &expected),
        ProducerFreshness::Invalid { .. }
    ));
}

#[test]
fn content_fingerprint_construction_errors() {
    assert_eq!(
        ContentFingerprint::new(String::new(), vec![1]).unwrap_err(),
        ContentFingerprintError::EmptyAlgorithm
    );
    assert_eq!(
        ContentFingerprint::new("sha".to_string(), vec![]).unwrap_err(),
        ContentFingerprintError::EmptyDigest
    );
    assert_eq!(
        ContentFingerprint::new("blake3".to_string(), vec![0; 31]).unwrap_err(),
        ContentFingerprintError::InvalidFingerprintDigestLength { expected: 32, actual: 31 }
    );
    let ok = ContentFingerprint::new("sha".to_string(), vec![7, 8]).unwrap();
    assert_eq!(ok.algorithm(), "sha");
    assert_eq!(ok.digest(), &[7, 8]);
}

#[test]
fn blake3_fingerprint_of_known_input() {
    let f = canonical_blake3_fingerprint(b"");
    assert_eq!(f.algorithm(), "blake3");
    let hex: String = f.digest().iter().map(|b| format!("{b:02x}")).collect();
    assert_eq!(hex, "af1349b9f5f9a1a6a0404dea36dcc9499bcb25c9adc112b7cc9a93cae41f3262");
    let g = canonical_blake3_fingerprint(b"abc");
    assert!(!f.same(&g));
    assert!(g.same(&canonical_blake3_fingerprint(b"abc")));
}

#[test]
fn producer_content_fingerprints_decode_hex_for_blake3() {
    let hex = "af1349b9f5f9a1a6a0404dea36dcc9499bcb25c9adc112b7cc9a93cae41f3262";
    let f = producer_content_fingerprint("blake3".to_string(), hex).unwrap();
    assert!(f.same(&canonical_blake3_fingerprint(b"")));
    let other = producer_content_fingerprint("sha".to_string(), "ab").unwrap();
    assert_eq!(other.digest(), b"ab");
}

#[test]
fn producer_content_fingerprint_errors() {
    assert_eq!(
        producer_content_fingerprint_detailed(String::new(), "ab").unwrap_err(),
        ProducerContentFingerprintError::EmptyAlgorithm
    );
    assert_eq!(
        producer_content_fingerprint_detailed("blake3".to_string(), "abc").unwrap_err(),
        ProducerContentFingerprintError::Blake3HexShape
    );
    assert_eq!(
        producer_content_fingerprint_detailed("blake3".to_string(), "zz").unwrap_err(),
        ProducerContentFingerprintError::Blake3HexData
    );
    assert_eq!(
        producer_content_fingerprint_detailed("blake3".to_string(), "").unwrap_err(),
        ProducerContentFingerprintError::EmptyDigest
    );
    assert_eq!(
        producer_content_fingerprint_detailed("blake3".to_string(), "abcd").unwrap_err(),
        ProducerContentFingerprintError::Blake3DigestLength { actual: 2 }
    );
    assert_eq!(
        producer_content_fingerprint("blake3".to_string(), "abcd").unwrap_err(),
        "blake3 fingerprint digest must be 32 bytes, got 2"
    );
    assert_eq!(
        producer_content_fingerprint("blake3".to_string(), "abc").unwrap_err(),
        "blake3 producer fingerprint must be even-length hex"
    );
    assert_eq!(
        ProducerContentFingerprintError::EmptyDigest.message(),
        "FingerprintDigest must not be empty"
    );
}

#[test]
fn json_number_lexemes_are_canonical_spellings() {
    for ok in ["0", "1", "-2", "1.5", "-0.5", "10", "1.50", "1e+5", "2e-3"] {
        assert!(is_json_number_lexeme(ok), "{ok}");
    }
    for bad in ["", "-", "01", "+1", "1.", ".5", "NaN", "-0", "-0.00", "-0.0e1", "1e5", "2E-3", "abc", "1e", "1e+"] {
        assert!(!is_json_number_lexeme(bad), "{bad}");
    }
}

#[test]
fn extension_keys_are_namespaced() {
    assert!(is_namespaced_extension_key("unity:asset_guid"));
    assert!(!is_namespaced_extension_key("asset_guid"));
    assert!(!is_namespaced_extension_key(":x"));
    assert!(!is_namespaced_extension_key("a:b:c"));
}

fn raw_fp(kind: &str, id: &str, value: &str) -> RawProducerFingerprint {
    RawProducerFingerprint {
        id: id.to_string(),
        kind: kind.to_string(),
        algorithm: "blake3".to_string(),
        value: value.to_string(),
    }
}

#[test]
fn allowing_repeats_drops_only_the_repeat_reports() {
    let source: Vec<char> = "{}".chars().collect();
    let raw = || vec![raw_fp("file", "a", "1"), raw_fp("file", "a", "2"), raw_fp("file", "b", "")];
    let mut strict_spans = ManifestSpans::new_with_format(ManifestSourceFormat::Json);
    let mut strict_diags = Vec::new();
    let strict = lower_producer_fingerprints(
        "m.json", &source, &mut strict_spans, &mut strict_diags, raw(), "manifest", false,
    );
    let mut loose_spans = ManifestSpans::new_with_format(ManifestSourceFormat::Json);
    let mut loose_diags = Vec::new();
    let loose = lower_producer_fingerprints(
        "m.json", &source, &mut loose_spans, &mut loose_diags, raw(), "manifest", true,
    );
    assert_eq!(strict, vec![fp("file", "a", "1")]);
    assert_eq!(loose, vec![fp("file", "a", "1"), fp("file", "a", "2")]);
    let strict_codes: Vec<String> = strict_diags.iter().map(|d| d.code.as_str().to_string()).collect();
    let loose_codes: Vec<String> = loose_diags.iter().map(|d| d.code.as_str().to_string()).collect();
    assert_eq!(strict_codes, vec!["RECITE_SCHEMA003".to_string(), "RECITE_SCHEMA001".to_string()]);
    assert_eq!(loose_codes, vec!["RECITE_SCHEMA001".to_string()]);
}
