use edl::util::checksum::{parse_checksum, verify_digest, ChecksumError, ChecksumHasher};

#[test]
fn checksum_strings() {
    let (a, h) = parse_checksum("sha256=ABC123").unwrap();
    assert_eq!(a, "sha256");
    assert_eq!(h, "ABC123");
    let (a, h) = parse_checksum(" md5 = ff ").unwrap();
    assert_eq!(a, "md5");
    assert_eq!(h, "ff");
    assert!(matches!(parse_checksum("sha256"), Err(ChecksumError::InvalidFormat)));
    match parse_checksum("crc32=1234") {
        Err(ChecksumError::UnsupportedAlgorithm(a)) => assert_eq!(a, "crc32"),
        other => panic!("unexpected {:?}", other),
    }
}

fn digest_hex(algo: &str, data: &[u8]) -> String {
    let mut h = ChecksumHasher::new(algo).unwrap();
    h.update(data);
    h.finalize_hex()
}

#[test]
fn known_digests() {
    assert_eq!(digest_hex("sha256", b"abc"), "ba7816bf8f01cfea414140de5dae2223b00361a396177a9cb410ff61f20015ad");
    assert_eq!(digest_hex("sha1", b"abc"), "a9993e364706816aba3e25717850c26c9cd0d89d");
    assert_eq!(digest_hex("md5", b"abc"), "900150983cd24fb0d6963f7d28e17f72");
    assert_eq!(digest_hex("md5", b""), "d41d8cd98f00b204e9800998ecf8427e");
}

#[test]
fn digest_in_pieces_equals_digest_at_once() {
    let mut h = ChecksumHasher::new("sha256").unwrap();
    h.update(b"a");
    h.update(b"bc");
    assert_eq!(h.finalize_hex(), digest_hex("sha256", b"abc"));
}

#[test]
fn unknown_algorithm_has_no_hasher() {
    assert!(matches!(ChecksumHasher::new("crc32"), Err(ChecksumError::UnsupportedAlgorithm(_))));
}

#[test]
fn digest_comparison_ignores_case() {
    assert!(verify_digest("md5", "900150983cd24fb0d6963f7d28e17f72", "900150983CD24FB0D6963F7D28E17F72").is_ok());
    match verify_digest("md5", "00", "01") {
        Err(ChecksumError::Mismatch { algo, expected, actual }) => {
            assert_eq!(algo, "md5");
            assert_eq!(expected, "01");
            assert_eq!(actual, "00");
        }
        other => panic!("unexpected {:?}", other),
    }
}
