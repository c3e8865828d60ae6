use proto_core::checksum::{
    algorithm_from_contents, algorithm_from_file_name, detect_checksum_algorithm, extension,
    generate_checksum, verify_checksum, verify_minisign_checksum, verify_sha_checksum, Checksum,
    ChecksumAlgorithm, LockfileChecksum, ProtoChecksumError,
};

const HELLO_SHA256: &str = "2cf24dba5fb0a30e26e83b2ac5b9e29e1b161e5c1fa7425e73043362938b9824";
const HELLO_SHA512: &str = "9b71d224bd62f3785d96d46ad3ea3d73319bfbc2890caadae2dff72519673ca72323c3d99ba5c11d7c7acc6e14b8c5da0c4663475c2e5c3adef46f73bcdec043";

#[test]
fn lockfile_checksum_reads_its_type() {
    match LockfileChecksum::from_str("sha256:abc") {
        Ok(LockfileChecksum::Sha256(h)) => assert_eq!(h, "abc"),
        _ => panic!("expected sha256"),
    }
    match LockfileChecksum::from_str("minisign:RWQ:x") {
        Ok(LockfileChecksum::Minisign(h)) => assert_eq!(h, "RWQ:x"),
        _ => panic!("expected minisign"),
    }
}

#[test]
fn lockfile_checksum_errors() {
    assert!(matches!(
        LockfileChecksum::from_str("abc"),
        Err(ProtoChecksumError::MissingChecksumType)
    ));
    match LockfileChecksum::from_str("md5:abc") {
        Err(ProtoChecksumError::UnknownChecksumType { kind }) => assert_eq!(kind, "md5"),
        _ => panic!("expected an unknown type"),
    }
}

#[test]
fn lockfile_checksum_round_trips() {
    for text in ["sha256:abc", "minisign:key", "sha256:"] {
        assert_eq!(LockfileChecksum::from_str(text).ok().unwrap().to_string(), text);
    }
    assert_eq!(LockfileChecksum::Sha256("ff".into()).to_string(), "sha256:ff");
}

#[test]
fn extensions_follow_path_rules() {
    assert_eq!(extension("file.tar.gz"), Some("gz".to_owned()));
    assert_eq!(extension(".bashrc"), None);
    assert_eq!(extension("file"), None);
    assert_eq!(extension("file."), Some(String::new()));
    assert_eq!(extension(".."), None);
}

#[test]
fn algorithm_from_names() {
    assert_eq!(algorithm_from_file_name("tool.tar.gz.sha256"), Some(ChecksumAlgorithm::Sha256));
    assert_eq!(algorithm_from_file_name("tool.sha256sum"), Some(ChecksumAlgorithm::Sha256));
    assert_eq!(algorithm_from_file_name("tool.sha512"), Some(ChecksumAlgorithm::Sha512));
    assert_eq!(algorithm_from_file_name("tool.sha512sum"), Some(ChecksumAlgorithm::Sha512));
    assert_eq!(algorithm_from_file_name("tool.minisig"), Some(ChecksumAlgorithm::Minisign));
    assert_eq!(algorithm_from_file_name("tool.minisign"), Some(ChecksumAlgorithm::Minisign));
    assert_eq!(algorithm_from_file_name("SHASUMS256.txt"), Some(ChecksumAlgorithm::Sha256));
    assert_eq!(algorithm_from_file_name("ShaSums512.TXT"), Some(ChecksumAlgorithm::Sha512));
    assert_eq!(algorithm_from_file_name("checksums.txt"), None);
}

#[test]
fn algorithm_from_file_contents() {
    let sha256_line = format!("{HELLO_SHA256}  tool.tar.gz\n");
    let sha512_line = format!("{HELLO_SHA512}  tool.tar.gz\n");
    assert_eq!(algorithm_from_contents(&sha256_line).ok().unwrap(), Some(ChecksumAlgorithm::Sha256));
    assert_eq!(algorithm_from_contents(&sha512_line).ok().unwrap(), Some(ChecksumAlgorithm::Sha512));
    assert_eq!(algorithm_from_contents("abc  tool\n").ok().unwrap(), None);
    assert_eq!(algorithm_from_contents("").ok().unwrap(), None);
    assert_eq!(
        algorithm_from_contents("\nAlgorithm : SHA512\nHash : ABC\n").ok().unwrap(),
        Some(ChecksumAlgorithm::Sha512)
    );
    match algorithm_from_contents("Algorithm : MD5\n") {
        Err(ProtoChecksumError::UnsupportedAlgorithm { algo }) => assert_eq!(algo, "MD5"),
        _ => panic!("expected an unsupported algorithm"),
    }
}

#[test]
fn detection_prefers_the_file_name() {
    assert_eq!(
        detect_checksum_algorithm("tool.sha512", "/tmp/tool.sha512", &format!("{HELLO_SHA256}  x"))
            .ok()
            .unwrap(),
        ChecksumAlgorithm::Sha512
    );
    assert_eq!(
        detect_checksum_algorithm("checksums.txt", "/tmp/checksums.txt", &format!("{HELLO_SHA256}  x"))
            .ok()
            .unwrap(),
        ChecksumAlgorithm::Sha256
    );
    match detect_checksum_algorithm("checksums.txt", "/tmp/checksums.txt", "nothing here") {
        Err(ProtoChecksumError::UnknownAlgorithm { path }) => assert_eq!(path, "/tmp/checksums.txt"),
        _ => panic!("expected an unknown algorithm"),
    }
}

#[test]
fn sha_checksum_lines() {
    assert!(verify_sha_checksum("tool.tar.gz", "abc123  tool.tar.gz\n", "abc123"));
    assert!(verify_sha_checksum("tool.tar.gz", "abc123\n", "abc123"));
    assert!(!verify_sha_checksum("tool.tar.gz", "abc124  tool.tar.gz\n", "abc123"));
    assert!(verify_sha_checksum("tool.zip", "Algorithm : SHA256\nHash : ABC123\n", "abc123"));
    assert!(!verify_sha_checksum("tool.zip", "Hash : ABC124\nabc123\n", "abc123"));
    assert!(!verify_sha_checksum("tool.zip", "", "abc123"));
    assert!(verify_sha_checksum("b.tgz", "fff  a.tgz\nabc  b.tgz\n", "abc"));
}

#[test]
fn generates_sha_digests() {
    let c = generate_checksum(ChecksumAlgorithm::Sha256, b"hello", None).ok().unwrap();
    assert_eq!(c.hash.as_deref(), Some(HELLO_SHA256));
    assert!(c.key.is_none());
    let c = generate_checksum(ChecksumAlgorithm::Sha512, b"hello", None).ok().unwrap();
    assert_eq!(c.hash.as_deref(), Some(HELLO_SHA512));
}

#[test]
fn generates_minisign_checksum_from_key() {
    let c = generate_checksum(ChecksumAlgorithm::Minisign, b"hello", Some("key")).ok().unwrap();
    assert_eq!(c.algo, ChecksumAlgorithm::Minisign);
    assert_eq!(c.key.as_deref(), Some("key"));
    assert!(c.hash.is_none());
    assert!(matches!(
        generate_checksum(ChecksumAlgorithm::Minisign, b"hello", None),
        Err(ProtoChecksumError::MissingPublicKey)
    ));
}

#[test]
fn minisign_refuses_malformed_key() {
    assert!(matches!(
        verify_minisign_checksum(b"hello", "not a signature", "not a key"),
        Err(ProtoChecksumError::Minisign)
    ));
}

#[test]
fn verify_checksum_dispatches_on_algorithm() {
    let checksum = Checksum {
        algo: ChecksumAlgorithm::Sha256,
        hash: Some(HELLO_SHA256.to_owned()),
        key: None,
    };
    let contents = format!("{HELLO_SHA256}  tool.tar.gz\n");
    assert!(verify_checksum("tool.tar.gz", b"hello", &contents, &checksum).ok().unwrap());
    assert!(!verify_checksum("tool.tar.gz", b"hello", "other  tool.tar.gz\n", &checksum).ok().unwrap());

    let checksum = Checksum {
        algo: ChecksumAlgorithm::Minisign,
        hash: None,
        key: Some("not a key".to_owned()),
    };
    assert!(matches!(
        verify_checksum("tool.tar.gz", b"hello", "sig", &checksum),
        Err(ProtoChecksumError::Minisign)
    ));
}
