use radegast_rustinel_updater::checksum::{find_expected_hash, verify, ChecksumError};
use radegast_rustinel_updater::platform::Platform;
use sha2::{Digest, Sha256};

#[test]
fn test_checksum_verify_match_and_mismatch() {
    let platform = Platform {
        os: "linux",
        arch: "amd64",
    };
    let content: &[u8] = b"test binary content";

    let correct_hash = hex::encode(Sha256::digest(b"test binary content"));
    let checksums = format!("{correct_hash}  linux-amd64.zip\n");

    assert!(verify(content, &checksums, &platform).is_ok());

    let wrong_checksums = "1111111111111111111111111111111111111111111111111111111111111111  linux-amd64.zip\n";
    assert!(verify(content, wrong_checksums, &platform).is_err());

    let missing_platform = "1111111111111111111111111111111111111111111111111111111111111111  windows-amd64.zip\n";
    assert!(verify(content, missing_platform, &platform).is_err());
}

#[test]
fn verify_uses_lower_case_hex_sha256() {
    let platform = Platform { os: "mac", arch: "m5" };
    // SHA-256 of "abc".
    let abc = "ba7816bf8f01cfea414140de5dae2223b00361a396177a9cb410ff61f20015ad";
    assert_eq!(verify(b"abc", &format!("{abc} mac-m5.zip"), &platform), Ok(()));
    assert_eq!(
        verify(b"abc", &format!("{} mac-m5.zip", abc.to_uppercase()), &platform),
        Err(ChecksumError::Mismatch {
            archive: "mac-m5.zip".to_string(),
            expected: abc.to_uppercase(),
            actual: abc.to_string(),
        })
    );
    // SHA-256 of the empty input.
    let empty = "e3b0c44298fc1c149afbf4c8996fb92427ae41e4649b934ca495991b7852b855";
    assert_eq!(verify(b"", &format!("{empty}\tmac-m5.zip\n"), &platform), Ok(()));
    assert_eq!(
        verify(b"", "", &platform),
        Err(ChecksumError::NoChecksum { archive: "mac-m5.zip".to_string() })
    );
}

#[test]
fn expected_hash_comes_from_the_first_matching_line() {
    let list = "\n  aaa  linux-arm64.zip\nbbb linux-amd64.zip extra\r\nccc linux-amd64.zip\n";
    assert_eq!(find_expected_hash(list, "linux-amd64.zip"), Some("bbb".to_string()));
    assert_eq!(find_expected_hash(list, "linux-arm64.zip"), Some("aaa".to_string()));
    assert_eq!(find_expected_hash(list, "mac-m5.zip"), None);
    // The name must be the whole second word.
    assert_eq!(find_expected_hash("ddd xlinux-amd64.zip", "linux-amd64.zip"), None);
    assert_eq!(find_expected_hash("linux-amd64.zip", "linux-amd64.zip"), None);
}
