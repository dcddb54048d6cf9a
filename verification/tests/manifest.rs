use radegast_rustinel_updater::manifest::{
    find_latest_for_platform, lists_archive_exec, manifest_requires_https, retry_action,
    ReleaseEntry, RetryAction,
};
use radegast_rustinel_updater::platform::Platform;

fn chars(s: &str) -> Vec<char> {
    s.chars().collect()
}

#[test]
fn test_find_latest_for_platform() {
    let releases = vec![
        ReleaseEntry {
            version: "1.7.0r1".into(),
            hash_sha256: "hash1  linux-amd64.zip\nhash2  windows-amd64.zip\n".into(),
            sign_gpg: "sig1".into(),
        },
        ReleaseEntry {
            version: "1.7.0".into(),
            hash_sha256: "hash3  linux-amd64.zip\nhash4  mac-m5.zip\n".into(),
            sign_gpg: "sig2".into(),
        },
        ReleaseEntry {
            version: "1.6.0".into(),
            hash_sha256: "hash5  mac-m5.zip\n".into(),
            sign_gpg: "sig3".into(),
        },
    ];

    let linux = Platform {
        os: "linux",
        arch: "amd64",
    };
    let (ver, entry) = find_latest_for_platform(&releases, &linux).unwrap();
    assert_eq!(ver.to_manifest_string(), "1.7.0r1");
    assert_eq!(entry.sign_gpg, "sig1");

    let mac = Platform {
        os: "mac",
        arch: "m5",
    };
    let (ver, entry) = find_latest_for_platform(&releases, &mac).unwrap();
    assert_eq!(ver.to_manifest_string(), "1.7.0");
    assert_eq!(entry.sign_gpg, "sig2");

    let windows = Platform {
        os: "windows",
        arch: "amd64",
    };
    let (ver, entry) = find_latest_for_platform(&releases, &windows).unwrap();
    assert_eq!(ver.to_manifest_string(), "1.7.0r1");
    assert_eq!(entry.sign_gpg, "sig1");
}

#[test]
fn test_find_latest_handles_empty_and_missing() {
    let empty_releases: Vec<ReleaseEntry> = vec![];
    let linux = Platform {
        os: "linux",
        arch: "amd64",
    };
    assert!(find_latest_for_platform(&empty_releases, &linux).is_none());

    let releases_without_mac = vec![ReleaseEntry {
        version: "1.7.0r1".into(),
        hash_sha256: "hash1  linux-amd64.zip\n".into(),
        sign_gpg: "sig1".into(),
    }];
    let mac = Platform {
        os: "mac",
        arch: "m5",
    };
    assert!(find_latest_for_platform(&releases_without_mac, &mac).is_none());
}

#[test]
fn test_find_latest_skips_invalid_semver() {
    let releases = vec![
        ReleaseEntry {
            version: "invalid-semver".into(),
            hash_sha256: "hash0  linux-amd64.zip\n".into(),
            sign_gpg: "sig0".into(),
        },
        ReleaseEntry {
            version: "1.5.0".into(),
            hash_sha256: "hash1  linux-amd64.zip\n".into(),
            sign_gpg: "sig1".into(),
        },
    ];

    let linux = Platform {
        os: "linux",
        arch: "amd64",
    };
    let (ver, entry) = find_latest_for_platform(&releases, &linux).unwrap();
    assert_eq!(ver.to_manifest_string(), "1.5.0");
    assert_eq!(entry.sign_gpg, "sig1");
}

#[test]
fn find_latest_prefers_the_last_of_equal_versions() {
    let releases = vec![
        ReleaseEntry {
            version: "1.7.0".into(),
            hash_sha256: "h1 linux-amd64.zip".into(),
            sign_gpg: "first".into(),
        },
        ReleaseEntry {
            version: "v1.7.0".into(),
            hash_sha256: "h2 linux-amd64.zip".into(),
            sign_gpg: "second".into(),
        },
        ReleaseEntry {
            version: "1.6.9".into(),
            hash_sha256: "h3 linux-amd64.zip".into(),
            sign_gpg: "older".into(),
        },
    ];
    let linux = Platform { os: "linux", arch: "amd64" };
    let (ver, entry) = find_latest_for_platform(&releases, &linux).unwrap();
    assert_eq!(ver.to_manifest_string(), "1.7.0");
    assert_eq!(entry.sign_gpg, "second");
}

#[test]
fn archive_is_listed_when_a_trimmed_line_ends_with_it() {
    let name = chars("linux-amd64.zip");
    assert!(lists_archive_exec("abc  linux-amd64.zip  \r\n", &name));
    assert!(lists_archive_exec("x\n\n  hash xlinux-amd64.zip", &name));
    assert!(!lists_archive_exec("hash linux-amd64.zip.sig", &name));
    assert!(!lists_archive_exec("", &name));
    assert!(!lists_archive_exec("linux-amd64\n.zip", &name));
}

#[test]
fn https_is_required_except_for_local_urls() {
    assert!(manifest_requires_https("https://radegast.app/api/rustinel-releases.json"));
    assert!(manifest_requires_https("http://example.com/releases.json"));
    assert!(!manifest_requires_https("http://127.0.0.1:8080/releases.json"));
    assert!(!manifest_requires_https("http://localhost/releases.json"));
    assert!(!manifest_requires_https("http://user@localhost:1/x"));
    assert!(!manifest_requires_https("http://127.0.0.1"));
}

#[test]
fn https_waiver_goes_by_the_host_only() {
    assert!(manifest_requires_https("http://evil.example/localhost"));
    assert!(manifest_requires_https("http://evil.example/?next=127.0.0.1"));
    assert!(manifest_requires_https("http://evil.example#localhost"));
    assert!(manifest_requires_https("http://localhost@evil.example/"));
    assert!(manifest_requires_https("http://localhost:80@evil.example/"));
    assert!(manifest_requires_https("http://evil.example\\@localhost/"));
    assert!(manifest_requires_https("http://localhost.evil.example/"));
    assert!(manifest_requires_https("http://127.0.0.1.evil.example/"));
    assert!(manifest_requires_https("localhost"));
    assert!(manifest_requires_https("http:localhost/"));
}

#[test]
fn retry_decisions() {
    assert_eq!(retry_action(1, true, Some(2)), RetryAction::ReturnReleases);
    assert_eq!(retry_action(1, false, Some(2)), RetryAction::WaitAndRetry);
    assert_eq!(retry_action(2, false, Some(2)), RetryAction::ReturnError);
    assert_eq!(retry_action(1, false, Some(0)), RetryAction::ReturnError);
    assert_eq!(retry_action(1_000_000, false, None), RetryAction::WaitAndRetry);
    assert_eq!(retry_action(3, true, None), RetryAction::ReturnReleases);
}
