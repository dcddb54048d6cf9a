use radegast_rustinel_updater::version::{parse_version_output, RadegastVersion, VersionError};

#[test]
fn version_ordering() {
    let v170 = RadegastVersion::parse("1.7.0").unwrap();
    let v170r1 = RadegastVersion::parse("1.7.0r1").unwrap();
    let v170r2 = RadegastVersion::parse("1.7.0r2").unwrap();
    let v171 = RadegastVersion::parse("1.7.1").unwrap();
    let v160 = RadegastVersion::parse("1.6.0").unwrap();
    let v160r1 = RadegastVersion::parse("1.6.0r1").unwrap();

    assert!(v170r1 > v170);
    assert!(v170r2 > v170r1);
    assert!(v171 > v170r2);
    assert!(v170 > v160r1);
    assert!(v160r1 > v160);
    assert!(v170r1 > v160);
    assert_eq!(v170r1, v170r1.clone());
    assert_eq!(v170, v170.clone());
}

#[test]
fn parse_with_v_prefix() {
    let v = RadegastVersion::parse("v1.7.0r1").unwrap();
    assert_eq!(v.major, 1);
    assert_eq!(v.minor, 7);
    assert_eq!(v.patch, 0);
    assert_eq!(v.revision, Some(1));

    let v_base = RadegastVersion::parse("v2.3.4").unwrap();
    assert_eq!(v_base.major, 2);
    assert_eq!(v_base.minor, 3);
    assert_eq!(v_base.patch, 4);
    assert_eq!(v_base.revision, None);
}

#[test]
fn display_roundtrip() {
    let v1 = RadegastVersion::parse("1.7.0r1").unwrap();
    assert_eq!(v1.to_manifest_string(), "1.7.0r1");
    assert_eq!(v1.to_manifest_string(), "1.7.0r1");

    let v2 = RadegastVersion::parse("1.7.0").unwrap();
    assert_eq!(v2.to_manifest_string(), "1.7.0");
    assert_eq!(v2.to_manifest_string(), "1.7.0");
}

#[test]
fn parse_invalid_versions() {
    assert!(RadegastVersion::parse("").is_err());
    assert!(RadegastVersion::parse("invalid").is_err());
    assert!(RadegastVersion::parse("1").is_err());
    assert!(RadegastVersion::parse("1.2").is_err());
    assert!(RadegastVersion::parse("1.2.3.4").is_err());
    assert!(RadegastVersion::parse("1.2.3rx").is_err());
    assert!(RadegastVersion::parse("1.2.3r").is_err());
    assert!(RadegastVersion::parse("1.a.3").is_err());
}

#[test]
fn test_parse_version_output() {
    let out1 = "rustinel 1.7.1r1";
    assert_eq!(
        parse_version_output(out1).unwrap().to_manifest_string(),
        "1.7.1r1"
    );

    let out2 = "Rustinel EDR Sensor v1.5.0 (built 2026-09-01)";
    assert_eq!(
        parse_version_output(out2).unwrap().to_manifest_string(),
        "1.5.0"
    );

    let out3 = "no numbers here";
    assert!(parse_version_output(out3).is_err());
}

#[test]
fn parse_reports_which_field_is_invalid() {
    assert_eq!(RadegastVersion::parse(""), Err(VersionError::InvalidFormat));
    assert_eq!(RadegastVersion::parse("1.2"), Err(VersionError::InvalidFormat));
    assert_eq!(RadegastVersion::parse("x.2.3"), Err(VersionError::InvalidMajor));
    assert_eq!(RadegastVersion::parse("1.a.3"), Err(VersionError::InvalidMinor));
    assert_eq!(RadegastVersion::parse("1.2.-3"), Err(VersionError::InvalidPatch));
    assert_eq!(RadegastVersion::parse("1.2.3rx"), Err(VersionError::InvalidRevision));
    assert_eq!(RadegastVersion::parse("1.2.3r"), Err(VersionError::InvalidRevision));
    // The base is split at the first `r`, so a second one lands in the revision.
    assert_eq!(RadegastVersion::parse("1.2.3r1r2"), Err(VersionError::InvalidRevision));
    assert_eq!(
        parse_version_output("no numbers here"),
        Err(VersionError::NoVersionFound)
    );
}

#[test]
fn parse_accepts_what_u64_parsing_accepts() {
    let v = RadegastVersion::parse("  vv+1.02.3r+4\n").unwrap();
    assert_eq!(v, RadegastVersion { major: 1, minor: 2, patch: 3, revision: Some(4) });
    let max = RadegastVersion::parse("18446744073709551615.0.0").unwrap();
    assert_eq!(max.major, u64::MAX);
    assert_eq!(
        RadegastVersion::parse("18446744073709551616.0.0"),
        Err(VersionError::InvalidMajor)
    );
    assert_eq!(RadegastVersion::parse("1..3"), Err(VersionError::InvalidMinor));
    assert_eq!(RadegastVersion::parse("+.1.2"), Err(VersionError::InvalidMajor));
    // Only leading whitespace of the whole string is dropped.
    assert_eq!(RadegastVersion::parse("1. 2.3"), Err(VersionError::InvalidMinor));
    // Unicode whitespace counts too.
    assert_eq!(
        RadegastVersion::parse("\u{3000}1.2.3\u{a0}").unwrap(),
        RadegastVersion { major: 1, minor: 2, patch: 3, revision: None }
    );
}

#[test]
fn manifest_string_parses_back() {
    for v in [
        RadegastVersion { major: 0, minor: 0, patch: 0, revision: None },
        RadegastVersion { major: 10, minor: 200, patch: 3000, revision: Some(0) },
        RadegastVersion { major: u64::MAX, minor: 7, patch: 1, revision: Some(u64::MAX) },
    ] {
        assert_eq!(RadegastVersion::parse(&v.to_manifest_string()), Ok(v));
    }
    assert_eq!(
        RadegastVersion { major: 10, minor: 200, patch: 3000, revision: Some(0) }.to_manifest_string(),
        "10.200.3000r0"
    );
}

#[test]
fn release_order_is_total_and_matches_ord() {
    let vs: Vec<RadegastVersion> = ["1.6.0", "1.6.0r1", "1.7.0", "1.7.0r1", "1.7.0r2", "1.7.1", "2.0.0"]
        .iter()
        .map(|s| RadegastVersion::parse(s).unwrap())
        .collect();
    for (i, a) in vs.iter().enumerate() {
        for (j, b) in vs.iter().enumerate() {
            assert_eq!(a.partial_cmp(b), Some(i.cmp(&j)));
            assert_eq!(a.cmp(b), i.cmp(&j));
            assert_eq!(a.compare(b), i.cmp(&j));
            assert_eq!(a.is_older_than(b), i < j);
        }
    }
}

#[test]
fn version_output_takes_first_version_word() {
    assert_eq!(
        parse_version_output("rustinel\tvv2.0.0 1.0.0").unwrap().to_manifest_string(),
        "2.0.0"
    );
    // A word that starts with a digit but is no version is an error, not skipped.
    assert_eq!(
        parse_version_output("build 2026-09-01 v1.5.0"),
        Err(VersionError::InvalidFormat)
    );
    assert_eq!(parse_version_output(""), Err(VersionError::NoVersionFound));
}
