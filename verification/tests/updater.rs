use radegast_rustinel_updater::manifest::ReleaseEntry;
use radegast_rustinel_updater::platform::Platform;
use radegast_rustinel_updater::signature::{check_signature_groups, SignatureError};
use radegast_rustinel_updater::updater::{
    first_step, is_finished, next_step, plan_update, Config, UpdatePlan, UpdateStep,
};
use radegast_rustinel_updater::version::RadegastVersion;

fn entry(version: &str, list: &str, sig: &str) -> ReleaseEntry {
    ReleaseEntry { version: version.into(), hash_sha256: list.into(), sign_gpg: sig.into() }
}

#[test]
fn config_defaults() {
    let c = Config::from_vars(None, None, None, None, None, None, "linux");
    assert_eq!(c.manifest_url, "https://radegast.app/api/rustinel-releases.json");
    assert_eq!(c.check_interval_secs, 86400);
    assert_eq!(c.initial_retry_interval_secs, 20);
    assert_eq!(c.download_url, "https://console-api.radegast.app/api/v1");
    assert_eq!(c.rustinel_path, "/opt/radegast/rustinel/rustinel");
    assert!(c.auto_restart);
}

#[test]
fn config_from_values() {
    let c = Config::from_vars(
        Some("http://127.0.0.1:1/m.json".into()),
        Some("60".into()),
        Some("5".into()),
        Some("https://d.example".into()),
        Some("/tmp/rustinel".into()),
        Some("false".into()),
        "windows",
    );
    assert_eq!(c.manifest_url, "http://127.0.0.1:1/m.json");
    assert_eq!(c.check_interval_secs, 60);
    assert_eq!(c.initial_retry_interval_secs, 5);
    assert_eq!(c.download_url, "https://d.example");
    assert_eq!(c.rustinel_path, "/tmp/rustinel");
    assert!(!c.auto_restart);

    let c = Config::from_vars(None, Some("a day".into()), Some("-1".into()), None, None, Some("0".into()), "windows");
    assert_eq!(c.initial_retry_interval_secs, 20);
    assert_eq!(c.check_interval_secs, 86400);
    assert!(!c.auto_restart);
    assert_eq!(c.rustinel_path, r"C:\Program Files\Radegast\rustinel\rustinel\rustinel.exe");

    let c = Config::from_vars(None, Some(" 60".into()), None, None, None, Some("no".into()), "macos");
    assert_eq!(c.check_interval_secs, 86400);
    assert!(c.auto_restart);
    assert_eq!(c.rustinel_path, "/Library/Radegast/rustinel/rustinel");
}

#[test]
fn plan_updates_only_to_newer_versions() {
    let releases = vec![
        entry("1.8.0r2", "h linux-amd64.zip\nh linux-arm64.zip\n", "s1"),
        entry("1.8.0", "h mac-m5.zip\n", "s2"),
    ];
    let linux = Platform { os: "linux", arch: "amd64" };
    let installed = RadegastVersion::parse("1.3.0").unwrap();
    match plan_update(&releases, Some(installed), &linux) {
        UpdatePlan::Install { version, entry } => {
            assert_eq!(version.to_manifest_string(), "1.8.0r2");
            assert_eq!(entry.sign_gpg, "s1");
        }
        _ => panic!("expected an update"),
    }
    match plan_update(&releases, None, &linux) {
        UpdatePlan::Install { version, .. } => assert_eq!(version.to_manifest_string(), "1.8.0r2"),
        _ => panic!("expected an update"),
    }
    let same = RadegastVersion::parse("1.8.0r2").unwrap();
    assert!(matches!(plan_update(&releases, Some(same), &linux), UpdatePlan::UpToDate { .. }));
    let newer = RadegastVersion::parse("1.9.0").unwrap();
    assert!(matches!(plan_update(&releases, Some(newer), &linux), UpdatePlan::UpToDate { .. }));
    let windows = Platform { os: "windows", arch: "amd64" };
    assert!(matches!(plan_update(&releases, None, &windows), UpdatePlan::NoRelease));
}

/// Runs the update steps with the given outcomes (missing ones succeed) and
/// returns the steps that ran and the final step.
fn run(outcomes: &[bool], auto_restart: bool) -> (Vec<UpdateStep>, UpdateStep) {
    let mut ran = vec![];
    let mut s = first_step();
    let mut k = 0;
    while !is_finished(s) {
        ran.push(s);
        let ok = outcomes.get(k).copied().unwrap_or(true);
        k += 1;
        s = next_step(s, ok, auto_restart);
    }
    (ran, s)
}

#[test]
fn update_steps_verify_before_installing() {
    let (ran, end) = run(&[], true);
    assert_eq!(
        ran,
        vec![
            UpdateStep::VerifySignature,
            UpdateStep::Download,
            UpdateStep::VerifyChecksum,
            UpdateStep::StopService,
            UpdateStep::Install,
            UpdateStep::StartService,
        ]
    );
    assert_eq!(end, UpdateStep::Done);
    let (ran, end) = run(&[], false);
    assert_eq!(
        ran,
        vec![
            UpdateStep::VerifySignature,
            UpdateStep::Download,
            UpdateStep::VerifyChecksum,
            UpdateStep::Install,
        ]
    );
    assert_eq!(end, UpdateStep::Done);
    assert_eq!(next_step(UpdateStep::Done, true, true), UpdateStep::Done);
    assert_eq!(next_step(UpdateStep::Done, false, true), UpdateStep::Done);
}

#[test]
fn failed_step_ends_the_update() {
    // A tampered signature: nothing is downloaded or installed.
    let (ran, end) = run(&[false], true);
    assert_eq!(ran, vec![UpdateStep::VerifySignature]);
    assert_eq!(end, UpdateStep::Failed);
    // A checksum mismatch: the service is not stopped and nothing is installed.
    let (ran, end) = run(&[true, true, false], true);
    assert_eq!(ran, vec![UpdateStep::VerifySignature, UpdateStep::Download, UpdateStep::VerifyChecksum]);
    assert_eq!(end, UpdateStep::Failed);
    // A failed replacement: the service is not started again.
    let (ran, end) = run(&[true, true, true, true, false], true);
    assert_eq!(ran.last(), Some(&UpdateStep::Install));
    assert!(!ran.contains(&UpdateStep::StartService));
    assert_eq!(end, UpdateStep::Failed);
    assert_eq!(next_step(UpdateStep::Failed, true, true), UpdateStep::Failed);
}

#[test]
fn signature_groups_need_one_valid_signature() {
    assert_eq!(check_signature_groups(&vec![]), Err(SignatureError::NoValidSignature));
    assert_eq!(check_signature_groups(&vec![vec![], vec![false]]), Err(SignatureError::NoValidSignature));
    assert_eq!(check_signature_groups(&vec![vec![false], vec![false, true]]), Ok(()));
}
