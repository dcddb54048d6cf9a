use radegast_rustinel_updater::platform::{
    binary_name, default_rustinel_path, keep_waiting_for_stop, service_query_reports_stopped,
    STOP_WAIT_POLLS, platform_for_target, Platform, PlatformError,
};

#[test]
fn platform_names() {
    let p = Platform { os: "linux", arch: "amd64" };
    assert_eq!(p.os_name(), "linux");
    assert_eq!(p.arch_name(), "amd64");
    assert_eq!(p.archive_name(), "linux-amd64.zip");
    assert_eq!(Platform { os: "mac", arch: "m5" }.archive_name(), "mac-m5.zip");
}

#[test]
fn platform_of_targets() {
    let p = platform_for_target("linux", "x86_64").unwrap();
    assert_eq!((p.os, p.arch), ("linux", "amd64"));
    let p = platform_for_target("linux", "aarch64").unwrap();
    assert_eq!((p.os, p.arch), ("linux", "arm64"));
    let p = platform_for_target("macos", "aarch64").unwrap();
    assert_eq!((p.os, p.arch), ("mac", "m5"));
    let p = platform_for_target("macos", "x86_64").unwrap();
    assert_eq!((p.os, p.arch), ("mac", "amd64"));
    let p = platform_for_target("windows", "x86_64").unwrap();
    assert_eq!((p.os, p.arch), ("windows", "amd64"));
    assert_eq!(platform_for_target("freebsd", "x86_64").err(), Some(PlatformError::UnsupportedOs));
    assert_eq!(platform_for_target("freebsd", "riscv64").err(), Some(PlatformError::UnsupportedOs));
    assert_eq!(platform_for_target("linux", "riscv64").err(), Some(PlatformError::UnsupportedArch));
}

#[test]
fn default_paths_and_binary_names() {
    assert_eq!(default_rustinel_path("linux"), "/opt/radegast/rustinel/rustinel");
    assert_eq!(default_rustinel_path("macos"), "/Library/Radegast/rustinel/rustinel");
    assert_eq!(
        default_rustinel_path("windows"),
        r"C:\Program Files\Radegast\rustinel\rustinel\rustinel.exe"
    );
    assert_eq!(default_rustinel_path("freebsd"), "/usr/local/bin/rustinel");
    assert_eq!(binary_name("windows"), "rustinel.exe");
    assert_eq!(binary_name("linux"), "rustinel");
}

#[test]
fn service_query_output() {
    assert!(service_query_reports_stopped(
        "SERVICE_NAME: Rustinel\r\n        STATE              : 1  STOPPED\r\n"
    ));
    assert!(!service_query_reports_stopped("        STATE              : 4  RUNNING"));
    assert!(!service_query_reports_stopped(""));
}

#[test]
fn waiting_for_the_service_to_stop() {
    assert!(keep_waiting_for_stop(0, false));
    assert!(keep_waiting_for_stop(29, false));
    assert!(!keep_waiting_for_stop(30, false));
    assert!(!keep_waiting_for_stop(3, true));
    assert_eq!(STOP_WAIT_POLLS, 30);
}
