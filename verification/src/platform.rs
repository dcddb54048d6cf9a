//! The platform a release is built for, and the per-OS names and paths.
use vstd::prelude::*;

use crate::text::{chars_of, contains, contains_exec, push_char, slice_eq};

verus! {

/// A release platform, as named in the manifest (`linux`/`amd64`, `mac`/`m5`, ...).
pub struct Platform {
    pub os: &'static str,
    pub arch: &'static str,
}

/// Why the running target has no release platform.
#[derive(Debug, Clone, Copy, PartialEq, Eq, Structural)]
pub enum PlatformError {
    UnsupportedOs,
    UnsupportedArch,
}

/// The archive file a platform's release ships in: `{os}-{arch}.zip`.
pub open spec fn archive_name_of(os: Seq<char>, arch: Seq<char>) -> Seq<char> {
    os + seq!['-'] + arch + seq!['.', 'z', 'i', 'p']
}

/// The manifest name of a Rust target OS (`std::env::consts::OS`).
pub open spec fn os_label(target_os: Seq<char>) -> Option<Seq<char>> {
    if target_os == "linux"@ {
        Some("linux"@)
    } else if target_os == "macos"@ {
        Some("mac"@)
    } else if target_os == "windows"@ {
        Some("windows"@)
    } else {
        None
    }
}

/// The manifest name of a Rust target architecture on an OS with manifest
/// name `os`; Apple silicon is called `m5`.
pub open spec fn arch_label(os: Seq<char>, target_arch: Seq<char>) -> Option<Seq<char>> {
    if target_arch == "x86_64"@ {
        Some("amd64"@)
    } else if target_arch == "aarch64"@ {
        if os == "mac"@ {
            Some("m5"@)
        } else {
            Some("arm64"@)
        }
    } else {
        None
    }
}

/// Where the Rustinel binary lives by default on a target OS.
pub open spec fn default_path_of(target_os: Seq<char>) -> Seq<char> {
    if target_os == "linux"@ {
        "/opt/radegast/rustinel/rustinel"@
    } else if target_os == "macos"@ {
        "/Library/Radegast/rustinel/rustinel"@
    } else if target_os == "windows"@ {
        "C:\\Program Files\\Radegast\\rustinel\\rustinel\\rustinel.exe"@
    } else {
        "/usr/local/bin/rustinel"@
    }
}

/// The name of the Rustinel binary inside a release archive.
pub open spec fn binary_name_of(target_os: Seq<char>) -> Seq<char> {
    if target_os == "windows"@ {
        "rustinel.exe"@
    } else {
        "rustinel"@
    }
}

/// Whether two strings hold the same characters.
pub fn str_eq(a: &str, b: &str) -> (r: bool)
    ensures
        r == (a@ == b@),
{
    let x = chars_of(a);
    let y = chars_of(b);
    let r = slice_eq(&x, 0, x.len(), &y);
    assert(x@.subrange(0, x@.len() as int) =~= x@);
    r
}

impl Platform {
    pub fn os_name(&self) -> (r: &str)
        ensures
            r@ == self.os@,
    {
        self.os
    }

    pub fn arch_name(&self) -> (r: &str)
        ensures
            r@ == self.arch@,
    {
        self.arch
    }

    /// `{os}-{arch}.zip`, e.g. `linux-amd64.zip`.
    pub fn archive_name(&self) -> (r: String)
        ensures
            r@ == archive_name_of(self.os@, self.arch@),
    {
        let mut r = self.os.to_owned();
        push_char(&mut r, '-');
        r.append(self.arch);
        push_char(&mut r, '.');
        push_char(&mut r, 'z');
        push_char(&mut r, 'i');
        push_char(&mut r, 'p');
        assert(r@ =~= archive_name_of(self.os@, self.arch@));
        r
    }
}

/// The release platform of a Rust target, given as `std::env::consts::OS`
/// and `std::env::consts::ARCH`; the OS is checked first.
pub fn platform_for_target(target_os: &str, target_arch: &str) -> (r: Result<
    Platform,
    PlatformError,
>)
    ensures
        match os_label(target_os@) {
            None => r == Err::<Platform, PlatformError>(PlatformError::UnsupportedOs),
            Some(os) => match arch_label(os, target_arch@) {
                None => r == Err::<Platform, PlatformError>(PlatformError::UnsupportedArch),
                Some(arch) => r matches Ok(p) && p.os@ == os && p.arch@ == arch,
            },
        },
{
    let os: &'static str = if str_eq(target_os, "linux") {
        "linux"
    } else if str_eq(target_os, "macos") {
        "mac"
    } else if str_eq(target_os, "windows") {
        "windows"
    } else {
        return Err(PlatformError::UnsupportedOs);
    };
    let arch: &'static str = if str_eq(target_arch, "x86_64") {
        "amd64"
    } else if str_eq(target_arch, "aarch64") {
        if str_eq(os, "mac") {
            "m5"
        } else {
            "arm64"
        }
    } else {
        return Err(PlatformError::UnsupportedArch);
    };
    Ok(Platform { os, arch })
}

/// The default location of the Rustinel binary on the target OS
/// (`std::env::consts::OS`).
pub fn default_rustinel_path(target_os: &str) -> (r: &'static str)
    ensures
        r@ == default_path_of(target_os@),
{
    if str_eq(target_os, "linux") {
        "/opt/radegast/rustinel/rustinel"
    } else if str_eq(target_os, "macos") {
        "/Library/Radegast/rustinel/rustinel"
    } else if str_eq(target_os, "windows") {
        "C:\\Program Files\\Radegast\\rustinel\\rustinel\\rustinel.exe"
    } else {
        "/usr/local/bin/rustinel"
    }
}

/// Whether the output of `sc.exe query Rustinel` reports the service as stopped.
pub fn service_query_reports_stopped(query_output: &str) -> (b: bool)
    ensures
        b == contains(query_output@, "STOPPED"@),
{
    let out = chars_of(query_output);
    let word = chars_of("STOPPED");
    contains_exec(&out, &word)
}

/// How many times, a second apart, the service is queried while waiting for
/// it to stop.
pub const STOP_WAIT_POLLS: u32 = 30;

/// Whether to keep waiting for the service to stop after `polls_done`
/// queries, the last of which did (or did not) report it stopped: at most
/// `STOP_WAIT_POLLS` queries are made, and none after one reports it stopped.
pub fn keep_waiting_for_stop(polls_done: u32, reported_stopped: bool) -> (b: bool)
    ensures
        b == (!reported_stopped && polls_done < STOP_WAIT_POLLS),
{
    !reported_stopped && polls_done < STOP_WAIT_POLLS
}

/// The name of the Rustinel binary inside a release archive for the target OS.
pub fn binary_name(target_os: &str) -> (r: &'static str)
    ensures
        r@ == binary_name_of(target_os@),
{
    if str_eq(target_os, "windows") {
        "rustinel.exe"
    } else {
        "rustinel"
    }
}

/// On every supported OS an x86-64 target is `amd64`; an AArch64 target is
/// `m5` on macOS (Apple silicon) and `arm64` on Linux and Windows. The OSes
/// are named `linux`, `mac` and `windows`, and any other OS is unsupported.
pub proof fn lemma_target_names(target_os: Seq<char>)
    ensures
        target_os == "linux"@ ==> os_label(target_os) == Some("linux"@),
        target_os == "macos"@ ==> os_label(target_os) == Some("mac"@),
        target_os == "windows"@ ==> os_label(target_os) == Some("windows"@),
        target_os != "linux"@ && target_os != "macos"@ && target_os != "windows"@ ==> os_label(
            target_os,
        ) is None,
        os_label(target_os) is Some ==> arch_label(os_label(target_os)->0, "x86_64"@) == Some(
            "amd64"@,
        ),
        os_label(target_os) is Some && target_os == "macos"@ ==> arch_label(
            os_label(target_os)->0,
            "aarch64"@,
        ) == Some("m5"@),
        os_label(target_os) is Some && target_os != "macos"@ ==> arch_label(
            os_label(target_os)->0,
            "aarch64"@,
        ) == Some("arm64"@),
{
    reveal_strlit("linux");
    reveal_strlit("macos");
    reveal_strlit("windows");
    reveal_strlit("mac");
    reveal_strlit("x86_64");
    reveal_strlit("aarch64");
    assert("linux"@[0] != "macos"@[0]);
    assert("linux"@ != "macos"@);
    assert("linux"@[0] != "mac"@[0]);
    assert("linux"@ != "mac"@);
    assert("windows"@ != "mac"@);
    assert("windows"@ != "macos"@);
    assert("linux"@ != "windows"@);
    assert("x86_64"@[0] != "aarch64"@[0]);
    assert("x86_64"@ != "aarch64"@);
}

} // verus!
