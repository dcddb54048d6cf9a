//! One update check: its settings, whether to update, and the order of its steps.
use vstd::prelude::*;

use crate::manifest::{find_latest_for_platform, is_candidate, is_latest_at, version_of, ReleaseEntry};
use crate::order::precedes;
use crate::platform::{archive_name_of, default_path_of, default_rustinel_path, str_eq, Platform};
use crate::text::{chars_of, parse_u64, parse_u64_slice};
use crate::version::RadegastVersion;

verus! {

/// The updater's settings.
pub struct Config {
    pub manifest_url: String,
    pub check_interval_secs: u64,
    /// Seconds between attempts to fetch the manifest at startup, which is
    /// retried until it first succeeds.
    pub initial_retry_interval_secs: u64,
    pub download_url: String,
    pub rustinel_path: String,
    pub auto_restart: bool,
}

/// Seconds between two update checks when none is configured (a day).
pub const DEFAULT_CHECK_INTERVAL_SECS: u64 = 86400;

/// Seconds between startup attempts to fetch the manifest when none is configured.
pub const DEFAULT_INITIAL_RETRY_INTERVAL_SECS: u64 = 20;

/// The number of seconds a setting gives: its value when it parses as a
/// `u64`, `default` otherwise.
pub open spec fn seconds_of(setting: Option<Seq<char>>, default: u64) -> u64 {
    match setting {
        Some(s) => match parse_u64(s) {
            Some(n) => n,
            None => default,
        },
        None => default,
    }
}

/// Seconds given by a setting, `default` when it is unset or no `u64`.
fn seconds_setting(setting: Option<String>, default: u64) -> (n: u64)
    ensures
        n == seconds_of(
            match setting {
                Some(s) => Some(s@),
                None => None,
            },
            default,
        ),
{
    match setting {
        Some(s) => {
            let cs = chars_of(s.as_str());
            assert(cs@.subrange(0, cs@.len() as int) =~= s@);
            match parse_u64_slice(&cs, 0, cs.len()) {
                Some(n) => n,
                None => default,
            }
        },
        None => default,
    }
}

/// Restarting the service is on unless the setting is `false` or `0`.
pub open spec fn auto_restart_of(setting: Option<Seq<char>>) -> bool {
    match setting {
        Some(s) => s != "false"@ && s != "0"@,
        None => true,
    }
}

impl Config {
    /// The settings given by the values of `UPDATER_MANIFEST_URL`,
    /// `UPDATER_CHECK_INTERVAL`, `UPDATER_INITIAL_RETRY_INTERVAL`, `UPDATER_DOWNLOAD_URL`,
    /// `UPDATER_RUSTINEL_PATH` and `UPDATER_AUTO_RESTART` (`None` where a
    /// variable is unset or not Unicode) on the target OS `target_os`.
    pub fn from_vars(
        manifest_url: Option<String>,
        check_interval: Option<String>,
        initial_retry_interval: Option<String>,
        download_url: Option<String>,
        rustinel_path: Option<String>,
        auto_restart: Option<String>,
        target_os: &str,
    ) -> (c: Config)
        ensures
            c.manifest_url@ == match manifest_url {
                Some(u) => u@,
                None => "https://radegast.app/api/rustinel-releases.json"@,
            },
            c.check_interval_secs == seconds_of(
                match check_interval {
                    Some(s) => Some(s@),
                    None => None,
                },
                DEFAULT_CHECK_INTERVAL_SECS,
            ),
            c.initial_retry_interval_secs == seconds_of(
                match initial_retry_interval {
                    Some(s) => Some(s@),
                    None => None,
                },
                DEFAULT_INITIAL_RETRY_INTERVAL_SECS,
            ),
            c.download_url@ == match download_url {
                Some(u) => u@,
                None => "https://console-api.radegast.app/api/v1"@,
            },
            c.rustinel_path@ == match rustinel_path {
                Some(p) => p@,
                None => default_path_of(target_os@),
            },
            c.auto_restart == auto_restart_of(
                match auto_restart {
                    Some(s) => Some(s@),
                    None => None,
                },
            ),
    {
        let manifest_url = match manifest_url {
            Some(u) => u,
            None => "https://radegast.app/api/rustinel-releases.json".to_owned(),
        };
        let check_interval_secs = seconds_setting(check_interval, DEFAULT_CHECK_INTERVAL_SECS);
        let initial_retry_interval_secs = seconds_setting(
            initial_retry_interval,
            DEFAULT_INITIAL_RETRY_INTERVAL_SECS,
        );
        let download_url = match download_url {
            Some(u) => u,
            None => "https://console-api.radegast.app/api/v1".to_owned(),
        };
        let rustinel_path = match rustinel_path {
            Some(p) => p,
            None => default_rustinel_path(target_os).to_owned(),
        };
        let auto_restart = match auto_restart {
            Some(v) => !str_eq(v.as_str(), "false") && !str_eq(v.as_str(), "0"),
            None => true,
        };
        Config {
            manifest_url,
            check_interval_secs,
            initial_retry_interval_secs,
            download_url,
            rustinel_path,
            auto_restart,
        }
    }
}

/// What an update check does once it has the manifest.
pub enum UpdatePlan<'a> {
    /// No release ships an archive for this platform with a valid version.
    NoRelease,
    /// The installed version is already the newest (or newer).
    UpToDate { latest: RadegastVersion },
    /// Install `version`, released as `entry`.
    Install { version: RadegastVersion, entry: &'a ReleaseEntry },
}

/// Decides what to do with the manifest `releases` when `installed` is the
/// installed version (`None` when it could not be determined): nothing when
/// no release fits the platform, nothing when the newest fitting release is
/// not newer than the installed one, and otherwise install that release.
pub fn plan_update<'a>(
    releases: &'a [ReleaseEntry],
    installed: Option<RadegastVersion>,
    platform: &Platform,
) -> (r: UpdatePlan<'a>)
    ensures
        match r {
            UpdatePlan::NoRelease => forall|j: int|
                0 <= j < releases@.len() ==> !is_candidate(
                    #[trigger] releases@[j],
                    archive_name_of(platform.os@, platform.arch@),
                ),
            UpdatePlan::UpToDate { latest } => exists|i: int|
                is_latest_at(releases@, archive_name_of(platform.os@, platform.arch@), i)
                    && latest == version_of(releases@[i]) && (installed matches Some(c) && !precedes(
                    c,
                    latest,
                )),
            UpdatePlan::Install { version, entry } => exists|i: int|
                is_latest_at(releases@, archive_name_of(platform.os@, platform.arch@), i)
                    && releases@[i] == *entry && version == version_of(*entry) && (
                installed matches Some(c) ==> precedes(c, version)),
        },
{
    match find_latest_for_platform(releases, platform) {
        None => UpdatePlan::NoRelease,
        Some((version, entry)) => match installed {
            Some(current) => if current.is_older_than(&version) {
                UpdatePlan::Install { version, entry }
            } else {
                UpdatePlan::UpToDate { latest: version }
            },
            None => UpdatePlan::Install { version, entry },
        },
    }
}

/// Only one release can be the one picked for a platform.
pub proof fn lemma_latest_unique(rs: Seq<ReleaseEntry>, archive: Seq<char>, i: int, j: int)
    requires
        is_latest_at(rs, archive, i),
        is_latest_at(rs, archive, j),
    ensures
        i == j,
{
    if i < j {
        assert(precedes(version_of(rs[j]), version_of(rs[i])));
        assert(!precedes(version_of(rs[j]), version_of(rs[i])));
    } else if j < i {
        assert(precedes(version_of(rs[i]), version_of(rs[j])));
        assert(!precedes(version_of(rs[i]), version_of(rs[j])));
    }
}

/// Once the release a check picks is installed, the next check with the same
/// manifest finds nothing newer: the installed version does not precede the
/// version of the release picked.
pub proof fn lemma_up_to_date_after_install(rs: Seq<ReleaseEntry>, archive: Seq<char>, i: int, j: int)
    requires
        is_latest_at(rs, archive, i),
        is_latest_at(rs, archive, j),
    ensures
        !precedes(version_of(rs[i]), version_of(rs[j])),
{
    lemma_latest_unique(rs, archive, i, j);
    crate::order::lemma_release_order_total(version_of(rs[i]), version_of(rs[j]));
}

/// The steps of an update, in the order they run. Each step reports whether
/// it succeeded; `next_step` moves on only after a success and ends the
/// update in `Failed` after a failure.
#[derive(Debug, Clone, Copy, PartialEq, Eq, Structural)]
pub enum UpdateStep {
    /// Check the GPG signature of the release's checksum list.
    VerifySignature,
    /// Download the release archive.
    Download,
    /// Check the archive against the signed checksum list.
    VerifyChecksum,
    /// Stop the Rustinel service (releases the binary's file lock).
    StopService,
    /// Replace the installed binary with the one in the archive.
    Install,
    /// Start the Rustinel service again.
    StartService,
    /// Every step succeeded.
    Done,
    /// A step failed; nothing more runs.
    Failed,
}

/// The update has ended, successfully or not.
pub open spec fn is_final(step: UpdateStep) -> bool {
    step == UpdateStep::Done || step == UpdateStep::Failed
}

/// The step after `step` when it `succeeded` (or not); stopping and starting
/// the service happen only with `auto_restart`.
pub open spec fn step_after(step: UpdateStep, succeeded: bool, auto_restart: bool) -> UpdateStep {
    if is_final(step) {
        step
    } else if !succeeded {
        UpdateStep::Failed
    } else {
        match step {
            UpdateStep::VerifySignature => UpdateStep::Download,
            UpdateStep::Download => UpdateStep::VerifyChecksum,
            UpdateStep::VerifyChecksum => if auto_restart {
                UpdateStep::StopService
            } else {
                UpdateStep::Install
            },
            UpdateStep::StopService => UpdateStep::Install,
            UpdateStep::Install => if auto_restart {
                UpdateStep::StartService
            } else {
                UpdateStep::Done
            },
            _ => UpdateStep::Done,
        }
    }
}

/// The step an update is at after its first `n` steps ran, where
/// `outcomes[k]` tells whether step `k` succeeded.
pub open spec fn run_step(outcomes: Seq<bool>, n: nat, auto_restart: bool) -> UpdateStep
    decreases n,
{
    if n == 0 {
        UpdateStep::VerifySignature
    } else {
        step_after(
            run_step(outcomes, (n - 1) as nat, auto_restart),
            outcomes[n - 1],
            auto_restart,
        )
    }
}

/// Among the first `n` steps, `step` ran and succeeded.
pub open spec fn succeeded_before(outcomes: Seq<bool>, n: nat, auto_restart: bool, step: UpdateStep) -> bool {
    exists|k: nat| k < n && #[trigger] run_step(outcomes, k, auto_restart) == step && outcomes[k as int]
}

/// The step an update starts with.
pub fn first_step() -> (s: UpdateStep)
    ensures
        forall|outcomes: Seq<bool>, auto_restart: bool| s == run_step(outcomes, 0, auto_restart),
{
    UpdateStep::VerifySignature
}

/// The step after `step`, given whether `step` succeeded.
pub fn next_step(step: UpdateStep, succeeded: bool, auto_restart: bool) -> (s: UpdateStep)
    ensures
        s == step_after(step, succeeded, auto_restart),
{
    match step {
        UpdateStep::Done => UpdateStep::Done,
        UpdateStep::Failed => UpdateStep::Failed,
        _ => if !succeeded {
            UpdateStep::Failed
        } else {
            match step {
                UpdateStep::VerifySignature => UpdateStep::Download,
                UpdateStep::Download => UpdateStep::VerifyChecksum,
                UpdateStep::VerifyChecksum => if auto_restart {
                    UpdateStep::StopService
                } else {
                    UpdateStep::Install
                },
                UpdateStep::StopService => UpdateStep::Install,
                UpdateStep::Install => if auto_restart {
                    UpdateStep::StartService
                } else {
                    UpdateStep::Done
                },
                _ => UpdateStep::Done,
            }
        },
    }
}

/// Whether the update has ended.
pub fn is_finished(step: UpdateStep) -> (b: bool)
    ensures
        b == is_final(step),
{
    match step {
        UpdateStep::Done | UpdateStep::Failed => true,
        _ => false,
    }
}

/// What has succeeded by the time an update reaches each step.
pub open spec fn history_holds(outcomes: Seq<bool>, n: nat, auto_restart: bool) -> bool {
    let s = run_step(outcomes, n, auto_restart);
    let ok = |x: UpdateStep| succeeded_before(outcomes, n, auto_restart, x);
    &&& s == UpdateStep::Download ==> ok(UpdateStep::VerifySignature)
    &&& s == UpdateStep::VerifyChecksum ==> ok(UpdateStep::VerifySignature) && ok(
        UpdateStep::Download,
    )
    &&& s == UpdateStep::StopService ==> auto_restart && ok(UpdateStep::VerifySignature) && ok(
        UpdateStep::Download,
    ) && ok(UpdateStep::VerifyChecksum)
    &&& s == UpdateStep::Install ==> ok(UpdateStep::VerifySignature) && ok(UpdateStep::Download)
        && ok(UpdateStep::VerifyChecksum) && (auto_restart ==> ok(UpdateStep::StopService))
    &&& s == UpdateStep::StartService ==> auto_restart && ok(UpdateStep::VerifySignature) && ok(
        UpdateStep::Download,
    ) && ok(UpdateStep::VerifyChecksum) && ok(UpdateStep::StopService) && ok(
        UpdateStep::Install,
    )
    &&& s == UpdateStep::Done ==> ok(UpdateStep::VerifySignature) && ok(UpdateStep::Download) && ok(
        UpdateStep::VerifyChecksum,
    ) && ok(UpdateStep::Install) && (auto_restart ==> ok(UpdateStep::StopService) && ok(
        UpdateStep::StartService,
    ))
}

/// A step that succeeded stays among those that succeeded.
proof fn lemma_succeeded_before_grows(outcomes: Seq<bool>, n: nat, auto_restart: bool)
    ensures
        forall|x: UpdateStep|
            succeeded_before(outcomes, n, auto_restart, x) ==> #[trigger] succeeded_before(
                outcomes,
                n + 1,
                auto_restart,
                x,
            ),
{
    assert forall|x: UpdateStep|
        succeeded_before(outcomes, n, auto_restart, x) implies #[trigger] succeeded_before(
        outcomes,
        n + 1,
        auto_restart,
        x,
    ) by {
        let k = choose|k: nat|
            k < n && #[trigger] run_step(outcomes, k, auto_restart) == x && outcomes[k as int];
        assert(k < n + 1 && run_step(outcomes, k, auto_restart) == x && outcomes[k as int]);
    }
}

proof fn lemma_history(outcomes: Seq<bool>, n: nat, auto_restart: bool)
    ensures
        history_holds(outcomes, n, auto_restart),
    decreases n,
{
    if n > 0 {
        let m = (n - 1) as nat;
        lemma_history(outcomes, m, auto_restart);
        lemma_succeeded_before_grows(outcomes, m, auto_restart);
        let prev = run_step(outcomes, m, auto_restart);
        if outcomes[m as int] {
            assert(succeeded_before(outcomes, n, auto_restart, prev)) by {
                assert(m < n && run_step(outcomes, m, auto_restart) == prev && outcomes[m as int]);
            }
        }
        assert(run_step(outcomes, n, auto_restart) == step_after(prev, outcomes[m as int], auto_restart));
    }
}

/// Once a step fails, the update stays failed.
proof fn lemma_failure_final(outcomes: Seq<bool>, i: nat, n: nat, auto_restart: bool)
    requires
        i < n,
        !is_final(run_step(outcomes, i, auto_restart)),
        !outcomes[i as int],
    ensures
        run_step(outcomes, n, auto_restart) == UpdateStep::Failed,
    decreases n,
{
    if n > i + 1 {
        lemma_failure_final(outcomes, i, (n - 1) as nat, auto_restart);
    }
}

/// The binary is replaced only after the signature check, the download and
/// the checksum check each succeeded (and, with `auto_restart`, after the
/// service was stopped); the service is started again only after the
/// replacement succeeded; without `auto_restart` the service is neither
/// stopped nor started; and an update ends `Done` only when all of this
/// happened.
pub proof fn lemma_install_only_after_verification(outcomes: Seq<bool>, n: nat, auto_restart: bool)
    ensures
        run_step(outcomes, n, auto_restart) == UpdateStep::Install ==> {
            &&& succeeded_before(outcomes, n, auto_restart, UpdateStep::VerifySignature)
            &&& succeeded_before(outcomes, n, auto_restart, UpdateStep::Download)
            &&& succeeded_before(outcomes, n, auto_restart, UpdateStep::VerifyChecksum)
            &&& auto_restart ==> succeeded_before(outcomes, n, auto_restart, UpdateStep::StopService)
        },
        run_step(outcomes, n, auto_restart) == UpdateStep::StartService ==> auto_restart
            && succeeded_before(outcomes, n, auto_restart, UpdateStep::Install),
        run_step(outcomes, n, auto_restart) == UpdateStep::StopService ==> auto_restart,
        run_step(outcomes, n, auto_restart) == UpdateStep::Done ==> {
            &&& succeeded_before(outcomes, n, auto_restart, UpdateStep::VerifySignature)
            &&& succeeded_before(outcomes, n, auto_restart, UpdateStep::VerifyChecksum)
            &&& succeeded_before(outcomes, n, auto_restart, UpdateStep::Install)
        },
{
    lemma_history(outcomes, n, auto_restart);
}

/// After a step fails nothing more runs: in particular the binary is not
/// replaced and the service is not started.
pub proof fn lemma_failed_step_ends_update(outcomes: Seq<bool>, i: nat, n: nat, auto_restart: bool)
    requires
        i < n,
        !is_final(run_step(outcomes, i, auto_restart)),
        !outcomes[i as int],
    ensures
        run_step(outcomes, n, auto_restart) == UpdateStep::Failed,
        run_step(outcomes, n, auto_restart) != UpdateStep::Install,
        run_step(outcomes, n, auto_restart) != UpdateStep::StartService,
{
    lemma_failure_final(outcomes, i, n, auto_restart);
}

/// When every step succeeds, the update is done after six steps (four
/// without `auto_restart`).
pub proof fn lemma_successful_update_completes(outcomes: Seq<bool>, auto_restart: bool)
    requires
        outcomes.len() >= 6,
        forall|k: int| 0 <= k < 6 ==> #[trigger] outcomes[k],
    ensures
        run_step(outcomes, 6, auto_restart) == UpdateStep::Done,
        !auto_restart ==> run_step(outcomes, 4, auto_restart) == UpdateStep::Done,
{
    reveal_with_fuel(run_step, 7);
    assert(outcomes[0] && outcomes[1] && outcomes[2] && outcomes[3] && outcomes[4] && outcomes[5]);
}

} // verus!
