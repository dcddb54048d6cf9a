//! The release manifest: choosing the newest release for a platform, and the
//! decisions around fetching the manifest.
use vstd::prelude::*;

use crate::order::{lemma_release_order_total, lemma_release_order_transitive, precedes};
use crate::platform::{archive_name_of, Platform};
use crate::text::{chars_of, ends_with, line_ranges, lines, slice_ends_with, trim, trim_bounds};
use crate::url::{is_local_url, url_is_local};
use crate::version::{parse_version, RadegastVersion};

verus! {

/// One release of the manifest: its version, the `sha256sum`-style checksum
/// list of its archives, and the detached GPG signature of that list.
#[derive(Debug, Clone)]
pub struct ReleaseEntry {
    pub version: String,
    pub hash_sha256: String,
    pub sign_gpg: String,
}

/// Some line of the checksum list, trimmed, ends with the archive name.
pub open spec fn lists_archive(checksums: Seq<char>, archive: Seq<char>) -> bool {
    exists|i: int| 0 <= i < lines(checksums).len() && ends_with(trim(#[trigger] lines(checksums)[i]), archive)
}

/// A release is a candidate for a platform when its checksum list names the
/// platform's archive and its version parses.
pub open spec fn is_candidate(e: ReleaseEntry, archive: Seq<char>) -> bool {
    lists_archive(e.hash_sha256@, archive) && parse_version(e.version@) is Ok
}

/// The version of a release (meaningful when it parses).
pub open spec fn version_of(e: ReleaseEntry) -> RadegastVersion {
    parse_version(e.version@)->Ok_0
}

/// Release `i` is the one `find_latest_for_platform` picks: a candidate of the
/// newest version, and the last such one.
pub open spec fn is_latest_at(rs: Seq<ReleaseEntry>, archive: Seq<char>, i: int) -> bool {
    &&& 0 <= i < rs.len()
    &&& is_candidate(rs[i], archive)
    &&& forall|j: int|
        0 <= j < rs.len() && is_candidate(#[trigger] rs[j], archive) ==> !precedes(
            version_of(rs[i]),
            version_of(rs[j]),
        )
    &&& forall|j: int|
        i < j < rs.len() && is_candidate(#[trigger] rs[j], archive) ==> precedes(
            version_of(rs[j]),
            version_of(rs[i]),
        )
}

/// Whether the checksum list names the archive on some line.
pub fn lists_archive_exec(checksums: &str, archive: &Vec<char>) -> (b: bool)
    ensures
        b == lists_archive(checksums@, archive@),
{
    let cs = chars_of(checksums);
    let pieces = line_ranges(&cs);
    let ghost ls = lines(checksums@);
    let n = pieces.len();
    let mut i: usize = 0;
    while i < n
        invariant
            i <= n == ls.len() == pieces@.len(),
            cs@ == checksums@,
            ls == lines(checksums@),
            forall|k: int|
                0 <= k < pieces@.len() ==> {
                    &&& 0 <= (#[trigger] pieces@[k]).0 <= pieces@[k].1 <= cs@.len()
                    &&& cs@.subrange(pieces@[k].0 as int, pieces@[k].1 as int) == ls[k]
                },
            forall|k: int| 0 <= k < i ==> !ends_with(trim(#[trigger] ls[k]), archive@),
        decreases n - i,
    {
        let (lo, hi) = pieces[i];
        let (a, b) = trim_bounds(&cs, lo, hi);
        if slice_ends_with(&cs, a, b, archive) {
            assert(ends_with(trim(ls[i as int]), archive@));
            return true;
        }
        i += 1;
    }
    false
}

/// The newest release of `releases` that ships an archive for `platform`
/// and whose version parses; among equal versions, the last one.
pub fn find_latest_for_platform<'a>(releases: &'a [ReleaseEntry], platform: &Platform) -> (r: Option<
    (RadegastVersion, &'a ReleaseEntry),
>)
    ensures
        match r {
            None => forall|j: int|
                0 <= j < releases@.len() ==> !is_candidate(
                    #[trigger] releases@[j],
                    archive_name_of(platform.os@, platform.arch@),
                ),
            Some((v, e)) => exists|i: int|
                is_latest_at(releases@, archive_name_of(platform.os@, platform.arch@), i)
                    && releases@[i] == *e && v == version_of(*e),
        },
{
    let archive_name = platform.archive_name();
    let archive = chars_of(archive_name.as_str());
    let ghost name = archive_name_of(platform.os@, platform.arch@);
    let ghost rs = releases@;
    let mut best: Option<(RadegastVersion, usize)> = None;
    let mut i: usize = 0;
    while i < releases.len()
        invariant
            i <= rs.len(),
            rs == releases@,
            archive@ == name,
            match best {
                None => forall|j: int| 0 <= j < i ==> !is_candidate(#[trigger] rs[j], name),
                Some((v, b)) => {
                    &&& b < i
                    &&& v == version_of(rs[b as int])
                    &&& is_latest_at(rs.take(i as int), name, b as int)
                },
            },
        decreases rs.len() - i,
    {
        let entry = &releases[i];
        let ghost prev = rs.take(i as int);
        let ghost next = rs.take(i + 1);
        assert forall|j: int| 0 <= j < i implies #[trigger] next[j] == prev[j] by {}
        assert(next[i as int] == rs[i as int]);
        if lists_archive_exec(entry.hash_sha256.as_str(), &archive) {
            match RadegastVersion::parse(entry.version.as_str()) {
                Ok(v) => {
                    let replace = match best {
                        None => true,
                        Some((bv, _)) => !v.is_older_than(&bv),
                    };
                    proof {
                        lemma_update_latest(rs, name, i as int, best);
                    }
                    if replace {
                        best = Some((v, i));
                    }
                },
                Err(_) => {
                    proof {
                        lemma_skip_release(rs, name, i as int, best);
                    }
                },
            }
        } else {
            proof {
                lemma_skip_release(rs, name, i as int, best);
            }
        }
        i += 1;
    }
    assert(rs.take(rs.len() as int) =~= rs);
    match best {
        None => None,
        Some((v, b)) => Some((v, &releases[b])),
    }
}

/// A release that is no candidate leaves the choice over the longer prefix unchanged.
proof fn lemma_skip_release(
    rs: Seq<ReleaseEntry>,
    name: Seq<char>,
    i: int,
    best: Option<(RadegastVersion, usize)>,
)
    requires
        0 <= i < rs.len(),
        !is_candidate(rs[i], name),
        match best {
            None => forall|j: int| 0 <= j < i ==> !is_candidate(#[trigger] rs[j], name),
            Some((v, b)) => {
                &&& b < i
                &&& v == version_of(rs[b as int])
                &&& is_latest_at(rs.take(i), name, b as int)
            },
        },
    ensures
        match best {
            None => forall|j: int| 0 <= j < i + 1 ==> !is_candidate(#[trigger] rs[j], name),
            Some((v, b)) => {
                &&& b < i + 1
                &&& v == version_of(rs[b as int])
                &&& is_latest_at(rs.take(i + 1), name, b as int)
            },
        },
{
    let prev = rs.take(i);
    let next = rs.take(i + 1);
    assert forall|j: int| 0 <= j < i implies #[trigger] next[j] == prev[j] by {}
    if let Some((v, b)) = best {
        assert(next[b as int] == prev[b as int]);
        assert forall|j: int|
            0 <= j < next.len() && is_candidate(#[trigger] next[j], name) implies !precedes(
            version_of(next[b as int]),
            version_of(next[j]),
        ) by {
            assert(prev[j] == next[j]);
        }
        assert forall|j: int|
            b < j < next.len() && is_candidate(#[trigger] next[j], name) implies precedes(
            version_of(next[j]),
            version_of(next[b as int]),
        ) by {
            assert(prev[j] == next[j]);
        }
    }
}

/// A candidate at `i` either loses to the current choice (when it is older)
/// or becomes the choice.
proof fn lemma_update_latest(
    rs: Seq<ReleaseEntry>,
    name: Seq<char>,
    i: int,
    best: Option<(RadegastVersion, usize)>,
)
    requires
        0 <= i < rs.len(),
        is_candidate(rs[i], name),
        match best {
            None => forall|j: int| 0 <= j < i ==> !is_candidate(#[trigger] rs[j], name),
            Some((v, b)) => {
                &&& b < i
                &&& v == version_of(rs[b as int])
                &&& is_latest_at(rs.take(i), name, b as int)
            },
        },
    ensures
        match best {
            Some((v, b)) if precedes(version_of(rs[i]), v) => is_latest_at(
                rs.take(i + 1),
                name,
                b as int,
            ),
            _ => is_latest_at(rs.take(i + 1), name, i),
        },
{
    let prev = rs.take(i);
    let next = rs.take(i + 1);
    assert forall|j: int| 0 <= j < i implies #[trigger] next[j] == prev[j] by {}
    assert(next[i] == rs[i]);
    let vi = version_of(rs[i]);
    match best {
        Some((v, b)) => {
            if precedes(vi, v) {
                assert(next[b as int] == prev[b as int]);
                assert forall|j: int|
                    0 <= j < next.len() && is_candidate(#[trigger] next[j], name) implies !precedes(
                    version_of(next[b as int]),
                    version_of(next[j]),
                ) by {
                    if j < i {
                        assert(prev[j] == next[j]);
                    } else {
                        lemma_release_order_total(vi, v);
                    }
                }
                assert forall|j: int|
                    b < j < next.len() && is_candidate(#[trigger] next[j], name) implies precedes(
                    version_of(next[j]),
                    version_of(next[b as int]),
                ) by {
                    if j < i {
                        assert(prev[j] == next[j]);
                    }
                }
            } else {
                assert forall|j: int|
                    0 <= j < next.len() && is_candidate(#[trigger] next[j], name) implies !precedes(
                    vi,
                    version_of(next[j]),
                ) by {
                    if j < i {
                        assert(prev[j] == next[j]);
                        assert(is_candidate(prev[j], name));
                        let vj = version_of(prev[j]);
                        assert(!precedes(v, vj));
                        lemma_release_order_total(v, vj);
                        lemma_release_order_total(vi, v);
                        if precedes(vi, vj) {
                            if v == vj {
                            } else {
                                lemma_release_order_transitive(vi, vj, v);
                            }
                        }
                    } else {
                        lemma_release_order_total(vi, vi);
                    }
                }
            }
        },
        None => {
            assert forall|j: int|
                0 <= j < next.len() && is_candidate(#[trigger] next[j], name) implies !precedes(
                vi,
                version_of(next[j]),
            ) by {
                if j < i {
                    assert(prev[j] == next[j]);
                } else {
                    lemma_release_order_total(vi, vi);
                }
            }
        },
    }
}

// ---------------------------------------------------------------------------
// Fetching the manifest
// ---------------------------------------------------------------------------

/// The manifest may be fetched over plain HTTP only from the local machine:
/// HTTPS is required unless the URL's host is `127.0.0.1` or `localhost`.
///
/// This is deliberately stricter than matching `127.0.0.1` or `localhost`
/// anywhere in the URL: all downloads are promised over HTTPS, and plain
/// HTTP is only needed for a manifest served on the local machine, so a URL
/// such as `http://evil.example/localhost` still requires HTTPS.
pub open spec fn requires_https(url: Seq<char>) -> bool {
    !is_local_url(url)
}

/// Whether fetching the manifest from `url` must use HTTPS.
pub fn manifest_requires_https(url: &str) -> (b: bool)
    ensures
        b == requires_https(url@),
{
    !url_is_local(url)
}

/// What to do after a fetch attempt of the manifest.
#[derive(Debug, Clone, Copy, PartialEq, Eq, Structural)]
pub enum RetryAction {
    /// The fetch succeeded: hand back the releases.
    ReturnReleases,
    /// The retry limit is reached: hand back the fetch error.
    ReturnError,
    /// Wait for the retry interval, then fetch again.
    WaitAndRetry,
}

/// The decision after attempt number `attempt` (counted from 1).
pub open spec fn retry_decision(attempt: usize, fetched: bool, max_retries: Option<usize>) -> RetryAction {
    if fetched {
        RetryAction::ReturnReleases
    } else if max_retries matches Some(max) && attempt >= max {
        RetryAction::ReturnError
    } else {
        RetryAction::WaitAndRetry
    }
}

/// Decides, after fetch attempt number `attempt` (counted from 1), whether
/// `fetch_with_retry_limit` returns or waits and fetches again.
pub fn retry_action(attempt: usize, fetched: bool, max_retries: Option<usize>) -> (a: RetryAction)
    ensures
        a == retry_decision(attempt, fetched, max_retries),
{
    if fetched {
        return RetryAction::ReturnReleases;
    }
    match max_retries {
        Some(max) => if attempt >= max {
            RetryAction::ReturnError
        } else {
            RetryAction::WaitAndRetry
        },
        None => RetryAction::WaitAndRetry,
    }
}

/// Without a retry limit the fetch is retried forever and never ends in an
/// error: `fetch_until_success` always gets the releases.
pub proof fn lemma_unlimited_retries_never_fail(attempt: usize, fetched: bool)
    ensures
        retry_decision(attempt, fetched, None) != RetryAction::ReturnError,
{
}

/// With a limit of `max` retries and every fetch failing, attempts
/// `1 .. max` are retried and attempt `max` (or the first, when `max` is 0)
/// ends in the error: the manifest is fetched `max(max, 1)` times.
pub proof fn lemma_retry_limit(max: usize, attempt: usize)
    requires
        attempt >= 1,
    ensures
        retry_decision(attempt, false, Some(max)) == (if attempt >= max {
            RetryAction::ReturnError
        } else {
            RetryAction::WaitAndRetry
        }),
        attempt < max ==> retry_decision(attempt, false, Some(max)) == RetryAction::WaitAndRetry,
        attempt == (if max == 0 { 1 } else { max }) ==> retry_decision(attempt, false, Some(max))
            == RetryAction::ReturnError,
{
}

/// The decision after attempt `k` (counted from 1) of a run of fetches whose
/// outcomes are `outcomes` (`outcomes[k - 1]` for attempt `k`).
pub open spec fn decision_at(outcomes: Seq<bool>, k: int, max_retries: Option<usize>) -> RetryAction {
    retry_decision(k as usize, outcomes[k - 1], max_retries)
}

/// A run of fetches ends after attempt `k`: every earlier attempt was
/// followed by a wait and another fetch, and attempt `k` was not.
pub open spec fn run_ends_at(outcomes: Seq<bool>, max_retries: Option<usize>, k: int) -> bool {
    &&& 1 <= k
    &&& forall|j: int| 1 <= j < k ==> #[trigger] decision_at(outcomes, j, max_retries) == RetryAction::WaitAndRetry
    &&& decision_at(outcomes, k, max_retries) != RetryAction::WaitAndRetry
}

/// The number of attempts a retry limit allows: `max`, and at least one.
pub open spec fn attempts_allowed(max: usize) -> int {
    if max == 0 { 1 } else { max as int }
}

/// A whole run of manifest fetches: when attempt `k` is the first that
/// succeeds and the limit (if any) allows `k` attempts, the run ends after
/// exactly `k` fetches with the releases, having waited `k - 1` times; when
/// all `attempts_allowed(max)` attempts fail under a limit `max`, the run
/// ends after exactly that many fetches with the last error. Without a limit
/// no attempt ever ends the run with an error.
pub proof fn lemma_retry_run(outcomes: Seq<bool>, max_retries: Option<usize>, k: int)
    requires
        1 <= k <= outcomes.len(),
        k <= usize::MAX,
    ensures
        outcomes[k - 1] && (forall|j: int| 0 <= j < k - 1 ==> !#[trigger] outcomes[j]) && (
        max_retries matches Some(m) ==> k <= attempts_allowed(m)) ==> run_ends_at(
            outcomes,
            max_retries,
            k,
        ) && decision_at(outcomes, k, max_retries) == RetryAction::ReturnReleases,
        max_retries matches Some(m) && k == attempts_allowed(m) && (forall|j: int|
            0 <= j < k ==> !#[trigger] outcomes[j]) ==> run_ends_at(outcomes, max_retries, k)
            && decision_at(outcomes, k, max_retries) == RetryAction::ReturnError,
        max_retries is None ==> forall|j: int|
            1 <= j <= k ==> #[trigger] decision_at(outcomes, j, max_retries) != RetryAction::ReturnError,
{
    assert forall|j: int| 1 <= j < k && !outcomes[j - 1] && (max_retries matches Some(m) ==> k <= attempts_allowed(m)) implies #[trigger] decision_at(
        outcomes,
        j,
        max_retries,
    ) == RetryAction::WaitAndRetry by {
        assert((j as usize) as int == j);
    }
    if let Some(m) = max_retries {
        if k == attempts_allowed(m) && (forall|j: int| 0 <= j < k ==> !#[trigger] outcomes[j]) {
            assert forall|j: int| 1 <= j < k implies #[trigger] decision_at(outcomes, j, max_retries)
                == RetryAction::WaitAndRetry by {
                assert(!outcomes[j - 1]);
                assert((j as usize) as int == j);
            }
            assert(!outcomes[k - 1]);
        }
        if outcomes[k - 1] && (forall|j: int| 0 <= j < k - 1 ==> !#[trigger] outcomes[j]) && k <= attempts_allowed(m) {
            assert forall|j: int| 1 <= j < k implies #[trigger] decision_at(outcomes, j, max_retries)
                == RetryAction::WaitAndRetry by {
                assert(!outcomes[j - 1]);
                assert((j as usize) as int == j);
            }
        }
    } else {
        if outcomes[k - 1] && (forall|j: int| 0 <= j < k - 1 ==> !#[trigger] outcomes[j]) {
            assert forall|j: int| 1 <= j < k implies #[trigger] decision_at(outcomes, j, max_retries)
                == RetryAction::WaitAndRetry by {
                assert(!outcomes[j - 1]);
            }
        }
    }
}

} // verus!
