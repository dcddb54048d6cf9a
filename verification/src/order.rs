//! The release order of versions: field by field, and a base release before
//! its revisions (`1.7.0 < 1.7.0r1 < 1.7.0r2 < 1.7.1`).
use vstd::prelude::*;

use std::cmp::Ordering;

use crate::version::RadegastVersion;

verus! {

/// Revision `a` comes before revision `b`: no revision before any, then by number.
pub open spec fn revision_precedes(a: Option<u64>, b: Option<u64>) -> bool {
    match (a, b) {
        (None, Some(_)) => true,
        (Some(x), Some(y)) => x < y,
        _ => false,
    }
}

/// `a` is an older release than `b`.
pub open spec fn precedes(a: RadegastVersion, b: RadegastVersion) -> bool {
    ||| a.major < b.major
    ||| a.major == b.major && a.minor < b.minor
    ||| a.major == b.major && a.minor == b.minor && a.patch < b.patch
    ||| a.major == b.major && a.minor == b.minor && a.patch == b.patch && revision_precedes(
        a.revision,
        b.revision,
    )
}

/// How `a` compares with `b` in release order.
pub open spec fn release_order(a: RadegastVersion, b: RadegastVersion) -> Ordering {
    if precedes(a, b) {
        Ordering::Less
    } else if a == b {
        Ordering::Equal
    } else {
        Ordering::Greater
    }
}

impl RadegastVersion {
    /// Whether `self` is an older release than `other`.
    pub fn is_older_than(&self, other: &RadegastVersion) -> (b: bool)
        ensures
            b == precedes(*self, *other),
    {
        if self.major != other.major {
            return self.major < other.major;
        }
        if self.minor != other.minor {
            return self.minor < other.minor;
        }
        if self.patch != other.patch {
            return self.patch < other.patch;
        }
        match (self.revision, other.revision) {
            (None, Some(_)) => true,
            (Some(x), Some(y)) => x < y,
            _ => false,
        }
    }

    /// Three-way comparison in release order.
    pub fn compare(&self, other: &RadegastVersion) -> (o: Ordering)
        ensures
            o == release_order(*self, *other),
    {
        if self.is_older_than(other) {
            Ordering::Less
        } else if other.is_older_than(self) {
            proof {
                lemma_release_order_total(*self, *other);
            }
            Ordering::Greater
        } else {
            proof {
                lemma_release_order_total(*self, *other);
            }
            Ordering::Equal
        }
    }
}

impl PartialOrd for RadegastVersion {
    fn partial_cmp(&self, other: &RadegastVersion) -> (r: Option<Ordering>) {
        Some(self.compare(other))
    }
}

impl vstd::std_specs::cmp::PartialOrdSpecImpl for RadegastVersion {
    open spec fn obeys_partial_cmp_spec() -> bool {
        true
    }

    open spec fn partial_cmp_spec(&self, other: &RadegastVersion) -> Option<Ordering> {
        Some(release_order(*self, *other))
    }
}

/// Release order is a strict total order: never `a < a`; `a < b` and `b < c`
/// give `a < c`; and any two versions are equal or one precedes the other,
/// but not both.
pub proof fn lemma_release_order_total(a: RadegastVersion, b: RadegastVersion)
    ensures
        !precedes(a, a),
        precedes(a, b) ==> !precedes(b, a),
        a == b || precedes(a, b) || precedes(b, a),
        a == b ==> !precedes(a, b),
{
}

/// Release order is transitive.
pub proof fn lemma_release_order_transitive(
    a: RadegastVersion,
    b: RadegastVersion,
    c: RadegastVersion,
)
    requires
        precedes(a, b),
        precedes(b, c),
    ensures
        precedes(a, c),
{
}

/// A base release precedes each of its revisions, and revisions of one
/// release follow their numbers.
pub proof fn lemma_base_before_revisions(v: RadegastVersion, r: u64, s: u64)
    ensures
        precedes(
            RadegastVersion { revision: None, ..v },
            RadegastVersion { revision: Some(r), ..v },
        ),
        precedes(
            RadegastVersion { revision: Some(r), ..v },
            RadegastVersion { revision: Some(s), ..v },
        ) == (r < s),
{
}

/// Release order compares the major, minor and patch numbers as numbers, in
/// that order, the first difference deciding; for equal numbers a base
/// release comes before any revision and revisions follow their numbers.
pub proof fn lemma_release_order_by_fields(a: RadegastVersion, b: RadegastVersion)
    ensures
        a.major < b.major ==> precedes(a, b),
        a.major > b.major ==> !precedes(a, b),
        a.major == b.major && a.minor < b.minor ==> precedes(a, b),
        a.major == b.major && a.minor > b.minor ==> !precedes(a, b),
        a.major == b.major && a.minor == b.minor && a.patch < b.patch ==> precedes(a, b),
        a.major == b.major && a.minor == b.minor && a.patch > b.patch ==> !precedes(a, b),
        a.major == b.major && a.minor == b.minor && a.patch == b.patch ==> {
            &&& a.revision is None && b.revision is Some ==> precedes(a, b)
            &&& a.revision is Some && b.revision is None ==> !precedes(a, b)
            &&& a.revision is None && b.revision is None ==> !precedes(a, b)
            &&& forall|x: u64, y: u64|
                a.revision == Some(x) && b.revision == Some(y) ==> (precedes(a, b) <==> x < y)
        },
{
}

} // verus!
