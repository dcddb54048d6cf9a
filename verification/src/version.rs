//! Rustinel release versions: `MAJOR.MINOR.PATCH` with an optional `rN`
//! revision suffix (e.g. `1.7.0` or `1.7.0r1`), parsing and printing.
use vstd::prelude::*;

use crate::text::{
    lemma_decimal_digits, lemma_first_index_at, lemma_first_index_none, lemma_parse_decimal,
    lemma_split_on_append_plain, lemma_split_on_append_sep, lemma_strip_leading_at, lemma_trim_end_at,
    lemma_trim_start_at, is_ws,
    chars_of, find_char, first_index, is_digit, parse_u64, parse_u64_slice, push_char,
    push_decimal, split_on, split_ranges, strip_leading, trim, trim_bounds, word_ranges, words,
    decimal,
};

verus! {

/// A Rustinel version. `revision` is the `rN` part; `None` is the base release.
#[derive(Debug, Clone, Copy, PartialEq, Eq, Ord, Structural)]
pub struct RadegastVersion {
    pub major: u64,
    pub minor: u64,
    pub patch: u64,
    pub revision: Option<u64>,
}

/// Why a version string was rejected.
#[derive(Debug, Clone, Copy, PartialEq, Eq, Structural)]
pub enum VersionError {
    /// The base part does not have exactly three dot-separated fields.
    InvalidFormat,
    InvalidMajor,
    InvalidMinor,
    InvalidPatch,
    InvalidRevision,
    /// No word of a `--version` output starts with a digit (after `v`s).
    NoVersionFound,
}

// ---------------------------------------------------------------------------
// Specification
// ---------------------------------------------------------------------------

/// The version given by the three fields of `base` and the revision text `rev`.
pub open spec fn version_from_parts(base: Seq<char>, rev: Option<Seq<char>>) -> Result<
    RadegastVersion,
    VersionError,
> {
    let parts = split_on(base, '.');
    if parts.len() != 3 {
        Err(VersionError::InvalidFormat)
    } else {
        match parse_u64(parts[0]) {
            None => Err(VersionError::InvalidMajor),
            Some(major) => match parse_u64(parts[1]) {
                None => Err(VersionError::InvalidMinor),
                Some(minor) => match parse_u64(parts[2]) {
                    None => Err(VersionError::InvalidPatch),
                    Some(patch) => match rev {
                        None => Ok(RadegastVersion { major, minor, patch, revision: None }),
                        Some(r) => match parse_u64(r) {
                            None => Err(VersionError::InvalidRevision),
                            Some(n) => Ok(RadegastVersion { major, minor, patch, revision: Some(n) }),
                        },
                    },
                },
            },
        }
    }
}

/// What `RadegastVersion::parse` gives for `s`: surrounding whitespace and
/// leading `v`s are dropped; the text before the first `r` is the base, the
/// text after it the revision.
pub open spec fn parse_version(s: Seq<char>) -> Result<RadegastVersion, VersionError> {
    let t = strip_leading(trim(s), 'v');
    match first_index(t, 'r') {
        Some(i) => version_from_parts(t.subrange(0, i), Some(t.subrange(i + 1, t.len() as int))),
        None => version_from_parts(t, None),
    }
}

/// The manifest form of a version: `1.7.0r1` or `1.7.0`.
pub open spec fn manifest_string(v: RadegastVersion) -> Seq<char> {
    let base = decimal(v.major as nat) + seq!['.'] + decimal(v.minor as nat) + seq!['.'] + decimal(
        v.patch as nat,
    );
    match v.revision {
        Some(r) => base + seq!['r'] + decimal(r as nat),
        None => base,
    }
}

/// A word that looks like a version: after its leading `v`s comes a digit.
pub open spec fn is_version_word(w: Seq<char>) -> bool {
    let t = strip_leading(w, 'v');
    t.len() > 0 && is_digit(t[0])
}

/// The first version-like word of `ws`.
pub open spec fn first_version_word(ws: Seq<Seq<char>>) -> Option<Seq<char>>
    decreases ws.len(),
{
    if ws.len() == 0 {
        None
    } else {
        match first_version_word(ws.drop_last()) {
            Some(w) => Some(w),
            None => if is_version_word(ws.last()) {
                Some(ws.last())
            } else {
                None
            },
        }
    }
}

/// What `parse_version_output` gives for a `--version` output `s`.
pub open spec fn parse_version_output_spec(s: Seq<char>) -> Result<RadegastVersion, VersionError> {
    match first_version_word(words(s)) {
        None => Err(VersionError::NoVersionFound),
        Some(w) => parse_version(w),
    }
}

// ---------------------------------------------------------------------------
// Implementation
// ---------------------------------------------------------------------------

/// The version in `s[lo..hi]`.
fn parse_slice(s: &Vec<char>, lo: usize, hi: usize) -> (r: Result<RadegastVersion, VersionError>)
    requires
        lo <= hi <= s@.len(),
    ensures
        r == parse_version(s@.subrange(lo as int, hi as int)),
{
    let ghost w = s@.subrange(lo as int, hi as int);
    let (a, b) = trim_bounds(s, lo, hi);
    let mut a2 = a;
    while a2 < b && s[a2] == 'v'
        invariant
            a <= a2 <= b <= s@.len(),
            forall|k: int| a <= k < a2 ==> #[trigger] s@[k] == 'v',
        decreases b - a2,
    {
        a2 += 1;
    }
    proof {
        let u = s@.subrange(a as int, b as int);
        assert forall|k: int| 0 <= k < a2 - a implies #[trigger] u[k] == 'v' by {
            assert(u[k] == s@[a + k]);
        }
        if a2 < b {
            assert(u[a2 - a] == s@[a2 as int]);
        }
        crate::text::lemma_strip_leading_at(u, 'v', a2 - a);
        assert(u.subrange(a2 - a, u.len() as int) =~= s@.subrange(a2 as int, b as int));
    }
    let ghost t = s@.subrange(a2 as int, b as int);
    assert(t == strip_leading(trim(w), 'v'));
    match find_char(s, a2, b, 'r') {
        Some(i) => {
            assert(t.subrange(0, i - a2) =~= s@.subrange(a2 as int, i as int));
            assert(t.subrange(i - a2 + 1, t.len() as int) =~= s@.subrange(i + 1, b as int));
            parse_fields(s, a2, i, Some((i + 1, b)))
        },
        None => parse_fields(s, a2, b, None),
    }
}

/// The version given by the fields of `s[lo..hi]` and the revision text at `rev`.
fn parse_fields(s: &Vec<char>, lo: usize, hi: usize, rev: Option<(usize, usize)>) -> (r: Result<
    RadegastVersion,
    VersionError,
>)
    requires
        lo <= hi <= s@.len(),
        rev matches Some((x, y)) ==> x <= y <= s@.len(),
    ensures
        r == version_from_parts(
            s@.subrange(lo as int, hi as int),
            match rev {
                Some((x, y)) => Some(s@.subrange(x as int, y as int)),
                None => None,
            },
        ),
{
    let parts = split_ranges(s, lo, hi, '.');
    if parts.len() != 3 {
        return Err(VersionError::InvalidFormat);
    }
    let major = match parse_u64_slice(s, parts[0].0, parts[0].1) {
        Some(v) => v,
        None => return Err(VersionError::InvalidMajor),
    };
    let minor = match parse_u64_slice(s, parts[1].0, parts[1].1) {
        Some(v) => v,
        None => return Err(VersionError::InvalidMinor),
    };
    let patch = match parse_u64_slice(s, parts[2].0, parts[2].1) {
        Some(v) => v,
        None => return Err(VersionError::InvalidPatch),
    };
    match rev {
        None => Ok(RadegastVersion { major, minor, patch, revision: None }),
        Some((x, y)) => match parse_u64_slice(s, x, y) {
            None => Err(VersionError::InvalidRevision),
            Some(n) => Ok(RadegastVersion { major, minor, patch, revision: Some(n) }),
        },
    }
}

impl RadegastVersion {
    /// Parses `1.7.0`, `1.7.0r1`, `v1.7.0r1`, with surrounding whitespace allowed.
    pub fn parse(s: &str) -> (r: Result<RadegastVersion, VersionError>)
        ensures
            r == parse_version(s@),
    {
        let cs = chars_of(s);
        let r = parse_slice(&cs, 0, cs.len());
        assert(cs@.subrange(0, cs@.len() as int) =~= s@);
        r
    }

    /// The manifest form, e.g. `1.7.0r1` or `1.7.0`.
    pub fn to_manifest_string(&self) -> (out: String)
        ensures
            out@ == manifest_string(*self),
    {
        let mut out = String::new();
        push_decimal(&mut out, self.major);
        push_char(&mut out, '.');
        push_decimal(&mut out, self.minor);
        push_char(&mut out, '.');
        push_decimal(&mut out, self.patch);
        match self.revision {
            Some(r) => {
                push_char(&mut out, 'r');
                push_decimal(&mut out, r);
            },
            None => {},
        }
        proof {
            let base = decimal(self.major as nat) + seq!['.'] + decimal(self.minor as nat) + seq!['.']
                + decimal(self.patch as nat);
            match self.revision {
                Some(r) => {
                    assert(out@ =~= base + seq!['r'] + decimal(r as nat));
                },
                None => {
                    assert(out@ =~= base);
                },
            }
        }
        out
    }
}

/// Whether `s[lo..hi]` is a version-like word.
fn is_version_word_slice(s: &Vec<char>, lo: usize, hi: usize) -> (b: bool)
    requires
        lo <= hi <= s@.len(),
    ensures
        b == is_version_word(s@.subrange(lo as int, hi as int)),
{
    let mut a = lo;
    while a < hi && s[a] == 'v'
        invariant
            lo <= a <= hi <= s@.len(),
            forall|k: int| lo <= k < a ==> #[trigger] s@[k] == 'v',
        decreases hi - a,
    {
        a += 1;
    }
    proof {
        let u = s@.subrange(lo as int, hi as int);
        assert forall|k: int| 0 <= k < a - lo implies #[trigger] u[k] == 'v' by {
            assert(u[k] == s@[lo + k]);
        }
        if a < hi {
            assert(u[a - lo] == s@[a as int]);
        }
        crate::text::lemma_strip_leading_at(u, 'v', a - lo);
        assert(u.subrange(a - lo, u.len() as int) =~= s@.subrange(a as int, hi as int));
    }
    a < hi && '0' <= s[a] && s[a] <= '9'
}

/// Parses the version from the output of `rustinel --version`
/// (e.g. `rustinel 1.7.1r1`): the first word that starts with a digit, after
/// any leading `v`s.
pub fn parse_version_output(stdout: &str) -> (r: Result<RadegastVersion, VersionError>)
    ensures
        r == parse_version_output_spec(stdout@),
{
    let cs = chars_of(stdout);
    let ws = word_ranges(&cs, 0, cs.len());
    let ghost all = words(cs@.subrange(0, cs@.len() as int));
    assert(cs@.subrange(0, cs@.len() as int) =~= stdout@);
    let mut i: usize = 0;
    while i < ws.len()
        invariant
            i <= ws@.len() == all.len(),
            all == words(stdout@),
            forall|k: int|
                0 <= k < ws@.len() ==> {
                    &&& 0 <= (#[trigger] ws@[k]).0 <= ws@[k].1 <= cs@.len()
                    &&& cs@.subrange(ws@[k].0 as int, ws@[k].1 as int) == all[k]
                },
            first_version_word(all.take(i as int)) is None,
        decreases ws@.len() - i,
    {
        let (lo, hi) = ws[i];
        assert(all.take(i + 1).drop_last() =~= all.take(i as int));
        if is_version_word_slice(&cs, lo, hi) {
            proof {
                lemma_first_version_word_prefix(all, i + 1);
            }
            return parse_slice(&cs, lo, hi);
        }
        i += 1;
    }
    assert(all.take(i as int) =~= all);
    Err(VersionError::NoVersionFound)
}

/// A version-like word found in a prefix is the first one of the whole list.
proof fn lemma_first_version_word_prefix(ws: Seq<Seq<char>>, n: int)
    requires
        0 <= n <= ws.len(),
        first_version_word(ws.take(n)) is Some,
    ensures
        first_version_word(ws) == first_version_word(ws.take(n)),
    decreases ws.len() - n,
{
    if n < ws.len() {
        assert(ws.take(n + 1).drop_last() =~= ws.take(n));
        lemma_first_version_word_prefix(ws, n + 1);
    } else {
        assert(ws.take(n) =~= ws);
    }
}

// ---------------------------------------------------------------------------
// Laws
// ---------------------------------------------------------------------------

/// Splitting `a.b.c` on `.` gives `a`, `b`, `c` when none of them holds a dot.
proof fn lemma_split_three(a: Seq<char>, b: Seq<char>, c: Seq<char>)
    requires
        forall|k: int| 0 <= k < a.len() ==> #[trigger] a[k] != '.',
        forall|k: int| 0 <= k < b.len() ==> #[trigger] b[k] != '.',
        forall|k: int| 0 <= k < c.len() ==> #[trigger] c[k] != '.',
    ensures
        split_on(a + seq!['.'] + b + seq!['.'] + c, '.') == seq![a, b, c],
{
    let e = Seq::<char>::empty();
    lemma_split_on_append_plain(e, a, '.');
    assert(e + a =~= a);
    assert(split_on(e, '.') =~= seq![e]);
    assert(split_on(a, '.') =~= seq![a]);
    lemma_split_on_append_sep(a, '.');
    let x1 = a.push('.');
    assert(split_on(x1, '.') =~= seq![a, e]);
    lemma_split_on_append_plain(x1, b, '.');
    assert(e + b =~= b);
    let x2 = x1 + b;
    assert(split_on(x2, '.') =~= seq![a, b]);
    lemma_split_on_append_sep(x2, '.');
    let x3 = x2.push('.');
    assert(split_on(x3, '.') =~= seq![a, b, e]);
    lemma_split_on_append_plain(x3, c, '.');
    assert(split_on(x3 + c, '.') =~= seq![a, b, c]);
    assert(x3 + c =~= a + seq!['.'] + b + seq!['.'] + c);
}

/// A character of a decimal rendering is a digit.
proof fn lemma_decimal_char(n: nat, k: int)
    requires
        0 <= k < decimal(n).len(),
    ensures
        is_digit(decimal(n)[k]),
        !is_ws(decimal(n)[k]),
{
    lemma_decimal_digits(n);
    assert(is_digit(decimal(n)[k]));
}

/// Parsing the manifest form of a version gives the version back.
pub proof fn lemma_parse_manifest_string(v: RadegastVersion)
    ensures
        parse_version(manifest_string(v)) == Ok::<RadegastVersion, VersionError>(v),
{
    let dm = decimal(v.major as nat);
    let dn = decimal(v.minor as nat);
    let dp = decimal(v.patch as nat);
    lemma_decimal_digits(v.major as nat);
    lemma_decimal_digits(v.minor as nat);
    lemma_decimal_digits(v.patch as nat);
    let base = dm + seq!['.'] + dn + seq!['.'] + dp;
    let s = manifest_string(v);
    assert forall|k: int| 0 <= k < dm.len() implies #[trigger] dm[k] != '.' && dm[k] != 'r' && dm[k] != 'v' && !is_ws(dm[k]) by {
        lemma_decimal_char(v.major as nat, k);
    }
    assert forall|k: int| 0 <= k < dn.len() implies #[trigger] dn[k] != '.' && dn[k] != 'r' && dn[k] != 'v' && !is_ws(dn[k]) by {
        lemma_decimal_char(v.minor as nat, k);
    }
    assert forall|k: int| 0 <= k < dp.len() implies #[trigger] dp[k] != '.' && dp[k] != 'r' && dp[k] != 'v' && !is_ws(dp[k]) by {
        lemma_decimal_char(v.patch as nat, k);
    }
    assert forall|k: int| 0 <= k < base.len() implies #[trigger] base[k] != 'r' by {
        if k < dm.len() {
            assert(base[k] == dm[k]);
        } else if k == dm.len() {
        } else if k < dm.len() + 1 + dn.len() {
            assert(base[k] == dn[k - dm.len() - 1]);
        } else if k == dm.len() + 1 + dn.len() {
        } else {
            assert(base[k] == dp[k - dm.len() - 2 - dn.len()]);
        }
    }
    lemma_split_three(dm, dn, dp);
    lemma_parse_decimal(v.major);
    lemma_parse_decimal(v.minor);
    lemma_parse_decimal(v.patch);
    // The string starts with a digit and ends with one.
    assert(s[0] == dm[0]);
    assert(!is_ws(s[0]));
    assert(s[0] != 'v');
    lemma_trim_start_at(s, 0);
    assert(s.subrange(0, s.len() as int) =~= s);
    match v.revision {
        Some(r) => {
            let dr = decimal(r as nat);
            lemma_decimal_digits(r as nat);
            lemma_decimal_char(r as nat, dr.len() - 1);
            assert(s == base + seq!['r'] + dr);
            assert(s.last() == dr.last());
            lemma_trim_end_at(s, s.len() as int);
            assert(trim(s) == s);
            lemma_strip_leading_at(s, 'v', 0);
            assert(strip_leading(trim(s), 'v') == s);
            assert forall|k: int| 0 <= k < base.len() implies #[trigger] s[k] != 'r' by {
                assert(s[k] == base[k]);
            }
            lemma_first_index_at(s, 'r', base.len() as int);
            assert(s.subrange(0, base.len() as int) =~= base);
            assert(s.subrange(base.len() as int + 1, s.len() as int) =~= dr);
            lemma_parse_decimal(r);
        },
        None => {
            assert(s == base);
            assert(s.last() == dp.last());
            lemma_decimal_char(v.patch as nat, dp.len() - 1);
            lemma_trim_end_at(s, s.len() as int);
            assert(trim(s) == s);
            lemma_strip_leading_at(s, 'v', 0);
            assert(strip_leading(trim(s), 'v') == s);
            lemma_first_index_none(s, 'r');
        },
    }
}

} // verus!
