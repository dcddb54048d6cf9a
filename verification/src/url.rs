//! The host a URL names: `scheme://[userinfo@]host[:port][/path][?query][#fragment]`.
use vstd::prelude::*;

use crate::text::{chars_of, first_index, lemma_first_index_at, lemma_first_index_none, find_char, slice_eq};

verus! {

/// A character that ends the authority part of a URL (`\` counts as `/`
/// in `http` and `https` URLs).
pub open spec fn ends_authority(c: char) -> bool {
    c == '/' || c == '\\' || c == '?' || c == '#'
}

/// The position of the first character of `s` that ends an authority.
pub open spec fn first_authority_end(s: Seq<char>) -> Option<int>
    decreases s.len(),
{
    if s.len() == 0 {
        None
    } else {
        match first_authority_end(s.drop_last()) {
            Some(i) => Some(i),
            None => if ends_authority(s.last()) {
                Some(s.len() - 1)
            } else {
                None
            },
        }
    }
}

/// The position of the last `c` in `s`.
pub open spec fn last_index(s: Seq<char>, c: char) -> Option<int>
    decreases s.len(),
{
    if s.len() == 0 {
        None
    } else if s.last() == c {
        Some(s.len() - 1)
    } else {
        last_index(s.drop_last(), c)
    }
}

/// The host of `url`: after the scheme's `://`, up to the end of the
/// authority, after the last `@` (user information), before the first `:`
/// (port). `None` when the URL has no `://` right after its scheme.
pub open spec fn url_host(url: Seq<char>) -> Option<Seq<char>> {
    match first_index(url, ':') {
        None => None,
        Some(i) => if i + 3 <= url.len() && url[i + 1] == '/' && url[i + 2] == '/' {
            let rest = url.subrange(i + 3, url.len() as int);
            let authority = match first_authority_end(rest) {
                Some(e) => rest.subrange(0, e),
                None => rest,
            };
            let host_port = match last_index(authority, '@') {
                Some(a) => authority.subrange(a + 1, authority.len() as int),
                None => authority,
            };
            Some(
                match first_index(host_port, ':') {
                    Some(p) => host_port.subrange(0, p),
                    None => host_port,
                },
            )
        } else {
            None
        },
    }
}

/// A URL whose host is the local machine (`127.0.0.1` or `localhost`).
pub open spec fn is_local_url(url: Seq<char>) -> bool {
    url_host(url) == Some("127.0.0.1"@) || url_host(url) == Some("localhost"@)
}

proof fn lemma_first_authority_end(s: Seq<char>)
    ensures
        match first_authority_end(s) {
            Some(i) => 0 <= i < s.len() && ends_authority(s[i]) && forall|k: int|
                0 <= k < i ==> !ends_authority(#[trigger] s[k]),
            None => forall|k: int| 0 <= k < s.len() ==> !ends_authority(#[trigger] s[k]),
        },
    decreases s.len(),
{
    if s.len() > 0 {
        let t = s.drop_last();
        lemma_first_authority_end(t);
        assert forall|k: int| 0 <= k < t.len() implies t[k] == s[k] by {}
    }
}

proof fn lemma_first_authority_end_at(s: Seq<char>, i: int)
    requires
        0 <= i <= s.len(),
        forall|k: int| 0 <= k < i ==> !ends_authority(#[trigger] s[k]),
        i == s.len() || ends_authority(s[i]),
    ensures
        first_authority_end(s) == (if i == s.len() { None } else { Some(i) }),
{
    lemma_first_authority_end(s);
    match first_authority_end(s) {
        Some(j) => {
            if j < i {
                assert(!ends_authority(s[j]));
            }
            if j > i {
                assert(!ends_authority(s[i]));
            }
        },
        None => {
            if i < s.len() {
                assert(!ends_authority(s[i]));
            }
        },
    }
}

proof fn lemma_last_index(s: Seq<char>, c: char)
    ensures
        match last_index(s, c) {
            Some(i) => 0 <= i < s.len() && s[i] == c && forall|k: int| i < k < s.len() ==> #[trigger] s[k] != c,
            None => forall|k: int| 0 <= k < s.len() ==> #[trigger] s[k] != c,
        },
    decreases s.len(),
{
    if s.len() > 0 && s.last() != c {
        let t = s.drop_last();
        lemma_last_index(t, c);
        assert forall|k: int| 0 <= k < t.len() implies t[k] == s[k] by {}
    }
}

proof fn lemma_last_index_at(s: Seq<char>, c: char, i: int)
    requires
        -1 <= i < s.len(),
        forall|k: int| i < k < s.len() ==> #[trigger] s[k] != c,
        i == -1 || s[i] == c,
    ensures
        last_index(s, c) == (if i == -1 { None } else { Some(i) }),
{
    lemma_last_index(s, c);
    match last_index(s, c) {
        Some(j) => {
            if j < i {
                assert(s[i] != c);
            }
            if j > i {
                assert(s[j] != c);
            }
        },
        None => {
            if i >= 0 {
                assert(s[i] != c);
            }
        },
    }
}

/// Where the host of the URL `s` lies in `s`.
fn host_range(s: &Vec<char>) -> (r: Option<(usize, usize)>)
    ensures
        match url_host(s@) {
            None => r is None,
            Some(h) => r matches Some((a, b)) && a <= b <= s@.len() && s@.subrange(a as int, b as int) == h,
        },
{
    let n = s.len();
    assert(s@.subrange(0, n as int) =~= s@);
    let i = match find_char(s, 0, n, ':') {
        None => return None,
        Some(i) => i,
    };
    if !(n - i >= 3 && s[i + 1] == '/' && s[i + 2] == '/') {
        return None;
    }
    let ghost rest = s@.subrange(i + 3, n as int);
    // End of the authority.
    let start = i + 3;
    let mut e = start;
    while e < n && !(s[e] == '/' || s[e] == '\\' || s[e] == '?' || s[e] == '#')
        invariant
            start <= e <= n == s@.len(),
            forall|k: int| start <= k < e ==> !ends_authority(#[trigger] s@[k]),
        decreases n - e,
    {
        e += 1;
    }
    proof {
        assert forall|k: int| 0 <= k < e - start implies !ends_authority(#[trigger] rest[k]) by {
            assert(rest[k] == s@[start + k]);
        }
        if e < n {
            assert(rest[e - start] == s@[e as int]);
        }
        lemma_first_authority_end_at(rest, e - start);
    }
    let ghost authority = s@.subrange(start as int, e as int);
    assert(authority =~= (match first_authority_end(rest) {
        Some(x) => rest.subrange(0, x),
        None => rest,
    }));
    // After the last `@`.
    let mut a = e;
    while a > start && s[a - 1] != '@'
        invariant
            start <= a <= e,
            e <= s@.len(),
            forall|k: int| a <= k < e ==> #[trigger] s@[k] != '@',
        decreases a - start,
    {
        a -= 1;
    }
    proof {
        assert forall|k: int| a - start <= k < authority.len() implies #[trigger] authority[k] != '@' by {
            assert(authority[k] == s@[start + k]);
        }
        if a > start {
            assert(authority[a - start - 1] == s@[a - 1]);
        }
        lemma_last_index_at(authority, '@', a - start - 1);
    }
    let ghost host_port = s@.subrange(a as int, e as int);
    assert(host_port =~= (match last_index(authority, '@') {
        Some(x) => authority.subrange(x + 1, authority.len() as int),
        None => authority,
    }));
    // Before the first `:`.
    match find_char(s, a, e, ':') {
        Some(p) => {
            assert(host_port.subrange(0, p - a) =~= s@.subrange(a as int, p as int));
            Some((a, p))
        },
        None => Some((a, e)),
    }
}

/// Whether the URL's host is `127.0.0.1` or `localhost`.
pub fn url_is_local(url: &str) -> (b: bool)
    ensures
        b == is_local_url(url@),
{
    let s = chars_of(url);
    let ip = chars_of("127.0.0.1");
    let name = chars_of("localhost");
    match host_range(&s) {
        None => false,
        Some((a, b)) => slice_eq(&s, a, b, &ip) || slice_eq(&s, a, b, &name),
    }
}

} // verus!
