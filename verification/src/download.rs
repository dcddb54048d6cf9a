//! Where a release archive is downloaded from.
use vstd::prelude::*;

use crate::platform::Platform;
use crate::text::{chars_of, push_char, string_of};

verus! {

/// `s` with every trailing `c` removed (`str::trim_end_matches`).
pub open spec fn strip_trailing(s: Seq<char>, c: char) -> Seq<char>
    decreases s.len(),
{
    if s.len() > 0 && s.last() == c {
        strip_trailing(s.drop_last(), c)
    } else {
        s
    }
}

/// The download URL of a release archive:
/// `{base without trailing slashes}/public/releases/{version}/{os}/{arch}/download`.
pub open spec fn download_url_of(base: Seq<char>, version: Seq<char>, os: Seq<char>, arch: Seq<char>) -> Seq<char> {
    strip_trailing(base, '/') + "/public/releases/"@ + version + seq!['/'] + os + seq!['/'] + arch
        + "/download"@
}

proof fn lemma_strip_trailing_at(s: Seq<char>, c: char, b: int)
    requires
        0 <= b <= s.len(),
        forall|k: int| b <= k < s.len() ==> #[trigger] s[k] == c,
        b == 0 || s[b - 1] != c,
    ensures
        strip_trailing(s, c) == s.subrange(0, b),
    decreases s.len() - b,
{
    if b == s.len() {
        assert(s.subrange(0, b) =~= s);
    } else {
        let t = s.drop_last();
        assert forall|k: int| b <= k < t.len() implies #[trigger] t[k] == c by {
            assert(t[k] == s[k]);
        }
        if b > 0 {
            assert(t[b - 1] == s[b - 1]);
        }
        lemma_strip_trailing_at(t, c, b);
        assert(t.subrange(0, b) =~= s.subrange(0, b));
    }
}

/// The URL `fetch_binary` downloads the archive of `version` for `platform` from.
pub fn release_download_url(download_url: &str, version: &str, platform: &Platform) -> (r: String)
    ensures
        r@ == download_url_of(download_url@, version@, platform.os@, platform.arch@),
{
    let cs = chars_of(download_url);
    let mut b = cs.len();
    while b > 0 && cs[b - 1] == '/'
        invariant
            b <= cs@.len(),
            forall|k: int| b <= k < cs@.len() ==> #[trigger] cs@[k] == '/',
        decreases b,
    {
        b -= 1;
    }
    proof {
        lemma_strip_trailing_at(cs@, '/', b as int);
    }
    let mut r = string_of(&cs, 0, b);
    r.append("/public/releases/");
    r.append(version);
    push_char(&mut r, '/');
    r.append(platform.os);
    push_char(&mut r, '/');
    r.append(platform.arch);
    r.append("/download");
    assert(r@ =~= download_url_of(download_url@, version@, platform.os@, platform.arch@));
    r
}

} // verus!
