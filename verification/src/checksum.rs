//! Checking a downloaded archive against the signed checksum list of its release.
use vstd::prelude::*;

use sha2::{Digest, Sha256};

use crate::platform::{archive_name_of, Platform};
use crate::text::{
    chars_of, is_ws, lemma_words_trailing_ws, line_ranges, lines, slice_eq, string_of, word_ranges,
    words,
};

verus! {

/// The SHA-256 digest of `data`.
pub uninterp spec fn sha256(data: Seq<u8>) -> Seq<u8>;

/// SHA-256 of `data`, through `sha2::Sha256::digest`: the result is
/// `sha256(data)` and has 32 bytes (the digest's output type is a 32-byte array).
#[verifier::external_body]
fn sha256_digest(data: &[u8]) -> (d: Vec<u8>)
    ensures
        d@ == sha256(data@),
        d@.len() == 32,
{
    Sha256::digest(data).to_vec()
}

/// The lower-case hex digit for a nibble.
pub open spec fn hex_digit(n: u8) -> char {
    if n < 10 {
        ('0' as u8 + n) as char
    } else {
        ('a' as u8 + (n - 10)) as char
    }
}

/// Lower-case hex of `data`, two digits per byte, high nibble first.
pub open spec fn hex_lower(data: Seq<u8>) -> Seq<char>
    decreases data.len(),
{
    if data.len() == 0 {
        Seq::empty()
    } else {
        hex_lower(data.drop_last()) + seq![hex_digit(data.last() / 16), hex_digit(data.last() % 16)]
    }
}

/// Hex takes two digits per byte.
pub proof fn lemma_hex_lower_len(data: Seq<u8>)
    ensures
        hex_lower(data).len() == 2 * data.len(),
    decreases data.len(),
{
    if data.len() > 0 {
        lemma_hex_lower_len(data.drop_last());
    }
}

/// `hex::encode`: each byte becomes two lower-case hex digits, high nibble
/// first, in order (the crate's `BytesToHexChars` over `HEX_CHARS_LOWER`).
#[verifier::external_body]
fn hex_encode(data: &[u8]) -> (s: String)
    ensures
        s@ == hex_lower(data@),
{
    hex::encode(data)
}

/// The hash a checksum line gives for `archive`: the line's first word when
/// its second word is the archive name.
pub open spec fn line_hash(line: Seq<char>, archive: Seq<char>) -> Option<Seq<char>> {
    let ws = words(line);
    if ws.len() >= 2 && ws[1] == archive {
        Some(ws[0])
    } else {
        None
    }
}

/// A checksum line gives the same hash whether or not it ends in whitespace,
/// such as the carriage return of a CRLF line end.
pub proof fn lemma_line_hash_trailing_ws(line: Seq<char>, c: char, archive: Seq<char>)
    requires
        is_ws(c),
    ensures
        line_hash(line.push(c), archive) == line_hash(line, archive),
{
    lemma_words_trailing_ws(line, c);
}

/// The hash of `archive` on the first line of `ls` that names it.
pub open spec fn first_line_hash(ls: Seq<Seq<char>>, archive: Seq<char>) -> Option<Seq<char>>
    decreases ls.len(),
{
    if ls.len() == 0 {
        None
    } else {
        match first_line_hash(ls.drop_last(), archive) {
            Some(h) => Some(h),
            None => line_hash(ls.last(), archive),
        }
    }
}

/// The expected hash of `archive` in a `sha256sum`-style checksum list.
pub open spec fn expected_hash(checksums: Seq<char>, archive: Seq<char>) -> Option<Seq<char>> {
    first_line_hash(lines(checksums), archive)
}

/// Why an archive was rejected.
#[derive(Debug, Clone, PartialEq, Eq)]
pub enum ChecksumError {
    /// The signed checksum list has no line for the platform's archive.
    NoChecksum { archive: String },
    /// The archive's SHA-256 differs from the signed one.
    Mismatch { archive: String, expected: String, actual: String },
}

/// The hash the checksum list gives for `archive`, if any line names it.
pub fn find_expected_hash(checksums: &str, archive: &str) -> (r: Option<String>)
    ensures
        match r {
            Some(h) => expected_hash(checksums@, archive@) == Some(h@),
            None => expected_hash(checksums@, archive@) is None,
        },
{
    let cs = chars_of(checksums);
    let name = chars_of(archive);
    let pieces = line_ranges(&cs);
    let ghost ls = lines(checksums@);
    let n = pieces.len();
    let mut i: usize = 0;
    while i < n
        invariant
            i <= n == ls.len() == pieces@.len(),
            cs@ == checksums@,
            ls == lines(checksums@),
            name@ == archive@,
            forall|k: int|
                0 <= k < pieces@.len() ==> {
                    &&& 0 <= (#[trigger] pieces@[k]).0 <= pieces@[k].1 <= cs@.len()
                    &&& cs@.subrange(pieces@[k].0 as int, pieces@[k].1 as int) == ls[k]
                },
            first_line_hash(ls.take(i as int), archive@) is None,
        decreases n - i,
    {
        let (lo, hi) = pieces[i];
        let ws = word_ranges(&cs, lo, hi);
        assert(ls.take(i + 1).drop_last() =~= ls.take(i as int));
        assert(ls.take(i + 1).last() == cs@.subrange(lo as int, hi as int));
        if ws.len() >= 2 && slice_eq(&cs, ws[1].0, ws[1].1, &name) {
            let h = string_of(&cs, ws[0].0, ws[0].1);
            proof {
                lemma_first_line_hash_prefix(ls, archive@, i + 1);
            }
            return Some(h);
        }
        i += 1;
    }
    assert(ls.take(i as int) =~= ls);
    None
}

/// A hash found in a prefix of the lines is the hash of the whole list.
proof fn lemma_first_line_hash_prefix(ls: Seq<Seq<char>>, archive: Seq<char>, n: int)
    requires
        0 <= n <= ls.len(),
        first_line_hash(ls.take(n), archive) is Some,
    ensures
        first_line_hash(ls, archive) == first_line_hash(ls.take(n), archive),
    decreases ls.len() - n,
{
    if n < ls.len() {
        assert(ls.take(n + 1).drop_last() =~= ls.take(n));
        lemma_first_line_hash_prefix(ls, archive, n + 1);
    } else {
        assert(ls.take(n) =~= ls);
    }
}

/// Checks the contents of a downloaded archive against the checksum list
/// of its release: the list must have a line `<hash> <archive name>` for the
/// platform, and `<hash>` must be the archive's SHA-256 in lower-case hex.
pub fn verify(archive_bytes: &[u8], checksums: &str, platform: &Platform) -> (r: Result<(), ChecksumError>)
    ensures
        hex_lower(sha256(archive_bytes@)).len() == 64,
        match expected_hash(checksums@, archive_name_of(platform.os@, platform.arch@)) {
            None => r matches Err(ChecksumError::NoChecksum { archive }) && archive@
                == archive_name_of(platform.os@, platform.arch@),
            Some(h) => if hex_lower(sha256(archive_bytes@)) == h {
                r is Ok
            } else {
                r matches Err(ChecksumError::Mismatch { archive: name, expected, actual }) && name@
                    == archive_name_of(platform.os@, platform.arch@) && expected@ == h && actual@
                    == hex_lower(sha256(archive_bytes@))
            },
        },
{
    let name = platform.archive_name();
    let digest = sha256_digest(archive_bytes);
    proof {
        lemma_hex_lower_len(digest@);
    }
    let expected = match find_expected_hash(checksums, name.as_str()) {
        Some(h) => h,
        None => return Err(ChecksumError::NoChecksum { archive: name }),
    };
    let actual = hex_encode(digest.as_slice());
    if actual == expected {
        Ok(())
    } else {
        Err(ChecksumError::Mismatch { archive: name, expected, actual })
    }
}

} // verus!
