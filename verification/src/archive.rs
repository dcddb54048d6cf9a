//! Taking the Rustinel binary out of a release archive.
use vstd::prelude::*;

use crate::platform::{binary_name, binary_name_of};

verus! {

/// What the zip archive `archive` holds under `name`: `None` when it does not
/// open as a zip archive, `Some(None)` when it has no entry of that name, and
/// otherwise whether the entry is a regular file together with its whole
/// decompressed contents, read to the end of the entry (`None` when reading
/// them fails, a CRC-32 mismatch among the causes).
pub uninterp spec fn zip_entry(archive: Seq<u8>, name: Seq<char>) -> Option<Option<(bool, Option<Seq<u8>>)>>;

/// Looks `name` up in the zip archive `archive` with the `zip` crate
/// (`ZipArchive::new` over the bytes, `by_name`, `is_file`, and
/// `read_to_end` of the entry); the outcome is `zip_entry(archive, name)`.
#[verifier::external_body]
fn read_zip_entry(archive: &[u8], name: &str) -> (r: Option<Option<(bool, Option<Vec<u8>>)>>)
    ensures
        match r {
            None => zip_entry(archive@, name@) is None,
            Some(None) => zip_entry(archive@, name@) == Some(None::<(bool, Option<Seq<u8>>)>),
            Some(Some((f, None))) => zip_entry(archive@, name@) == Some(Some((f, None::<Seq<u8>>))),
            Some(Some((f, Some(v)))) => zip_entry(archive@, name@) == Some(Some((f, Some(v@)))),
        },
{
    let mut zip = match zip::ZipArchive::new(std::io::Cursor::new(archive)) {
        Ok(z) => z,
        Err(_) => return None,
    };
    let mut entry = match zip.by_name(name) {
        Ok(e) => e,
        Err(_) => return Some(None),
    };
    let mut contents = Vec::new();
    let read = std::io::Read::read_to_end(&mut entry, &mut contents).ok().map(|_| contents);
    Some(Some((entry.is_file(), read)))
}

/// Why the binary could not be taken out of an archive.
#[derive(Debug, Clone, Copy, PartialEq, Eq, Structural)]
pub enum ExtractError {
    /// The archive is not a readable zip archive.
    CorruptArchive,
    /// The archive has no entry named after the binary.
    BinaryNotFound,
    /// The entry named after the binary is not a regular file.
    NotAFile,
    /// The entry's contents could not be read.
    ReadFailed,
}

/// The contents of the Rustinel binary in the release archive `archive` for
/// the target OS (`rustinel.exe` on Windows, `rustinel` elsewhere).
pub fn extract_binary(archive: &[u8], target_os: &str) -> (r: Result<Vec<u8>, ExtractError>)
    ensures
        match zip_entry(archive@, binary_name_of(target_os@)) {
            None => r == Err::<Vec<u8>, ExtractError>(ExtractError::CorruptArchive),
            Some(None) => r == Err::<Vec<u8>, ExtractError>(ExtractError::BinaryNotFound),
            Some(Some((false, _))) => r == Err::<Vec<u8>, ExtractError>(ExtractError::NotAFile),
            Some(Some((true, None))) => r == Err::<Vec<u8>, ExtractError>(ExtractError::ReadFailed),
            Some(Some((true, Some(b)))) => r matches Ok(v) && v@ == b,
        },
{
    let name = binary_name(target_os);
    match read_zip_entry(archive, name) {
        None => Err(ExtractError::CorruptArchive),
        Some(None) => Err(ExtractError::BinaryNotFound),
        Some(Some((is_file, contents))) => {
            if !is_file {
                return Err(ExtractError::NotAFile);
            }
            match contents {
                Some(v) => Ok(v),
                None => Err(ExtractError::ReadFailed),
            }
        },
    }
}

} // verus!
