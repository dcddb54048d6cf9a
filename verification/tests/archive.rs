use radegast_rustinel_updater::archive::{extract_binary, ExtractError};
use std::io::{Cursor, Write};
use zip::write::SimpleFileOptions;

fn zip_with(entries: &[(&str, &[u8])]) -> Vec<u8> {
    let mut zip = zip::ZipWriter::new(Cursor::new(Vec::new()));
    for (name, data) in entries {
        zip.start_file(*name, SimpleFileOptions::default()).unwrap();
        zip.write_all(data).unwrap();
    }
    zip.finish().unwrap().into_inner()
}

#[test]
fn extracts_the_binary_for_the_target() {
    let archive = zip_with(&[
        ("README.txt", b"read me"),
        ("rustinel", b"fake-rustinel-executable-payload"),
        ("rustinel.exe", b"windows payload"),
    ]);
    assert_eq!(
        extract_binary(&archive, "linux"),
        Ok(b"fake-rustinel-executable-payload".to_vec())
    );
    assert_eq!(extract_binary(&archive, "windows"), Ok(b"windows payload".to_vec()));
}

#[test]
fn missing_binary_and_corrupt_archive() {
    let archive = zip_with(&[("other_file.txt", b"wrong file")]);
    assert_eq!(extract_binary(&archive, "linux"), Err(ExtractError::BinaryNotFound));
    assert_eq!(extract_binary(b"not a zip file", "linux"), Err(ExtractError::CorruptArchive));
    assert_eq!(extract_binary(b"", "linux"), Err(ExtractError::CorruptArchive));
}
