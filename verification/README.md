# radegast-rustinel-updater

Auto-updater for the Radegast Rustinel EDR sensor. It fetches the release
manifest, picks the newest release for the running platform, verifies the GPG
signature of the release's checksum list, downloads the archive, checks its
SHA-256 against the signed list, and replaces the installed binary (stopping
and restarting the service around the replacement).

## Layout

- `src/` — the verified library (Verus):
  - `text.rs` — characters, whitespace, trimming, words, lines, decimal numbers;
  - `version.rs` — `RadegastVersion`: parsing, the manifest form, reading
    `rustinel --version` output; parse/print round trip;
  - `order.rs` — release order (`1.7.0 < 1.7.0r1 < 1.7.1`) and its laws;
  - `url.rs` — the host a URL names (for the HTTPS rule of the manifest fetch);
  - `platform.rs` — platform names, archive names, default paths;
  - `manifest.rs` — choosing the newest release for a platform, HTTPS policy
    and retry decisions for fetching the manifest (per attempt and over a
    whole run of attempts);
  - `checksum.rs` — checking an archive against the signed checksum list
    (SHA-256 via `sha2`, hex via `hex`);
  - `signature.rs` — accepting a verified signature structure;
  - `download.rs` — the archive download URL;
  - `archive.rs` — taking the Rustinel binary out of a release archive
    (through `zip`);
  - `updater.rs` — settings, the update decision, and the update steps: each
    step reports whether it succeeded, and a failure ends the update before
    anything is installed.
- `app/` — the program: command line, environment, HTTP (`reqwest`), GPG
  (`sequoia-openpgp`), archives (`zip`), files and service control.
- `tests/` — tests of the library.

Manifests and archives are fetched over HTTPS only. The one exception is a
manifest whose URL host is exactly `127.0.0.1` or `localhost` (a local test
server); the host is taken from the URL, so the words `localhost` or
`127.0.0.1` elsewhere in a URL (its path, query or user information) do not
allow plain HTTP.

The release signing key `pub.pgp.asc` is embedded into the program at build
time from the package root.
