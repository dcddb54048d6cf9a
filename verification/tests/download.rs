use radegast_rustinel_updater::download::release_download_url;
use radegast_rustinel_updater::platform::Platform;

#[test]
fn download_url_layout() {
    let linux = Platform { os: "linux", arch: "amd64" };
    assert_eq!(
        release_download_url("https://console-api.radegast.app/api/v1", "1.8.0r2", &linux),
        "https://console-api.radegast.app/api/v1/public/releases/1.8.0r2/linux/amd64/download"
    );
    let mac = Platform { os: "mac", arch: "m5" };
    assert_eq!(
        release_download_url("https://example.org/base///", "1.8.0", &mac),
        "https://example.org/base/public/releases/1.8.0/mac/m5/download"
    );
    assert_eq!(
        release_download_url("/", "1.0.0", &mac),
        "/public/releases/1.0.0/mac/m5/download"
    );
}
