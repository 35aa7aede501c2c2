use overdrive::dynamic::{
    check_download_size, download_url, is_loadable_size, lib_name, loadable_candidates, release_asset_name, search_order,
    SearchDir, MIN_LIBRARY_BYTES,
};
use overdrive::native::OsFamily;

#[test]
fn release_assets() {
    assert_eq!(release_asset_name(OsFamily::Windows, "x86_64"), "overdrive.dll");
    assert_eq!(release_asset_name(OsFamily::Windows, "aarch64"), "overdrive.dll");
    assert_eq!(release_asset_name(OsFamily::MacOs, "aarch64"), "liboverdrive-arm64.dylib");
    assert_eq!(release_asset_name(OsFamily::MacOs, "x86_64"), "liboverdrive.dylib");
    assert_eq!(release_asset_name(OsFamily::Other, "aarch64"), "liboverdrive-arm64.so");
    assert_eq!(release_asset_name(OsFamily::Other, "x86_64"), "liboverdrive.so");
    assert_eq!(lib_name(OsFamily::Other), "liboverdrive.so");
}

#[test]
fn urls() {
    assert_eq!(
        download_url("liboverdrive.so"),
        "https://github.com/ALL-FOR-ONE-TECH/OverDrive-DB_IncodeSDK/releases/download/v1.4.5/liboverdrive.so"
    );
}

#[test]
fn library_sizes() {
    assert_eq!(MIN_LIBRARY_BYTES, 100_000);
    assert!(!is_loadable_size(100_000));
    assert!(is_loadable_size(100_001));
    assert!(check_download_size(100_000, "u").is_ok());
    assert_eq!(
        check_download_size(512, "http://x/y"),
        Err("Downloaded file is too small (512 bytes) \u{2014} download may have failed.\n  URL: http://x/y".to_string())
    );
}

#[test]
fn library_search_order() {
    assert_eq!(
        search_order(),
        vec![SearchDir::WorkingDir, SearchDir::WorkingDirLib, SearchDir::ExeDir, SearchDir::ExeDirLib]
    );
}

#[test]
fn only_present_files_of_loadable_size_are_tried() {
    let present = vec![true, false, true, true];
    let sizes = vec![50, 2_000_000, 100_001, 3_000_000];
    assert_eq!(loadable_candidates(&present, &sizes), vec![2, 3]);
    assert_eq!(loadable_candidates(&vec![true], &vec![100_000]), Vec::<usize>::new());
    assert_eq!(loadable_candidates(&vec![], &vec![]), Vec::<usize>::new());
}
