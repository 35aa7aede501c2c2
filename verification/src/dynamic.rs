//! Where the embedded SDK finds its native library: the file names it looks for, the
//! release asset it downloads when none is found, and when a file is plausible.

use vstd::prelude::*;
use crate::native::OsFamily;
use crate::result::concat_str;
use crate::text::{decimal, str_eq, u64_to_text};

pub use crate::native::lib_name;

verus! {

/// Below this many bytes a library file is taken for a failed download.
pub const MIN_LIBRARY_BYTES: u64 = 100_000;

/// The release asset for an OS and a CPU architecture (as `std::env::consts::ARCH`
/// names it).
pub open spec fn asset_for(os: OsFamily, arch: Seq<char>) -> Seq<char> {
    match os {
        OsFamily::Windows => "overdrive.dll"@,
        OsFamily::MacOs => if arch == "aarch64"@ {
            "liboverdrive-arm64.dylib"@
        } else {
            "liboverdrive.dylib"@
        },
        OsFamily::Other => if arch == "aarch64"@ {
            "liboverdrive-arm64.so"@
        } else {
            "liboverdrive.so"@
        },
    }
}

/// The name of the release asset that holds the native library for an OS and an
/// architecture.
pub fn release_asset_name(os: OsFamily, arch: &str) -> (r: &'static str)
    ensures
        r@ == asset_for(os, arch@),
{
    match os {
        OsFamily::Windows => "overdrive.dll",
        OsFamily::MacOs => if str_eq(arch, "aarch64") {
            "liboverdrive-arm64.dylib"
        } else {
            "liboverdrive.dylib"
        },
        OsFamily::Other => if str_eq(arch, "aarch64") {
            "liboverdrive-arm64.so"
        } else {
            "liboverdrive.so"
        },
    }
}

/// The URL of a release asset: the asset of release `v1.4.5` of the
/// `ALL-FOR-ONE-TECH/OverDrive-DB_IncodeSDK` repository.
pub open spec fn asset_url(asset: Seq<char>) -> Seq<char> {
    "https://github.com/ALL-FOR-ONE-TECH/OverDrive-DB_IncodeSDK/releases/download/v1.4.5/"@ + asset
}

/// The URL a release asset is downloaded from.
pub fn download_url(asset: &str) -> (r: String)
    ensures
        r@ == asset_url(asset@),
{
    concat_str("https://github.com/ALL-FOR-ONE-TECH/OverDrive-DB_IncodeSDK/releases/download/v1.4.5/", asset)
}

/// Whether a library file found on disk is large enough to be loaded.
pub fn is_loadable_size(size: u64) -> (r: bool)
    ensures
        r == (size > MIN_LIBRARY_BYTES),
{
    size > MIN_LIBRARY_BYTES
}

/// The directories searched for the library, in the order they are searched.
#[derive(Clone, Copy, Debug, PartialEq, Eq)]
pub enum SearchDir {
    /// The working directory.
    WorkingDir,
    /// The `lib` directory under the working directory.
    WorkingDirLib,
    /// The directory of the running executable.
    ExeDir,
    /// The `lib` directory under the executable's directory.
    ExeDirLib,
}

/// The search order: the working directory and its `lib`, then the executable's
/// directory and its `lib`.
pub fn search_order() -> (r: Vec<SearchDir>)
    ensures
        r@ == seq![SearchDir::WorkingDir, SearchDir::WorkingDirLib, SearchDir::ExeDir, SearchDir::ExeDirLib],
{
    vec![SearchDir::WorkingDir, SearchDir::WorkingDirLib, SearchDir::ExeDir, SearchDir::ExeDirLib]
}

/// Whether a candidate file is worth trying to load: it exists and is large enough.
pub open spec fn worth_loading(present: bool, size: u64) -> bool {
    present && size > MIN_LIBRARY_BYTES
}

/// The candidates worth trying to load, by index and in the order given: exactly those
/// that exist (`present`) with a size (`sizes`, in bytes) above the minimum.
pub fn loadable_candidates(present: &Vec<bool>, sizes: &Vec<u64>) -> (r: Vec<usize>)
    requires
        present@.len() == sizes@.len(),
    ensures
        forall|k: int| 0 <= k < r@.len() ==> r@[k] < present@.len() && worth_loading(
            present@[r@[k] as int],
            sizes@[r@[k] as int],
        ),
        forall|k: int, l: int| 0 <= k < l < r@.len() ==> r@[k] < r@[l],
        forall|i: int| 0 <= i < present@.len() && worth_loading(present@[i], sizes@[i])
            ==> r@.contains(i as usize),
{
    let mut out: Vec<usize> = Vec::new();
    let mut i: usize = 0;
    while i < present.len()
        invariant
            i <= present@.len(),
            present@.len() == sizes@.len(),
            forall|k: int| 0 <= k < out@.len() ==> out@[k] < i && worth_loading(
                present@[out@[k] as int],
                sizes@[out@[k] as int],
            ),
            forall|k: int, l: int| 0 <= k < l < out@.len() ==> out@[k] < out@[l],
            forall|j: int| 0 <= j < i && worth_loading(present@[j], sizes@[j])
                ==> out@.contains(j as usize),
        decreases present@.len() - i,
    {
        if present[i] && is_loadable_size(sizes[i]) {
            let ghost before = out@;
            out.push(i);
            proof {
                assert forall|j: int| 0 <= j < i + 1 && worth_loading(present@[j], sizes@[j])
                    implies out@.contains(j as usize) by {
                    if j < i {
                        let w = choose|w: int| 0 <= w < before.len() && before[w] == j as usize;
                        assert(out@[w] == j as usize);
                    } else {
                        assert(out@[before.len() as int] == i);
                    }
                }
            }
        }
        i = i + 1;
    }
    out
}

/// The message for a downloaded file too small to be the library.
pub open spec fn too_small_message(size: nat, url: Seq<char>) -> Seq<char> {
    "Downloaded file is too small ("@ + decimal(size) + " bytes) \u{2014} download may have failed.\n  URL: "@
        + url
}

/// Refuses a downloaded file smaller than a library can be.
pub fn check_download_size(size: u64, url: &str) -> (r: Result<(), String>)
    ensures
        size < MIN_LIBRARY_BYTES ==> (r matches Err(m) && m@ == too_small_message(size as nat, url@)),
        size >= MIN_LIBRARY_BYTES ==> r is Ok,
{
    if size < MIN_LIBRARY_BYTES {
        let t = u64_to_text(size);
        let a = concat_str("Downloaded file is too small (", t.as_str());
        let b = concat_str(a.as_str(), " bytes) \u{2014} download may have failed.\n  URL: ");
        Err(concat_str(b.as_str(), url))
    } else {
        Ok(())
    }
}

} // verus!
