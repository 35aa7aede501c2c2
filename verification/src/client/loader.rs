//! Where the client SDK looks for its bundled native library.

use vstd::prelude::*;
use crate::text::str_eq;

verus! {

/// The directory (under the working directory) and file name of the library bundled for
/// an OS and a CPU architecture, as `std::env::consts` names them; none for a platform
/// without a bundled library.
pub open spec fn bundled_spec(os: Seq<char>, arch: Seq<char>) -> Option<(Seq<char>, Seq<char>)> {
    if os == "windows"@ {
        Some(("native/windows"@, "overdrive.dll"@))
    } else if os == "linux"@ && arch == "x86_64"@ {
        Some(("native/linux/x64"@, "liboverdrive.so"@))
    } else if os == "linux"@ && arch == "aarch64"@ {
        Some(("native/linux/arm64"@, "liboverdrive-arm64.so"@))
    } else if os == "macos"@ && arch == "x86_64"@ {
        Some(("native/macos/x64"@, "liboverdrive.dylib"@))
    } else if os == "macos"@ && arch == "aarch64"@ {
        Some(("native/macos/arm64"@, "liboverdrive-arm64.dylib"@))
    } else {
        None
    }
}

/// The directory and file name of the bundled library for a platform, if it has one.
pub fn bundled_location(os: &str, arch: &str) -> (r: Option<(&'static str, &'static str)>)
    ensures
        match bundled_spec(os@, arch@) {
            Some((d, f)) => r matches Some((rd, rf)) && rd@ == d && rf@ == f,
            None => r is None,
        },
{
    if str_eq(os, "windows") {
        Some(("native/windows", "overdrive.dll"))
    } else if str_eq(os, "linux") && str_eq(arch, "x86_64") {
        Some(("native/linux/x64", "liboverdrive.so"))
    } else if str_eq(os, "linux") && str_eq(arch, "aarch64") {
        Some(("native/linux/arm64", "liboverdrive-arm64.so"))
    } else if str_eq(os, "macos") && str_eq(arch, "x86_64") {
        Some(("native/macos/x64", "liboverdrive.dylib"))
    } else if str_eq(os, "macos") && str_eq(arch, "aarch64") {
        Some(("native/macos/arm64", "liboverdrive-arm64.dylib"))
    } else {
        None
    }
}

/// Of the candidate paths for the library, tried in order, the first that exists
/// (`present[i]` says whether candidate `i` does); none when none exists.
pub fn first_present(present: &Vec<bool>) -> (r: Option<usize>)
    ensures
        match r {
            Some(i) => i < present@.len() && present@[i as int]
                && forall|j: int| 0 <= j < i ==> !present@[j],
            None => forall|j: int| 0 <= j < present@.len() ==> !present@[j],
        },
{
    let mut i: usize = 0;
    while i < present.len()
        invariant
            i <= present@.len(),
            forall|j: int| 0 <= j < i ==> !present@[j],
        decreases present@.len() - i,
    {
        if present[i] {
            return Some(i);
        }
        i = i + 1;
    }
    None
}

} // verus!
