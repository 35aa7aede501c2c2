//! The OverDrive-DB client SDK (v2.0.0): its value types and error classification.

pub mod errors;
pub mod loader;
pub mod types;

use vstd::prelude::*;

verus! {

/// Library version.
pub const VERSION: &'static str = "2.0.0";

/// Get library version.
pub fn version() -> (r: &'static str)
    ensures
        r@ == "2.0.0"@,
{
    VERSION
}

} // verus!
