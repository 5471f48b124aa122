//! Self-update from source: what the platform's binary is called.
//!
//! Locating the checkout, running `git` and `cargo`, and swapping the running
//! executable are process and file-system work that stays with the caller.

use vstd::prelude::*;

verus! {

/// The karmx binary's file name: `karmx.exe` on Windows, `karmx` elsewhere.
pub fn binary_name(windows: bool) -> (r: &'static str)
    ensures
        windows ==> r@ == "karmx.exe"@,
        !windows ==> r@ == "karmx"@,
{
    if windows {
        "karmx.exe"
    } else {
        "karmx"
    }
}

} // verus!
