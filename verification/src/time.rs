//! The clock: a string-formatted creation/receipt timestamp.

use vstd::prelude::*;

verus! {

/// Relies on chrono's `Local::now` and `DateTime::format`: the current local
/// time, rendered with a fixed strftime pattern. The result depends on the
/// wall clock, so nothing is promised of its value.
#[verifier::external_body]
pub fn now() -> String {
    chrono::Local::now().format("%Y-%m-%d %H:%M:%S%.3fZ").to_string()
}

} // verus!
