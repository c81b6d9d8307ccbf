//! The pass's date stamp, read from the system clock.

use vstd::prelude::*;

verus! {

/// Relies on chrono's `Local::now` and `DateTime::format` with the pattern
/// `%Y%m%d`: the current local date as year, month and day digits. The
/// result depends on the clock and the configured time zone, so nothing is
/// promised of it; every caller works for any date string.
#[verifier::external_body]
pub(crate) fn current_date_string() -> String {
    chrono::Local::now().format("%Y%m%d").to_string()
}

} // verus!
