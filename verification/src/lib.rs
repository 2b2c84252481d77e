//! Classification and reporting engine for exported email records.
//!
//! A stored record (a metadata header between delimiter lines, followed by a
//! free-text body) is parsed into structured fields, given an integer
//! desirability score from configured weighted signals, and assigned one of
//! three categories (delete, summarize, keep) by a layered decision procedure.
//! Classified records are folded into running statistics and turned into a
//! structured report.

use vstd::prelude::*;

pub mod config;
pub mod counts;
pub mod dates;
pub mod fix_yaml;
pub mod network;
pub mod sort_emails;
pub mod utils;
pub mod text;
pub mod thunderbird;

verus! {

/// Whole days elapsed between two timestamps in seconds, truncated toward
/// zero, matching how a record's age in days is derived from its parsed date.
pub open spec fn spec_days_between(now_secs: int, then_secs: int) -> int {
    let diff = now_secs - then_secs;
    if diff >= 0 {
        diff / 86400
    } else {
        -((-diff) / 86400)
    }
}

/// Whole days between two timestamps, truncated toward zero.
pub fn days_between(now_secs: i64, then_secs: i64) -> (r: i64)
    requires
        -0x4000_0000_0000_0000 < now_secs < 0x4000_0000_0000_0000,
        -0x4000_0000_0000_0000 < then_secs < 0x4000_0000_0000_0000,
    ensures
        r == spec_days_between(now_secs as int, then_secs as int),
{
    let diff: i64 = now_secs - then_secs;
    if diff >= 0 {
        ((diff as u64) / 86400u64) as i64
    } else {
        -((((-diff) as u64) / 86400u64) as i64)
    }
}

} // verus!
