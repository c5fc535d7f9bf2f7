//! Sampling history and delta reports for a stock-market game.
//!
//! Each sampling cycle turns the observed instruments into a ranked
//! [`snapshot::Snapshot`], pushes it into a bounded
//! [`history::HistoryBuffer`], and renders text reports that compare the
//! newest snapshot with older ones found by their distance in cycles.
use vstd::prelude::*;

pub mod history;
pub mod movers;
pub mod rank;
pub mod record;
pub mod report;
pub mod snapshot;
pub mod teams;
pub mod text;

verus! {

/// Relies on `SystemTime::elapsed` of the Unix epoch: the time since then,
/// or an error when the clock reads an earlier time.
#[verifier::external_body]
fn seconds_since_epoch() -> (r: Option<u64>) {
    match std::time::UNIX_EPOCH.elapsed() {
        Ok(d) => Some(d.as_secs()),
        Err(_) => None,
    }
}

/// The current time in whole seconds since the Unix epoch; 0 when the
/// system clock reads a time before it.
pub fn current_unix_time() -> (r: u64) {
    match seconds_since_epoch() {
        Some(s) => s,
        None => 0,
    }
}

/// How many sampling cycles of `period` seconds a window of `window`
/// seconds spans: the lookback offset that reaches back that far.
pub fn window_offset(window: u64, period: u64) -> (r: u64)
    requires
        period > 0,
    ensures
        r == window / period,
{
    window / period
}

} // verus!
