//! The reporter's once-a-second decision: whether the oldest window is
//! missing, stale, still inside the reporting delay, or ready to finalize.
//! The caller runs the tick loop, pops the bucket and publishes the
//! aggregated statistics; what to do each tick is decided here.

use vstd::prelude::*;

verus! {

/// What one reporter tick does with the oldest bucket.
#[derive(Clone, Copy, Debug, PartialEq, Eq, Structural)]
pub enum ReporterAction {
    /// No bucket, or the oldest window may still receive replies: wait for
    /// the next tick.
    Wait,
    /// The oldest bucket was already finalized once: pop and discard it
    /// without reporting.
    PopDiscard,
    /// The oldest window has aged past the reporting delay: pop it, make its
    /// key the new watermark, and report its statistics.
    PopReport,
}

/// Decides one reporter tick from the oldest bucket's key (when one exists),
/// the last finalized key, the current epoch-second and the reporting delay
/// in seconds. A window is finalized exactly once, and only after it has aged
/// past the delay.
pub fn reporter_decide(peeked: Option<u128>, last_key: u128, now_s: u128, delay_s: u128) -> (a:
    ReporterAction)
    ensures
        peeked is None ==> a == ReporterAction::Wait,
        peeked matches Some(k) && k <= last_key ==> a == ReporterAction::PopDiscard,
        peeked matches Some(k) && k > last_key && k + delay_s <= now_s ==> a
            == ReporterAction::PopReport,
        peeked matches Some(k) && k > last_key && k + delay_s > now_s ==> a
            == ReporterAction::Wait,
{
    match peeked {
        None => ReporterAction::Wait,
        Some(k) => {
            if k <= last_key {
                ReporterAction::PopDiscard
            } else if now_s >= delay_s && k <= now_s - delay_s {
                ReporterAction::PopReport
            } else {
                ReporterAction::Wait
            }
        },
    }
}

} // verus!
