//! PEAK PCAN-USB adapter: telling bus errors from a removed device.
//!
//! The driver reports transient bus errors and the removal of the device alike. Whether the
//! device is still enumerated on USB tells them apart. Times are in milliseconds.

use vstd::prelude::*;

use crate::adapters::{AdapterError, AdapterErrorView};
use crate::text;

verus! {

/// Minimum interval between two USB presence probes.
pub const PRESENCE_PROBE_DEBOUNCE_MS: u64 = 500;

/// How often a frame is sent again after a transient failure.
pub const SEND_RETRY_MAX: u32 = 8;

/// Pause between two attempts to send.
pub const SEND_RETRY_BACKOFF_MS: u64 = 20;

/// The last presence probe: when it was made, and its answer.
#[derive(Clone, Copy, Debug, PartialEq, Eq, Structural)]
pub struct LastProbe {
    pub at_ms: u64,
    pub present: bool,
}

/// The answer of the last probe, while it is fresh enough to be used again.
pub fn cached_presence(last: Option<LastProbe>, now_ms: u64) -> (r: Option<bool>)
    ensures
        r == (match last {
            Some(p) => if now_ms - p.at_ms < PRESENCE_PROBE_DEBOUNCE_MS {
                Some(p.present)
            } else {
                None
            },
            None => None,
        }),
{
    match last {
        Some(p) => if now_ms < p.at_ms || now_ms - p.at_ms < PRESENCE_PROBE_DEBOUNCE_MS {
            Some(p.present)
        } else {
            None
        },
        None => None,
    }
}

/// Whether the message of a failed receive is that of a timeout.
pub open spec fn is_timeout_message(msg: Seq<char>) -> bool {
    text::occurs("timed out"@, text::lower(msg)) || text::occurs("timeout"@, text::lower(msg))
}

/// Whether the message of a failed receive is that of a timeout. Only where it is not is the
/// presence of the device asked for.
pub fn timeout_message(msg: &str) -> (r: bool)
    ensures
        r == is_timeout_message(msg@),
{
    let cs: Vec<char> = text::chars_of(msg);
    let low: Vec<char> = text::to_lower(cs.as_slice());
    text::contains_text(low.as_slice(), "timed out") || text::contains_text(
        low.as_slice(),
        "timeout",
    )
}

/// The error of a failed receive: a timeout, also for a bus error while the device is present;
/// a disconnect once it is gone.
pub fn receive_error(msg: &str, present: bool) -> (r: AdapterError)
    ensures
        r@ == (if is_timeout_message(msg@) || present {
            AdapterErrorView::Timeout
        } else {
            AdapterErrorView::Disconnected
        }),
{
    if timeout_message(msg) || present {
        AdapterError::Timeout
    } else {
        AdapterError::Disconnected
    }
}

/// What to do after a failed attempt to send.
#[derive(Debug)]
pub enum SendStep {
    /// Try again after [`SEND_RETRY_BACKOFF_MS`].
    Retry,
    /// Give up.
    Fail(AdapterError),
}

/// After the failed attempt number `attempt` (from 1) to send: a disconnect if the device is
/// gone; another attempt while there are any left; else the failure itself.
pub fn after_send_failure(attempt: u32, present: bool, msg: &str) -> (r: SendStep)
    ensures
        if !present {
            r matches SendStep::Fail(e) && e@ == AdapterErrorView::Disconnected
        } else if attempt > SEND_RETRY_MAX {
            r matches SendStep::Fail(e) && e@ == AdapterErrorView::Io(msg@)
        } else {
            r is Retry
        },
{
    if !present {
        SendStep::Fail(AdapterError::Disconnected)
    } else if attempt > SEND_RETRY_MAX {
        SendStep::Fail(AdapterError::Io(msg.to_owned()))
    } else {
        SendStep::Retry
    }
}

} // verus!
