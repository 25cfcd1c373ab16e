//! The decisions of waiting for a condition on recorded events.
use vstd::prelude::*;

use crate::error::Error;
use std::time::Duration;

verus! {

/// What happened while waiting for a condition on the recorded events.
#[derive(Debug, Clone, Copy, PartialEq, Eq, Structural)]
pub enum SettleEvent {
    /// New events were recorded and the condition was checked, with this result.
    Checked(bool),
    /// The recording channel closed; the condition was checked a last time,
    /// with this result.
    Closed(bool),
    /// The deadline passed before the condition held.
    TimedOut,
}

/// The outcome owed for an event, if waiting ends with it: success once the
/// condition holds, a timeout error carrying the timeout and the number of
/// recorded events when the deadline passes or the channel closes first.
pub open spec fn settle_outcome(event: SettleEvent, timeout: Duration, recorded: usize) -> Option<Result<(), Error>> {
    match event {
        SettleEvent::Checked(true) => Some(Ok(())),
        SettleEvent::Checked(false) => None,
        SettleEvent::Closed(true) => Some(Ok(())),
        SettleEvent::Closed(false) => Some(Err(Error::SettleTimeout(timeout, recorded))),
        SettleEvent::TimedOut => Some(Err(Error::SettleTimeout(timeout, recorded))),
    }
}

/// Decides whether waiting ends on `event`, and with what: `None` to keep
/// waiting.
pub fn settle_verdict(event: SettleEvent, timeout: Duration, recorded: usize) -> (r: Option<Result<(), Error>>)
    ensures
        r == settle_outcome(event, timeout, recorded),
{
    match event {
        SettleEvent::Checked(met) => {
            if met {
                Some(Ok(()))
            } else {
                None
            }
        },
        SettleEvent::Closed(met) => {
            if met {
                Some(Ok(()))
            } else {
                Some(Err(Error::SettleTimeout(timeout, recorded)))
            }
        },
        SettleEvent::TimedOut => Some(Err(Error::SettleTimeout(timeout, recorded))),
    }
}

/// Waiting ends with success exactly when the condition was found to hold.
pub proof fn law_settle_succeeds_iff_condition_met(event: SettleEvent, timeout: Duration, recorded: usize)
    ensures
        settle_outcome(event, timeout, recorded) == Some(Ok::<(), Error>(())) <==> (event == SettleEvent::Checked(true)
            || event == SettleEvent::Closed(true)),
        event is TimedOut ==> settle_outcome(event, timeout, recorded) is Some,
{
}

} // verus!
