//! The change-detection loop, as a pure step function: the driver acquires a
//! candidate address (or fails to), hands the event in, and performs the
//! effects handed back — propagate to the full plan, then sleep.
use vstd::prelude::*;

verus! {

/// The fixed delay, in seconds, used both as the retry backoff after a failed
/// acquisition and as the steady-state polling interval.
pub const DELAY_SECONDS: u64 = 60;

/// The loop's state: before the first successful acquisition, or tracking the
/// last address that was propagated.
pub enum PollState {
    Starting,
    Tracking { last: String },
}

/// One acquisition attempt's outcome, handed to the step function.
pub enum PollEvent {
    Acquired { ip: String },
    Failed,
}

/// What the driver must do after a step: propagate the carried address to the
/// full plan (if any), then sleep for the given number of seconds.
pub struct PollEffect {
    pub propagate: Option<String>,
    pub sleep_seconds: u64,
}

/// One turn of the change-detection loop.
///
/// A failed acquisition leaves the state unchanged, propagates nothing and
/// asks for exactly one fixed delay, so the driver retries indefinitely. The
/// first acquired address is always propagated, immediately. Afterwards an
/// address equal to the last known one is not propagated; a different one is
/// propagated and becomes the last known address.
pub fn poll_step(state: PollState, event: PollEvent) -> (r: (PollState, PollEffect))
    ensures
        (match event {
            PollEvent::Failed => {
                &&& r.0 == state
                &&& r.1.propagate is None
                &&& r.1.sleep_seconds == DELAY_SECONDS
            },
            PollEvent::Acquired { ip } => match state {
                PollState::Starting => {
                    &&& r.0 == (PollState::Tracking { last: ip })
                    &&& r.1.propagate == Some(ip)
                    &&& r.1.sleep_seconds == 0
                },
                PollState::Tracking { last } => {
                    if last@ == ip@ {
                        &&& r.0 == (PollState::Tracking { last })
                        &&& r.1.propagate is None
                        &&& r.1.sleep_seconds == DELAY_SECONDS
                    } else {
                        &&& r.0 == (PollState::Tracking { last: ip })
                        &&& r.1.propagate == Some(ip)
                        &&& r.1.sleep_seconds == DELAY_SECONDS
                    }
                },
            },
        }),
{
    match event {
        PollEvent::Failed => (
            state,
            PollEffect { propagate: None, sleep_seconds: DELAY_SECONDS },
        ),
        PollEvent::Acquired { ip } => match state {
            PollState::Starting => (
                PollState::Tracking { last: ip.clone() },
                PollEffect { propagate: Some(ip), sleep_seconds: 0 },
            ),
            PollState::Tracking { last } => {
                if last == ip {
                    (
                        PollState::Tracking { last },
                        PollEffect { propagate: None, sleep_seconds: DELAY_SECONDS },
                    )
                } else {
                    (
                        PollState::Tracking { last: ip.clone() },
                        PollEffect { propagate: Some(ip), sleep_seconds: DELAY_SECONDS },
                    )
                }
            },
        },
    }
}

} // verus!
