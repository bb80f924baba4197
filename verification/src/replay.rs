//! Replaying the output of a recording: at its own pace, or one event at a
//! time on request.

use crate::duration::Duration;
use vstd::prelude::*;

verus! {

/// Why a replay was given up.
#[derive(Clone, Copy, Debug, PartialEq, Eq, Structural)]
pub enum PlaybackError {
    /// The replay has fallen behind the recording by more than is allowed.
    TooSlow { max_delta: Duration, actual_delta: Duration },
}

/// The settings of a replay at the pace of the recording.
#[derive(Clone, Copy, Debug, PartialEq, Eq, Structural)]
pub struct PlayCmd {
    /// The most microseconds by which the replay may lag behind the
    /// recording.
    pub max_accuracy_delta_us: u64,
}

/// How long to wait before an event timed at `timestamp` is written, where
/// the replay has reached `last_timestamp`: the time up to the event, or
/// none where the event is due already. An event that is overdue by more
/// than `max_accuracy_delta_us` microseconds ends the replay.
pub open spec fn wait_before(
    max_accuracy_delta_us: u64,
    timestamp: Duration,
    last_timestamp: Duration,
) -> Result<Duration, PlaybackError> {
    if timestamp.micros >= last_timestamp.micros {
        Ok(Duration { micros: (timestamp.micros - last_timestamp.micros) as u128 })
    } else if last_timestamp.micros - timestamp.micros > max_accuracy_delta_us {
        Err(
            PlaybackError::TooSlow {
                max_delta: Duration { micros: max_accuracy_delta_us as u128 },
                actual_delta: Duration {
                    micros: (last_timestamp.micros - timestamp.micros) as u128,
                },
            },
        )
    } else {
        Ok(Duration { micros: 0 })
    }
}

impl PlayCmd {
    /// The delay by which a replay may lag where nothing else is asked for:
    /// one millisecond.
    pub const DEFAULT_MAX_ACCURACY_DELTA_US: u64 = 1000;

    /// Says how long to sleep before the event timed at `timestamp` is
    /// written, or that the replay is too slow to go on.
    pub fn delay_before(&self, timestamp: Duration, last_timestamp: Duration) -> (delay: Result<
        Duration,
        PlaybackError,
    >)
        ensures
            delay == wait_before(self.max_accuracy_delta_us, timestamp, last_timestamp),
    {
        match timestamp.checked_sub(last_timestamp) {
            Some(delay) => Ok(delay),
            None => {
                let lag: u128 = last_timestamp.micros - timestamp.micros;
                if lag > self.max_accuracy_delta_us as u128 {
                    Err(
                        PlaybackError::TooSlow {
                            max_delta: Duration::from_micros(self.max_accuracy_delta_us),
                            actual_delta: Duration { micros: lag },
                        },
                    )
                } else {
                    Ok(Duration::zero())
                }
            },
        }
    }

    /// The point that the replay has reached once an event is written:
    /// `last_timestamp` moved on by the time that sleeping and writing
    /// took, whatever the timestamp of the event.
    pub fn after_write(last_timestamp: Duration, elapsed: Duration) -> (reached: Duration)
        requires
            last_timestamp.micros + elapsed.micros <= u128::MAX,
        ensures
            reached.micros == last_timestamp.micros + elapsed.micros,
    {
        Duration { micros: last_timestamp.micros + elapsed.micros }
    }
}

/// One thing that the replayer does in a replay on request.
#[derive(Clone, Copy, Debug, PartialEq, Eq, Structural)]
pub enum ReplayStep {
    /// Wait for the driver to ask for the next event.
    AwaitRequest,
    /// Write the output event with this index.
    Write(usize),
    /// Tell the driver that the event is written.
    SignalFinished,
}

/// One thing that the driver of a replay on request does.
#[derive(Clone, Copy, Debug, PartialEq, Eq, Structural)]
pub enum CaptureStep {
    /// Ask the replayer for the next event.
    Request,
    /// Wait for the replayer to have written it.
    AwaitFinished,
    /// Capture the screen as the frame of the output event with this index.
    Capture(usize),
}

/// What the replayer does for `outputs` output events: for each in turn it
/// waits for a request, writes the event and signals that it has; in the
/// end it waits for one request more.
pub open spec fn replay_plan(outputs: nat) -> Seq<ReplayStep> {
    Seq::new(
        3 * outputs + 1,
        |k: int|
            if k % 3 == 0 {
                ReplayStep::AwaitRequest
            } else if k % 3 == 1 {
                ReplayStep::Write((k / 3) as usize)
            } else {
                ReplayStep::SignalFinished
            },
    )
}

/// What the driver does for `outputs` output events: for each in turn it
/// asks for the event, waits until it is written and captures the screen;
/// in the end it asks once more, which lets the replayer leave.
pub open spec fn capture_plan(outputs: nat) -> Seq<CaptureStep> {
    Seq::new(
        3 * outputs + 1,
        |k: int|
            if k % 3 == 0 {
                CaptureStep::Request
            } else if k % 3 == 1 {
                CaptureStep::AwaitFinished
            } else {
                CaptureStep::Capture((k / 3) as usize)
            },
    )
}

/// The steps of the replayer in a replay on request of `outputs` output
/// events.
pub fn controlled_play_steps(outputs: usize) -> (steps: Vec<ReplayStep>)
    requires
        3 * outputs + 1 <= usize::MAX,
    ensures
        steps@ == replay_plan(outputs as nat),
{
    let mut steps: Vec<ReplayStep> = Vec::new();
    let mut i: usize = 0;
    while i < outputs
        invariant
            i <= outputs,
            steps@.len() == 3 * i,
            forall|k: int| 0 <= k < steps@.len() ==> steps@[k] == replay_plan(outputs as nat)[k],
        decreases outputs - i,
    {
        steps.push(ReplayStep::AwaitRequest);
        steps.push(ReplayStep::Write(i));
        steps.push(ReplayStep::SignalFinished);
        i = i + 1;
    }
    steps.push(ReplayStep::AwaitRequest);
    assert(steps@ =~= replay_plan(outputs as nat));
    steps
}

/// The steps of the driver of a replay on request of `outputs` output
/// events.
pub fn transform_steps(outputs: usize) -> (steps: Vec<CaptureStep>)
    requires
        3 * outputs + 1 <= usize::MAX,
    ensures
        steps@ == capture_plan(outputs as nat),
{
    let mut steps: Vec<CaptureStep> = Vec::new();
    let mut i: usize = 0;
    while i < outputs
        invariant
            i <= outputs,
            steps@.len() == 3 * i,
            forall|k: int| 0 <= k < steps@.len() ==> steps@[k] == capture_plan(outputs as nat)[k],
        decreases outputs - i,
    {
        steps.push(CaptureStep::Request);
        steps.push(CaptureStep::AwaitFinished);
        steps.push(CaptureStep::Capture(i));
        i = i + 1;
    }
    steps.push(CaptureStep::Request);
    assert(steps@ =~= capture_plan(outputs as nat));
    steps
}

} // verus!
