//! The input simulator: plays a script of keystrokes against the child and
//! keeps in step with it by waiting for what the child prints.
//!
//! The simulator is a state machine. It says what to do next; the caller
//! sleeps, writes, receives and reads the clock, and reports back.

use crate::duration::Duration;
use crate::event::{
    journal_view, script_view, EventView, JournalView, RecordingEvent, ScriptEventView,
    SimulationEvent,
};
use crate::search::{find_subslice, first_occurrence, lemma_first_occurrence, remove_range};
use vstd::prelude::*;

verus! {

/// What is left of the collected output once a search for `needle` is
/// done: where the needle stands in it, the bytes behind its first
/// occurrence, else all of it.
pub open spec fn after_needle(collected: Seq<u8>, needle: Seq<u8>) -> Seq<u8> {
    match first_occurrence(collected, needle) {
        Some(at) => collected.skip(at + needle.len()),
        None => collected,
    }
}

/// Adds `data` to the output collected since the last barrier and looks
/// for `needle` in the whole. Where the needle is found, the collected
/// output is cut down to what follows its first occurrence.
pub fn feed_barrier(collected: &mut Vec<u8>, data: &[u8], needle: &[u8]) -> (found: bool)
    requires
        needle@.len() > 0 || old(collected)@.len() + data@.len() == 0,
    ensures
        found == first_occurrence(old(collected)@ + data@, needle@) is Some,
        final(collected)@ == after_needle(old(collected)@ + data@, needle@),
{
    collected.extend_from_slice(data);
    assert(collected@ =~= old(collected)@ + data@);
    let len: usize = collected.len();
    match find_subslice(collected.as_slice(), needle) {
        Some(at) => {
            proof {
                lemma_first_occurrence(collected@, needle@);
                assert(at + needle@.len() <= len);
            }
            let ghost whole = collected@;
            remove_range(collected, 0, at + needle.len());
            assert(collected@ =~= whole.skip(at + needle.len()));
            true
        },
        None => false,
    }
}

/// What the simulator asks its caller to do next.
#[derive(Clone, Copy, Debug, PartialEq, Eq, Structural)]
pub enum SimulatorStep {
    /// Sleep for `delay`, write the input of the step to the child, then
    /// report with `input_written`. `behind` is the time by which the input
    /// is late already; it is zero unless `delay` is.
    Write { delay: Duration, behind: Duration },
    /// Receive the next output of the child and report it with
    /// `output_received`, or with `output_ended` where the recording ended.
    Receive,
    /// The needle of the barrier was seen: read the clock and report with
    /// `barrier_unlocked`.
    Unlocked,
    /// Sleep for the given time, then report with `slept`.
    Sleep(Duration),
    /// Read the clock and report with `marked`.
    Mark,
    /// The script is done, or the recording ended at a barrier.
    Finished,
}

/// The state of a simulator as a mathematical value.
pub struct SimulatorState {
    /// The script.
    pub script: Seq<ScriptEventView>,
    /// The index of the step that is due.
    pub next: int,
    /// The time that has passed in the current phase while inputs were
    /// written.
    pub last_timestamp: Duration,
    /// The output of the child since the last barrier, as far as no barrier
    /// has used it up.
    pub collected: Seq<u8>,
    /// What the simulator has recorded.
    pub recorded: JournalView,
    /// Whether the needle of the barrier that is due has been seen.
    pub unlocked: bool,
    /// Whether the recording ended while a barrier was waited for.
    pub stopped: bool,
}

/// What a simulator in the given state asks for.
pub open spec fn step_of(state: SimulatorState) -> SimulatorStep {
    if state.stopped || state.next >= state.script.len() {
        SimulatorStep::Finished
    } else {
        match state.script[state.next] {
            ScriptEventView::Input { timestamp, .. } => if timestamp.micros
                >= state.last_timestamp.micros {
                SimulatorStep::Write {
                    delay: Duration {
                        micros: (timestamp.micros - state.last_timestamp.micros) as u128,
                    },
                    behind: Duration { micros: 0 },
                }
            } else {
                SimulatorStep::Write {
                    delay: Duration { micros: 0 },
                    behind: Duration {
                        micros: (state.last_timestamp.micros - timestamp.micros) as u128,
                    },
                }
            },
            ScriptEventView::WaitBarrier(_) => if state.unlocked {
                SimulatorStep::Unlocked
            } else {
                SimulatorStep::Receive
            },
            ScriptEventView::Sleep(duration) => SimulatorStep::Sleep(duration),
            ScriptEventView::Marker(_) => SimulatorStep::Mark,
        }
    }
}

/// The input simulator.
#[derive(Debug)]
pub struct Simulator {
    script: Vec<SimulationEvent>,
    next: usize,
    last_timestamp: Duration,
    collected: Vec<u8>,
    recorded: Vec<(Duration, RecordingEvent)>,
    unlocked: bool,
    stopped: bool,
}

impl View for Simulator {
    type V = SimulatorState;

    closed spec fn view(&self) -> SimulatorState {
        SimulatorState {
            script: script_view(self.script@),
            next: self.next as int,
            last_timestamp: self.last_timestamp,
            collected: self.collected@,
            recorded: journal_view(self.recorded@),
            unlocked: self.unlocked,
            stopped: self.stopped,
        }
    }
}

impl Simulator {
    /// Whether the state is one that a simulator can be in: the step that
    /// is due lies within the script or at its end, and a needle is taken
    /// as seen only while its barrier is due.
    pub open spec fn wf(&self) -> bool {
        &&& 0 <= self@.next <= self@.script.len()
        &&& self@.unlocked ==> self@.next < self@.script.len() && self@.script[self@.next]
            is WaitBarrier
    }

    /// A simulator at the start of `script`.
    pub fn new(script: Vec<SimulationEvent>) -> (simulator: Simulator)
        ensures
            simulator.wf(),
            simulator@ == (SimulatorState {
                script: script_view(script@),
                next: 0,
                last_timestamp: Duration { micros: 0 },
                collected: Seq::empty(),
                recorded: Seq::empty(),
                unlocked: false,
                stopped: false,
            }),
    {
        let simulator = Simulator {
            script,
            next: 0,
            last_timestamp: Duration::zero(),
            collected: Vec::new(),
            recorded: Vec::new(),
            unlocked: false,
            stopped: false,
        };
        assert(simulator@.recorded =~= Seq::empty());
        simulator
    }

    /// What to do next.
    pub fn next_step(&self) -> (step: SimulatorStep)
        requires
            self.wf(),
        ensures
            step == step_of(self@),
    {
        if self.stopped || self.next >= self.script.len() {
            return SimulatorStep::Finished;
        }
        assert(self@.script[self@.next] == self.script@[self.next as int]@);
        match &self.script[self.next] {
            SimulationEvent::Input(input) => {
                match input.timestamp.checked_sub(self.last_timestamp) {
                    Some(delay) => SimulatorStep::Write { delay, behind: Duration::zero() },
                    None => SimulatorStep::Write {
                        delay: Duration::zero(),
                        behind: Duration {
                            micros: self.last_timestamp.micros - input.timestamp.micros,
                        },
                    },
                }
            },
            SimulationEvent::WaitBarrier(_) => if self.unlocked {
                SimulatorStep::Unlocked
            } else {
                SimulatorStep::Receive
            },
            SimulationEvent::Sleep(duration) => SimulatorStep::Sleep(*duration),
            SimulationEvent::Marker(_) => SimulatorStep::Mark,
        }
    }

    /// The bytes to write in the step that is due, which is a write.
    pub fn input_data(&self) -> (data: &Vec<u8>)
        requires
            self.wf(),
            step_of(self@) is Write,
        ensures
            self@.script[self@.next] matches ScriptEventView::Input { data: bytes, .. } && data@
                == bytes,
    {
        assert(self@.script[self@.next] == self.script@[self.next as int]@);
        match &self.script[self.next] {
            SimulationEvent::Input(input) => &input.data,
            _ => {
                proof {
                    assert(false);
                }
                &self.collected
            },
        }
    }

    /// Reports that the input of the step was written. `now` is the time
    /// of the recording after the write and `elapsed` the time that the
    /// step took, its sleep included.
    ///
    /// The input is recorded as realized at `now`. The phase moves on by
    /// the time that the step took, not by the time that the script gave.
    pub fn input_written(&mut self, now: Duration, elapsed: Duration)
        requires
            old(self).wf(),
            step_of(old(self)@) is Write,
            old(self)@.last_timestamp.micros + elapsed.micros <= u128::MAX,
        ensures
            final(self).wf(),
            old(self)@.script[old(self)@.next] matches ScriptEventView::Input { data, .. }
                && final(self)@ == (SimulatorState {
                next: old(self)@.next + 1,
                last_timestamp: Duration {
                    micros: (old(self)@.last_timestamp.micros + elapsed.micros) as u128,
                },
                recorded: old(self)@.recorded.push((now, EventView::InputRealized(data))),
                ..old(self)@
            }),
    {
        assert(self@.script[self@.next] == self.script@[self.next as int]@);
        assert(self.next < self.script.len());
        let ghost before = self@.recorded;
        match &self.script[self.next] {
            SimulationEvent::Input(input) => {
                let data: Vec<u8> = input.data.clone();
                self.recorded.push((now, RecordingEvent::InputRealized(data)));
                assert(self@.recorded =~= before.push((now, EventView::InputRealized(data@))));
            },
            _ => {},
        }
        self.last_timestamp = Duration { micros: self.last_timestamp.micros + elapsed.micros };
        self.next = self.next + 1;
    }

    /// Whether the output that a barrier has collected, with `data` added,
    /// can be searched for its needle: an empty needle can be looked for
    /// only in no output at all.
    pub open spec fn can_receive(&self, data: Seq<u8>) -> bool {
        self@.script[self@.next] matches ScriptEventView::WaitBarrier(needle) && (needle.len() > 0
            || self@.collected.len() + data.len() == 0)
    }

    /// Whether `data` can be reported as output now, as `can_receive` says.
    pub fn accepts(&self, data: &[u8]) -> (accepted: bool)
        requires
            self.wf(),
            step_of(self@) is Receive,
        ensures
            accepted == self.can_receive(data@),
    {
        assert(self@.script[self@.next] == self.script@[self.next as int]@);
        match &self.script[self.next] {
            SimulationEvent::WaitBarrier(needle) => needle.len() > 0 || (self.collected.len() == 0
                && data.len() == 0),
            _ => false,
        }
    }

    /// The time that has passed in the current phase.
    pub fn last_timestamp(&self) -> (time: Duration)
        ensures
            time == self@.last_timestamp,
    {
        self.last_timestamp
    }

    /// Reports output of the child while a barrier is waited for. Says
    /// whether the needle of the barrier has now been seen.
    ///
    /// The output is added to what was collected. Once the needle stands in
    /// it, everything up to the end of its first occurrence is dropped.
    pub fn output_received(&mut self, data: &[u8]) -> (found: bool)
        requires
            old(self).wf(),
            step_of(old(self)@) is Receive,
            old(self).can_receive(data@),
        ensures
            final(self).wf(),
            old(self)@.script[old(self)@.next] matches ScriptEventView::WaitBarrier(needle)
                && found == first_occurrence(old(self)@.collected + data@, needle) is Some
                && final(self)@ == (SimulatorState {
                collected: after_needle(old(self)@.collected + data@, needle),
                unlocked: found,
                ..old(self)@
            }),
    {
        assert(self@.script[self@.next] == self.script@[self.next as int]@);
        let found: bool = match &self.script[self.next] {
            SimulationEvent::WaitBarrier(needle) => feed_barrier(
                &mut self.collected,
                data,
                needle.as_slice(),
            ),
            _ => false,
        };
        self.unlocked = found;
        found
    }

    /// Reports that the recording ended while a barrier was waited for.
    /// The simulation stops there.
    pub fn output_ended(&mut self)
        requires
            old(self).wf(),
            step_of(old(self)@) is Receive,
        ensures
            final(self).wf(),
            final(self)@ == (SimulatorState { stopped: true, ..old(self)@ }),
    {
        self.stopped = true;
    }

    /// Reports the time at which a barrier was found unlocked. The needle
    /// is recorded as unlocked at `now` and a new phase starts.
    pub fn barrier_unlocked(&mut self, now: Duration)
        requires
            old(self).wf(),
            step_of(old(self)@) is Unlocked,
        ensures
            final(self).wf(),
            old(self)@.script[old(self)@.next] matches ScriptEventView::WaitBarrier(needle)
                && final(self)@ == (SimulatorState {
                next: old(self)@.next + 1,
                last_timestamp: Duration { micros: 0 },
                recorded: old(self)@.recorded.push((now, EventView::BarrierUnlocked(needle))),
                unlocked: false,
                ..old(self)@
            }),
    {
        assert(self@.script[self@.next] == self.script@[self.next as int]@);
        assert(self.next < self.script.len());
        let ghost before = self@.recorded;
        match &self.script[self.next] {
            SimulationEvent::WaitBarrier(needle) => {
                let copy: Vec<u8> = needle.clone();
                self.recorded.push((now, RecordingEvent::BarrierUnlocked(copy)));
                assert(self@.recorded =~= before.push((now, EventView::BarrierUnlocked(copy@))));
            },
            _ => {},
        }
        self.last_timestamp = Duration::zero();
        self.unlocked = false;
        self.next = self.next + 1;
    }

    /// Reports that the sleep of the step is over. It is recorded as
    /// finished at `now` and a new phase starts.
    pub fn slept(&mut self, now: Duration)
        requires
            old(self).wf(),
            step_of(old(self)@) is Sleep,
        ensures
            final(self).wf(),
            old(self)@.script[old(self)@.next] matches ScriptEventView::Sleep(duration)
                && final(self)@ == (SimulatorState {
                next: old(self)@.next + 1,
                last_timestamp: Duration { micros: 0 },
                recorded: old(self)@.recorded.push((now, EventView::SleepFinished(duration))),
                ..old(self)@
            }),
    {
        assert(self@.script[self@.next] == self.script@[self.next as int]@);
        assert(self.next < self.script.len());
        let ghost before = self@.recorded;
        match &self.script[self.next] {
            SimulationEvent::Sleep(duration) => {
                self.recorded.push((now, RecordingEvent::SleepFinished(*duration)));
                assert(self@.recorded =~= before.push((now, EventView::SleepFinished(*duration))));
            },
            _ => {},
        }
        self.last_timestamp = Duration::zero();
        self.next = self.next + 1;
    }

    /// Reports the time for the marker of the step, which is recorded at
    /// `now`. The phase goes on.
    pub fn marked(&mut self, now: Duration)
        requires
            old(self).wf(),
            step_of(old(self)@) is Mark,
        ensures
            final(self).wf(),
            old(self)@.script[old(self)@.next] matches ScriptEventView::Marker(label)
                && final(self)@ == (SimulatorState {
                next: old(self)@.next + 1,
                recorded: old(self)@.recorded.push((now, EventView::Marker(label))),
                ..old(self)@
            }),
    {
        assert(self@.script[self@.next] == self.script@[self.next as int]@);
        assert(self.next < self.script.len());
        let ghost before = self@.recorded;
        match &self.script[self.next] {
            SimulationEvent::Marker(label) => {
                let copy: Vec<u8> = label.clone();
                self.recorded.push((now, RecordingEvent::Marker(copy)));
                assert(self@.recorded =~= before.push((now, EventView::Marker(copy@))));
            },
            _ => {},
        }
        self.next = self.next + 1;
    }

    /// Ends the simulation and gives what it has recorded, in the order of
    /// the script.
    pub fn finish(self) -> (recorded: Vec<(Duration, RecordingEvent)>)
        ensures
            journal_view(recorded@) == self@.recorded,
    {
        self.recorded
    }
}

} // verus!
