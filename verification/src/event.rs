//! The events of a journal and of an input script.

use crate::duration::Duration;
use vstd::prelude::*;
use vstd::std_specs::cmp::PartialEqSpecImpl;

verus! {

/// A blob of bytes as the terminal produced or consumed it. A blob is never
/// changed once it is part of an event.
pub type Data = Vec<u8>;

/// What happened at one instant of a recording.
#[derive(Debug)]
pub enum RecordingEvent {
    /// Bytes that the child wrote to the terminal.
    Output(Data),
    /// Bytes that the simulator wrote to the child.
    InputRealized(Data),
    /// A wait barrier completed; the payload is the needle that matched.
    BarrierUnlocked(Data),
    /// An unconditional sleep of the given length ended.
    SleepFinished(Duration),
    /// A free-form label.
    Marker(Data),
}

/// The mathematical value of a [`RecordingEvent`].
pub enum EventView {
    Output(Seq<u8>),
    InputRealized(Seq<u8>),
    BarrierUnlocked(Seq<u8>),
    SleepFinished(Duration),
    Marker(Seq<u8>),
}

impl View for RecordingEvent {
    type V = EventView;

    open spec fn view(&self) -> EventView {
        match self {
            RecordingEvent::Output(data) => EventView::Output(data@),
            RecordingEvent::InputRealized(data) => EventView::InputRealized(data@),
            RecordingEvent::BarrierUnlocked(data) => EventView::BarrierUnlocked(data@),
            RecordingEvent::SleepFinished(duration) => EventView::SleepFinished(*duration),
            RecordingEvent::Marker(data) => EventView::Marker(data@),
        }
    }
}

/// Whether two blobs hold the same bytes.
pub fn same_bytes(a: &[u8], b: &[u8]) -> (same: bool)
    ensures
        same == (a@ == b@),
{
    if a.len() != b.len() {
        return false;
    }
    let mut i: usize = 0;
    while i < a.len()
        invariant
            a.len() == b.len(),
            i <= a.len(),
            forall|k: int| 0 <= k < i ==> a@[k] == b@[k],
        decreases a.len() - i,
    {
        if a[i] != b[i] {
            return false;
        }
        i = i + 1;
    }
    assert(a@ =~= b@);
    true
}

impl PartialEq for RecordingEvent {
    fn eq(&self, other: &RecordingEvent) -> (equal: bool) {
        match (self, other) {
            (RecordingEvent::Output(a), RecordingEvent::Output(b)) => same_bytes(
                a.as_slice(),
                b.as_slice(),
            ),
            (RecordingEvent::InputRealized(a), RecordingEvent::InputRealized(b)) => same_bytes(
                a.as_slice(),
                b.as_slice(),
            ),
            (RecordingEvent::BarrierUnlocked(a), RecordingEvent::BarrierUnlocked(b)) => same_bytes(
                a.as_slice(),
                b.as_slice(),
            ),
            (RecordingEvent::SleepFinished(a), RecordingEvent::SleepFinished(b)) => a.micros
                == b.micros,
            (RecordingEvent::Marker(a), RecordingEvent::Marker(b)) => same_bytes(
                a.as_slice(),
                b.as_slice(),
            ),
            _ => false,
        }
    }
}

impl PartialEqSpecImpl for RecordingEvent {
    open spec fn obeys_eq_spec() -> bool {
        true
    }

    open spec fn eq_spec(&self, other: &RecordingEvent) -> bool {
        self@ == other@
    }
}

impl Eq for RecordingEvent {}

impl Clone for RecordingEvent {
    fn clone(&self) -> (copy: RecordingEvent)
        ensures
            copy@ == self@,
    {
        match self {
            RecordingEvent::Output(data) => RecordingEvent::Output(data.clone()),
            RecordingEvent::InputRealized(data) => RecordingEvent::InputRealized(data.clone()),
            RecordingEvent::BarrierUnlocked(data) => RecordingEvent::BarrierUnlocked(data.clone()),
            RecordingEvent::SleepFinished(duration) => RecordingEvent::SleepFinished(*duration),
            RecordingEvent::Marker(data) => RecordingEvent::Marker(data.clone()),
        }
    }
}

/// Bytes to write to the child, and when.
#[derive(Debug)]
pub struct InputEvent {
    /// The offset from the start of the current phase at which to write.
    pub timestamp: Duration,
    /// The bytes to write.
    pub data: Data,
}

/// One step of an input script.
#[derive(Debug)]
pub enum SimulationEvent {
    /// Write bytes at an offset within the current phase.
    Input(InputEvent),
    /// Wait until the needle has been seen in the child's output since the
    /// last barrier. A new phase starts afterwards.
    WaitBarrier(Data),
    /// Sleep for the given time. A new phase starts afterwards.
    Sleep(Duration),
    /// Put a label into the journal.
    Marker(Data),
}

/// The mathematical value of a [`SimulationEvent`].
pub enum ScriptEventView {
    Input { timestamp: Duration, data: Seq<u8> },
    WaitBarrier(Seq<u8>),
    Sleep(Duration),
    Marker(Seq<u8>),
}

impl View for SimulationEvent {
    type V = ScriptEventView;

    open spec fn view(&self) -> ScriptEventView {
        match self {
            SimulationEvent::Input(input) => ScriptEventView::Input {
                timestamp: input.timestamp,
                data: input.data@,
            },
            SimulationEvent::WaitBarrier(needle) => ScriptEventView::WaitBarrier(needle@),
            SimulationEvent::Sleep(duration) => ScriptEventView::Sleep(*duration),
            SimulationEvent::Marker(data) => ScriptEventView::Marker(data@),
        }
    }
}

/// A journal as a mathematical sequence of timestamped events.
pub type JournalView = Seq<(Duration, EventView)>;

/// The mathematical value of a journal.
pub open spec fn journal_view(journal: Seq<(Duration, RecordingEvent)>) -> JournalView {
    Seq::new(journal.len(), |i: int| (journal[i].0, journal[i].1@))
}

/// The mathematical value of an input script.
pub open spec fn script_view(script: Seq<SimulationEvent>) -> Seq<ScriptEventView> {
    Seq::new(script.len(), |i: int| script[i]@)
}

} // verus!
