//! The recorder's own journal: what the child wrote to the terminal, and
//! when.

use crate::duration::Duration;
use crate::event::{journal_view, EventView, RecordingEvent};
use vstd::prelude::*;
use vstd::slice::{slice_subrange, slice_to_vec};

verus! {

/// The size of the buffer into which the terminal is drained: four
/// mebibytes, the most that a terminal as large as mosh allows can hold.
pub const READ_BUFFER_SIZE: usize = 4194304;

/// The number of rows of the terminal that the child is given.
pub const TERMINAL_ROWS: u16 = 24;

/// The number of columns of the terminal that the child is given.
pub const TERMINAL_COLS: u16 = 80;

/// What one read from the terminal gave.
#[derive(Clone, Copy, Debug, PartialEq, Eq, Structural)]
pub enum ReadOutcome {
    /// The read gave this many bytes.
    Read(usize),
    /// Nothing is there to read at the moment.
    WouldBlock,
    /// The read failed with an input/output error, as it does once the
    /// child is gone. The stream has ended.
    Hangup,
    /// The read failed in another way.
    Failed,
}

/// How draining the terminal goes on after a read.
#[derive(Debug)]
pub enum DrainStep {
    /// Bytes were recorded: read again. Where a simulator listens, the blob
    /// is the copy to send to it.
    Again(Option<Vec<u8>>),
    /// The terminal is drained for now.
    Drained,
    /// The read failed and so does the recording.
    Failed,
}

/// The journal of the recorder while a recording runs.
#[derive(Debug)]
pub struct Recorder {
    /// What was recorded so far, in the order in which it was read.
    pub events: Vec<(Duration, RecordingEvent)>,
    /// Whether output is passed on to an input simulator.
    pub forwarding: bool,
}

impl Recorder {
    /// A recorder with an empty journal. `forwarding` says whether an input
    /// simulator listens to the output.
    pub fn begin(forwarding: bool) -> (recorder: Recorder)
        ensures
            recorder.events@.len() == 0,
            recorder.forwarding == forwarding,
    {
        Recorder { events: Vec::new(), forwarding }
    }

    /// Records `data` as output of the child at `timestamp`. Gives the copy
    /// to send to the simulator, where one listens.
    pub fn record(&mut self, timestamp: Duration, data: Vec<u8>) -> (forward: Option<Vec<u8>>)
        ensures
            journal_view(final(self).events@) == journal_view(old(self).events@).push(
                (timestamp, EventView::Output(data@)),
            ),
            final(self).forwarding == old(self).forwarding,
            match forward {
                Some(copy) => old(self).forwarding && copy@ == data@,
                None => !old(self).forwarding,
            },
    {
        let forward: Option<Vec<u8>> = if self.forwarding {
            Some(data.clone())
        } else {
            None
        };
        let ghost before = journal_view(self.events@);
        self.events.push((timestamp, RecordingEvent::Output(data)));
        assert(journal_view(self.events@) =~= before.push((timestamp, EventView::Output(data@))));
        forward
    }

    /// Takes note that the simulator has gone: nothing is passed on any more.
    pub fn forwarding_failed(&mut self)
        ensures
            final(self).events == old(self).events,
            !final(self).forwarding,
    {
        self.forwarding = false;
    }

    /// Takes in what a read from the terminal gave. `buffer` is the buffer
    /// that was read into and `timestamp` the time of the read.
    ///
    /// Bytes that were read are recorded as output. A read that gave
    /// nothing, or would block, or found the child gone ends the draining;
    /// any other failure fails the recording.
    pub fn record_from_fd(&mut self, outcome: ReadOutcome, buffer: &[u8], timestamp: Duration) -> (step:
        DrainStep)
        requires
            outcome matches ReadOutcome::Read(n) ==> n <= buffer@.len(),
        ensures
            final(self).forwarding == old(self).forwarding,
            match outcome {
                ReadOutcome::Read(n) => if n > 0 {
                    &&& journal_view(final(self).events@) == journal_view(old(self).events@).push(
                        (timestamp, EventView::Output(buffer@.take(n as int))),
                    )
                    &&& step matches DrainStep::Again(forward)
                    &&& match forward {
                        Some(copy) => old(self).forwarding && copy@ == buffer@.take(n as int),
                        None => !old(self).forwarding,
                    }
                } else {
                    final(self).events == old(self).events && step is Drained
                },
                ReadOutcome::WouldBlock => final(self).events == old(self).events && step
                    is Drained,
                ReadOutcome::Hangup => final(self).events == old(self).events && step is Drained,
                ReadOutcome::Failed => final(self).events == old(self).events && step is Failed,
            },
    {
        match outcome {
            ReadOutcome::Read(n) => {
                if n == 0 {
                    DrainStep::Drained
                } else {
                    let data: Vec<u8> = slice_to_vec(slice_subrange(buffer, 0, n));
                    assert(data@ =~= buffer@.take(n as int));
                    DrainStep::Again(self.record(timestamp, data))
                }
            },
            ReadOutcome::WouldBlock => DrainStep::Drained,
            ReadOutcome::Hangup => DrainStep::Drained,
            ReadOutcome::Failed => DrainStep::Failed,
        }
    }

    /// Closes the recorder. Gives its journal, and whether a simulator still
    /// listens and has to be told that the recording has ended.
    pub fn finish(self) -> (closed: (Vec<(Duration, RecordingEvent)>, bool))
        ensures
            closed.0 == self.events,
            closed.1 == self.forwarding,
    {
        (self.events, self.forwarding)
    }
}

} // verus!
