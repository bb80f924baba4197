//! Writing a journal as a termrec recording.

use crate::decimal::{decimal_digits, write_decimal};
use crate::duration::Duration;
use crate::event::{journal_view, EventView, JournalView, RecordingEvent};
use crate::fields::{COLON, NEWLINE};
use crate::file_format::{
    FormatError, BACKSLASH, TAG_BARRIER, TAG_INPUT, TAG_MARKER, TAG_OUTPUT, TAG_SLEEP,
    TERMREC_RECORDING_HEADER,
};
use vstd::prelude::*;

verus! {

/// The tag byte under which an event is written.
pub open spec fn event_tag(event: EventView) -> u8 {
    match event {
        EventView::Output(_) => TAG_OUTPUT,
        EventView::InputRealized(_) => TAG_INPUT,
        EventView::BarrierUnlocked(_) => TAG_BARRIER,
        EventView::SleepFinished(_) => TAG_SLEEP,
        EventView::Marker(_) => TAG_MARKER,
    }
}

/// One more than the largest number that a numeric field holds.
pub open spec fn number_limit() -> nat {
    0x1_0000_0000_0000_0000
}

/// A numeric field as it is written: the digits of `n` and a `:`.
pub open spec fn number_bytes(n: nat) -> Seq<u8> {
    decimal_digits(n).push(COLON)
}

/// A data field as it is written: its length as a numeric field, then its
/// bytes.
pub open spec fn data_bytes(data: Seq<u8>) -> Seq<u8> {
    number_bytes(data.len()) + data
}

/// What is written of an event after its timestamp. The length of a sleep is
/// written in microseconds, reduced to what a numeric field holds.
pub open spec fn payload_bytes(event: EventView) -> Seq<u8> {
    match event {
        EventView::Output(data) => data_bytes(data),
        EventView::InputRealized(data) => data_bytes(data),
        EventView::BarrierUnlocked(data) => data_bytes(data),
        EventView::SleepFinished(duration) => number_bytes(
            (duration.micros as nat) % number_limit(),
        ),
        EventView::Marker(data) => data_bytes(data),
    }
}

/// The line that is written for one journal entry.
pub open spec fn entry_bytes(entry: (Duration, EventView)) -> Seq<u8> {
    seq![event_tag(entry.1), COLON] + number_bytes(entry.0.micros as nat) + payload_bytes(entry.1)
        + seq![BACKSLASH, NEWLINE]
}

/// The lines that are written for a journal, one after the other.
pub open spec fn journal_bytes(journal: JournalView) -> Seq<u8>
    decreases journal.len(),
{
    if journal.len() == 0 {
        Seq::empty()
    } else {
        journal_bytes(journal.drop_last()) + entry_bytes(journal.last())
    }
}

/// The file that is written for a journal: the header line, then the
/// entries.
pub open spec fn recording_file(journal: JournalView) -> Seq<u8> {
    TERMREC_RECORDING_HEADER@ + seq![BACKSLASH, NEWLINE] + journal_bytes(journal)
}

/// Whether a timestamp can be written: it is no more microseconds than a
/// numeric field holds.
pub open spec fn timestamp_fits(timestamp: Duration) -> bool {
    timestamp.micros < number_limit()
}

/// Whether the timestamps of the first `upto` entries can be written.
pub open spec fn writable_upto(journal: JournalView, upto: int) -> bool {
    forall|at: int| 0 <= at < upto ==> timestamp_fits((#[trigger] journal[at]).0)
}

/// Appends a numeric field to `out`.
fn write_number(out: &mut Vec<u8>, n: u64)
    ensures
        final(out)@ == old(out)@ + number_bytes(n as nat),
{
    write_decimal(out, n as u128);
    out.push(COLON);
    assert(final(out)@ =~= old(out)@ + number_bytes(n as nat));
}

/// Appends a data field to `out`.
fn write_data(out: &mut Vec<u8>, data: &Vec<u8>)
    ensures
        final(out)@ == old(out)@ + data_bytes(data@),
{
    write_number(out, data.len() as u64);
    out.extend_from_slice(data.as_slice());
    assert(final(out)@ =~= old(out)@ + data_bytes(data@));
}

/// Appends the line of one journal entry to `out`.
fn write_entry(out: &mut Vec<u8>, micros: u64, event: &RecordingEvent)
    ensures
        final(out)@ == old(out)@ + entry_bytes((Duration { micros: micros as u128 }, event@)),
{
    let ghost entry = (Duration { micros: micros as u128 }, event@);
    let ghost before = out@;
    match event {
        RecordingEvent::Output(data) => {
            out.push(TAG_OUTPUT);
            out.push(COLON);
            write_number(out, micros);
            write_data(out, data);
        },
        RecordingEvent::InputRealized(data) => {
            out.push(TAG_INPUT);
            out.push(COLON);
            write_number(out, micros);
            write_data(out, data);
        },
        RecordingEvent::BarrierUnlocked(data) => {
            out.push(TAG_BARRIER);
            out.push(COLON);
            write_number(out, micros);
            write_data(out, data);
        },
        RecordingEvent::SleepFinished(duration) => {
            out.push(TAG_SLEEP);
            out.push(COLON);
            write_number(out, micros);
            write_number(out, (duration.micros % 0x1_0000_0000_0000_0000) as u64);
        },
        RecordingEvent::Marker(data) => {
            out.push(TAG_MARKER);
            out.push(COLON);
            write_number(out, micros);
            write_data(out, data);
        },
    }
    assert(out@ =~= before + seq![event_tag(entry.1), COLON] + number_bytes(micros as nat)
        + payload_bytes(entry.1));
    out.push(BACKSLASH);
    out.push(NEWLINE);
    assert(out@ =~= before + entry_bytes(entry));
}

/// Writes a journal as the bytes of a recording file.
///
/// The journal is written as it stands. Writing fails at the first entry
/// whose timestamp is more microseconds than a numeric field holds.
pub fn save_recording_termrec(events: Vec<(Duration, RecordingEvent)>) -> (file: Result<
    Vec<u8>,
    FormatError,
>)
    ensures
        match file {
            Ok(bytes) => writable_upto(journal_view(events@), events@.len() as int) && bytes@
                == recording_file(journal_view(events@)),
            Err(e) => exists|at: int|
                0 <= at < events@.len() && writable_upto(journal_view(events@), at)
                    && !timestamp_fits(events@[at].0) && e == (FormatError::TimestampTooLarge {
                    index: at as usize,
                }),
        },
{
    let ghost journal = journal_view(events@);
    let mut out: Vec<u8> = Vec::new();
    out.extend_from_slice(&TERMREC_RECORDING_HEADER);
    out.push(BACKSLASH);
    out.push(NEWLINE);
    let ghost head = out@;
    proof {
        assert(head =~= TERMREC_RECORDING_HEADER@ + seq![BACKSLASH, NEWLINE]);
        assert(journal.take(0) =~= Seq::<(Duration, EventView)>::empty());
        assert(out@ =~= head + journal_bytes(journal.take(0)));
    }
    let mut i: usize = 0;
    while i < events.len()
        invariant
            i <= events@.len(),
            journal == journal_view(events@),
            head == TERMREC_RECORDING_HEADER@ + seq![BACKSLASH, NEWLINE],
            writable_upto(journal, i as int),
            out@ == head + journal_bytes(journal.take(i as int)),
        decreases events@.len() - i,
    {
        let timestamp: Duration = events[i].0;
        if timestamp.micros > 0xFFFF_FFFF_FFFF_FFFF {
            return Err(FormatError::TimestampTooLarge { index: i });
        }
        let ghost before = out@;
        write_entry(&mut out, timestamp.micros as u64, &events[i].1);
        proof {
            let longer = journal.take(i + 1);
            assert(longer.drop_last() =~= journal.take(i as int));
            assert(longer.last() == journal[i as int]);
            assert(journal[i as int] == (Duration { micros: timestamp.micros as u64 as u128 }, events@[i as int].1@));
            assert(out@ =~= head + journal_bytes(longer)) by {
                assert(head + (journal_bytes(journal.take(i as int)) + entry_bytes(
                    journal[i as int],
                )) =~= before + entry_bytes(journal[i as int]));
            }
        }
        i = i + 1;
    }
    proof {
        assert(journal.take(i as int) =~= journal);
    }
    Ok(out)
}

} // verus!
