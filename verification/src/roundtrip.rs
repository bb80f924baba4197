//! What is written as a recording file is read back unchanged.

use crate::decimal::{decimal_digits, lemma_decimal_digits, lemma_parse_decimal_digits};
use crate::duration::Duration;
use crate::event::{EventView, JournalView};
use crate::fields::{
    data_field, duration_field, is_run_before, lemma_run_before, num_field, FieldError, COLON,
    NEWLINE,
};
use crate::file_format::{file_kind, FileKind, FormatError, BACKSLASH, TERMREC_RECORDING_HEADER};
use crate::records::{
    at_comment, filler_lines, recording_entry, recording_records, timed_data_fields,
    timed_duration_fields,
};
use crate::writer::{
    data_bytes, entry_bytes, event_tag, journal_bytes, number_bytes, number_limit,
    payload_bytes, recording_file, timestamp_fits,
};
use vstd::prelude::*;

verus! {

/// Whether what an event carries can be written without loss: a sleep is
/// no longer, and a blob holds no more bytes, than a numeric field can say.
pub open spec fn payload_fits(event: EventView) -> bool {
    match event {
        EventView::Output(data) => data.len() < number_limit(),
        EventView::InputRealized(data) => data.len() < number_limit(),
        EventView::BarrierUnlocked(data) => data.len() < number_limit(),
        EventView::SleepFinished(duration) => duration.micros < number_limit(),
        EventView::Marker(data) => data.len() < number_limit(),
    }
}

/// Whether a journal can be written without loss: every timestamp and
/// every payload fits.
pub open spec fn faithfully_writable(journal: JournalView) -> bool {
    forall|at: int|
        0 <= at < journal.len() ==> timestamp_fits((#[trigger] journal[at]).0) && payload_fits(
            journal[at].1,
        )
}

/// A numeric field that was written, with anything after it, is read as the
/// number and takes the bytes that were written for it.
pub proof fn lemma_number_read_back(n: nat, rest: Seq<u8>)
    requires
        n < number_limit(),
    ensures
        num_field(number_bytes(n) + rest) == Ok::<(u64, int), FieldError>(
            (n as u64, number_bytes(n).len() as int),
        ),
        duration_field(number_bytes(n) + rest) == Ok::<(Duration, int), FieldError>(
            (Duration { micros: n as u128 }, number_bytes(n).len() as int),
        ),
{
    let digits = decimal_digits(n);
    let input = number_bytes(n) + rest;
    lemma_decimal_digits(n);
    lemma_parse_decimal_digits(n as u64);
    assert forall|j: int| 0 <= j < digits.len() implies input[j] != COLON by {
        assert(input[j] == digits[j]);
    }
    assert(input[digits.len() as int] == COLON);
    assert(is_run_before(input, COLON, digits.len() as int));
    lemma_run_before(input, COLON, digits.len() as int);
    assert(input.subrange(0, digits.len() as int) =~= digits);
}

/// A data field that was written, with anything after it, is read as the
/// same bytes.
pub proof fn lemma_data_read_back(data: Seq<u8>, rest: Seq<u8>)
    requires
        data.len() < number_limit(),
    ensures
        data_field(data_bytes(data) + rest) == Ok::<(Seq<u8>, int), FieldError>(
            (data, data_bytes(data).len() as int),
        ),
{
    let input = data_bytes(data) + rest;
    let used = number_bytes(data.len()).len() as int;
    assert(input =~= number_bytes(data.len()) + (data + rest));
    lemma_number_read_back(data.len(), data + rest);
    assert(input.subrange(used, used + data.len()) =~= data);
}

/// The line that was written for an entry, with anything after it, is read
/// as that entry, up to the backslash that closes the line.
pub proof fn lemma_entry_read_back(entry: (Duration, EventView), rest: Seq<u8>)
    requires
        timestamp_fits(entry.0),
        payload_fits(entry.1),
    ensures
        recording_entry(entry_bytes(entry) + rest) == Some(
            Ok::<((Duration, EventView), int), FieldError>((entry, entry_bytes(entry).len() - 2)),
        ),
        !at_comment(entry_bytes(entry) + rest),
        filler_lines(entry_bytes(entry) + rest) == 0,
        (entry_bytes(entry) + rest).skip(entry_bytes(entry).len() - 2) == seq![BACKSLASH, NEWLINE]
            + rest,
{
    let line = entry_bytes(entry);
    let input = line + rest;
    let stamp = number_bytes(entry.0.micros as nat);
    let payload = payload_bytes(entry.1);
    let tail = seq![BACKSLASH, NEWLINE] + rest;
    assert(input[0] == event_tag(entry.1));
    assert(input[1] == COLON);
    assert(input.skip(2) =~= stamp + (payload + tail));
    lemma_number_read_back(entry.0.micros as nat, payload + tail);
    assert(input.skip(2).skip(stamp.len() as int) =~= payload + tail);
    assert(input.skip(line.len() - 2) =~= tail);
    match entry.1 {
        EventView::SleepFinished(duration) => {
            lemma_number_read_back(duration.micros as nat, tail);
            assert(timed_duration_fields(input.skip(2)) == Ok::<
                (Duration, Duration, int),
                FieldError,
            >((entry.0, duration, (stamp.len() + payload.len()) as int)));
        },
        EventView::Output(data) => {
            lemma_data_read_back(data, tail);
            assert(timed_data_fields(input.skip(2)) == Ok::<(Duration, Seq<u8>, int), FieldError>(
                (entry.0, data, (stamp.len() + payload.len()) as int),
            ));
        },
        EventView::InputRealized(data) => {
            lemma_data_read_back(data, tail);
            assert(timed_data_fields(input.skip(2)) == Ok::<(Duration, Seq<u8>, int), FieldError>(
                (entry.0, data, (stamp.len() + payload.len()) as int),
            ));
        },
        EventView::BarrierUnlocked(data) => {
            lemma_data_read_back(data, tail);
            assert(timed_data_fields(input.skip(2)) == Ok::<(Duration, Seq<u8>, int), FieldError>(
                (entry.0, data, (stamp.len() + payload.len()) as int),
            ));
        },
        EventView::Marker(data) => {
            lemma_data_read_back(data, tail);
            assert(timed_data_fields(input.skip(2)) == Ok::<(Duration, Seq<u8>, int), FieldError>(
                (entry.0, data, (stamp.len() + payload.len()) as int),
            ));
        },
    }
}

/// The lines of two journals in a row are the lines of the one followed by
/// the lines of the other.
pub proof fn lemma_journal_bytes_concat(front: JournalView, back: JournalView)
    ensures
        journal_bytes(front + back) == journal_bytes(front) + journal_bytes(back),
    decreases back.len(),
{
    if back.len() == 0 {
        assert(front + back =~= front);
        assert(journal_bytes(front) + journal_bytes(back) =~= journal_bytes(front));
    } else {
        lemma_journal_bytes_concat(front, back.drop_last());
        assert((front + back).drop_last() =~= front + back.drop_last());
        assert((front + back).last() == back.last());
        assert(journal_bytes(front + back) =~= journal_bytes(front) + journal_bytes(back));
    }
}

/// The lines that were written for a journal are read back as the journal,
/// whatever the count of line breaks before them.
pub proof fn lemma_lines_read_back(journal: JournalView, line: nat)
    requires
        faithfully_writable(journal),
    ensures
        recording_records(journal_bytes(journal), line) == Ok::<JournalView, FormatError>(journal),
    decreases journal.len(),
{
    if journal.len() == 0 {
        assert(journal =~= Seq::<(Duration, EventView)>::empty());
        assert(journal_bytes(journal).len() == 0);
    } else {
        let first = journal[0];
        let later = journal.skip(1);
        assert(journal =~= seq![first] + later);
        lemma_journal_bytes_concat(seq![first], later);
        let single = seq![first];
        assert(single.drop_last() =~= Seq::<(Duration, EventView)>::empty());
        assert(journal_bytes(single.drop_last()).len() == 0);
        assert(single.last() == first);
        assert(journal_bytes(single) =~= entry_bytes(first));
        let input = journal_bytes(journal);
        let rest = journal_bytes(later);
        assert(input == entry_bytes(first) + rest);
        lemma_entry_read_back(first, rest);
        let used = entry_bytes(first).len() - 2;
        let closing = input.skip(used);
        assert(closing == seq![BACKSLASH, NEWLINE] + rest);
        assert(closing[0] == BACKSLASH && closing[1] == NEWLINE);
        assert(closing.skip(2) =~= rest);
        assert forall|at: int| 0 <= at < later.len() implies timestamp_fits(
            (#[trigger] later[at]).0,
        ) && payload_fits(later[at].1) by {
            assert(later[at] == journal[at + 1]);
        }
        lemma_lines_read_back(later, line + 1);
        assert(recording_records(closing, line) == Ok::<JournalView, FormatError>(later));
        assert(seq![first] + later =~= journal);
    }
}

/// Round trip of a journal: the file that is written for a journal which
/// can be written without loss is a recording, and reading its records
/// gives the journal back, timestamps and payloads unchanged.
pub proof fn lemma_journal_round_trip(journal: JournalView)
    requires
        faithfully_writable(journal),
    ensures
        file_kind(recording_file(journal)) == FileKind::Recording,
        recording_records(recording_file(journal).skip(15), 0) == Ok::<JournalView, FormatError>(
            journal,
        ),
{
    let file = recording_file(journal);
    let header = TERMREC_RECORDING_HEADER@;
    assert(header.len() == 15);
    assert(file.subrange(0, 15) =~= header);
    let after = file.skip(15);
    assert(after =~= seq![BACKSLASH, NEWLINE] + journal_bytes(journal));
    assert(after[0] == BACKSLASH && after[1] == NEWLINE);
    assert(after.skip(2) =~= journal_bytes(journal));
    lemma_lines_read_back(journal, 1);
}

} // verus!
