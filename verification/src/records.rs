//! The records of a termrec file.
//!
//! After the header of a file come its records, each a two-byte tag, then
//! its fields. The writer ends each line with a backslash and a line end;
//! the reader takes that pair, a pair of line ends and `--` comments as
//! filler between records.

use crate::duration::Duration;
use crate::event::{
    journal_view, script_view, EventView, InputEvent, JournalView, RecordingEvent,
    ScriptEventView, SimulationEvent,
};
use crate::fields::{
    comment_len, data_field, duration_field, lemma_num_field_bounds, read_data, read_duration,
    read_line_comment, FieldError, COLON, NEWLINE,
};
use crate::file_format::{
    FormatError, BACKSLASH, DASH, TAG_BARRIER, TAG_INPUT, TAG_MARKER, TAG_OUTPUT, TAG_SLEEP,
};
use vstd::prelude::*;

verus! {

/// A timestamp field and a data field in a row, with the bytes both take.
pub open spec fn timed_data_fields(input: Seq<u8>) -> Result<(Duration, Seq<u8>, int), FieldError> {
    match duration_field(input) {
        Err(e) => Err(e),
        Ok((timestamp, first)) => match data_field(input.skip(first)) {
            Err(e) => Err(e),
            Ok((data, second)) => Ok((timestamp, data, first + second)),
        },
    }
}

/// A timestamp field and a duration field in a row, with the bytes both take.
pub open spec fn timed_duration_fields(input: Seq<u8>) -> Result<
    (Duration, Duration, int),
    FieldError,
> {
    match duration_field(input) {
        Err(e) => Err(e),
        Ok((timestamp, first)) => match duration_field(input.skip(first)) {
            Err(e) => Err(e),
            Ok((duration, second)) => Ok((timestamp, duration, first + second)),
        },
    }
}

/// Whether `tag` announces a record of a recording that carries data.
pub open spec fn is_data_tag(tag: u8) -> bool {
    tag == TAG_OUTPUT || tag == TAG_INPUT || tag == TAG_BARRIER || tag == TAG_MARKER
}

/// The event that a data record with the given tag stands for.
pub open spec fn data_event(tag: u8, data: Seq<u8>) -> EventView {
    if tag == TAG_OUTPUT {
        EventView::Output(data)
    } else if tag == TAG_INPUT {
        EventView::InputRealized(data)
    } else if tag == TAG_BARRIER {
        EventView::BarrierUnlocked(data)
    } else {
        EventView::Marker(data)
    }
}

/// The record of a recording at the front of `input`, with the bytes it
/// takes, tag included; `None` where the first two bytes are no record tag.
pub open spec fn recording_entry(input: Seq<u8>) -> Option<
    Result<((Duration, EventView), int), FieldError>,
> {
    if input.len() < 2 || input[1] != COLON {
        None
    } else if input[0] == TAG_SLEEP {
        Some(
            match timed_duration_fields(input.skip(2)) {
                Ok((timestamp, duration, used)) => Ok(
                    ((timestamp, EventView::SleepFinished(duration)), used + 2),
                ),
                Err(e) => Err(e),
            },
        )
    } else if is_data_tag(input[0]) {
        Some(
            match timed_data_fields(input.skip(2)) {
                Ok((timestamp, data, used)) => Ok(
                    ((timestamp, data_event(input[0], data)), used + 2),
                ),
                Err(e) => Err(e),
            },
        )
    } else {
        None
    }
}

/// Whether `input` starts with the two dashes of a comment.
pub open spec fn at_comment(input: Seq<u8>) -> bool {
    input.len() >= 2 && input[0] == DASH && input[1] == DASH
}

/// The number of line breaks that the filler at the front of `input` counts
/// for: one for a backslash and a line end, two for a pair of line ends,
/// none where `input` starts with neither.
pub open spec fn filler_lines(input: Seq<u8>) -> nat {
    if input.len() >= 2 && input[0] == BACKSLASH && input[1] == NEWLINE {
        1
    } else if input.len() >= 2 && input[0] == NEWLINE && input[1] == NEWLINE {
        2
    } else {
        0
    }
}

/// A record that was read leaves off inside the input, after its tag.
pub proof fn lemma_entry_bounds(input: Seq<u8>)
    ensures
        recording_entry(input) matches Some(Ok((_, used))) ==> 2 < used <= input.len(),
        script_entry(input) matches Some(Ok((_, used))) ==> 2 < used <= input.len(),
        timed_data_fields(input) matches Ok((_, _, used)) ==> 2 < used <= input.len(),
        timed_duration_fields(input) matches Ok((_, _, used)) ==> 2 < used <= input.len(),
{
    lemma_num_field_bounds(input);
    match duration_field(input) {
        Ok((_, first)) => {
            lemma_num_field_bounds(input.skip(first));
        },
        Err(_) => {},
    }
    if input.len() >= 2 {
        let fields = input.skip(2);
        lemma_num_field_bounds(fields);
        match duration_field(fields) {
            Ok((_, first)) => {
                lemma_num_field_bounds(fields.skip(first));
            },
            Err(_) => {},
        }
    }
}

/// The entries of a recording whose records, with filler between them, make
/// up `input`. Reading ends where fewer than two bytes are left. `line` is
/// the count of line breaks taken as filler before `input`.
pub open spec fn recording_records(input: Seq<u8>, line: nat) -> Result<JournalView, FormatError>
    decreases input.len(),
{
    if input.len() < 2 {
        Ok(Seq::empty())
    } else if at_comment(input) {
        proof {
            lemma_num_field_bounds(input.skip(2));
        }
        recording_records(input.skip(2 + comment_len(input.skip(2))), line)
    } else if filler_lines(input) > 0 {
        recording_records(input.skip(2), line + filler_lines(input))
    } else {
        match recording_entry(input) {
            None => Err(
                FormatError::UnknownCommand {
                    first: input[0],
                    second: input[1],
                    line: line as usize,
                },
            ),
            Some(Err(cause)) => Err(FormatError::InvalidRecord { line: line as usize, cause }),
            Some(Ok((entry, used))) => {
                proof {
                    lemma_entry_bounds(input);
                }
                match recording_records(input.skip(used), line) {
                    Ok(rest) => Ok(seq![entry] + rest),
                    Err(e) => Err(e),
                }
            },
        }
    }
}

/// The record of an input script at the front of `input`, with the bytes it
/// takes, tag included; `None` where the first two bytes are no record tag.
pub open spec fn script_entry(input: Seq<u8>) -> Option<Result<(ScriptEventView, int), FieldError>> {
    if input.len() < 2 || input[1] != COLON {
        None
    } else if input[0] == TAG_INPUT {
        Some(
            match timed_data_fields(input.skip(2)) {
                Ok((timestamp, data, used)) => Ok(
                    (ScriptEventView::Input { timestamp, data }, used + 2),
                ),
                Err(e) => Err(e),
            },
        )
    } else if input[0] == TAG_BARRIER {
        Some(
            match data_field(input.skip(2)) {
                Ok((needle, used)) => Ok((ScriptEventView::WaitBarrier(needle), used + 2)),
                Err(e) => Err(e),
            },
        )
    } else if input[0] == TAG_SLEEP {
        Some(
            match duration_field(input.skip(2)) {
                Ok((duration, used)) => Ok((ScriptEventView::Sleep(duration), used + 2)),
                Err(e) => Err(e),
            },
        )
    } else if input[0] == TAG_MARKER {
        Some(
            match data_field(input.skip(2)) {
                Ok((data, used)) => Ok((ScriptEventView::Marker(data), used + 2)),
                Err(e) => Err(e),
            },
        )
    } else {
        None
    }
}

/// The events of an input script whose records, with filler between them,
/// make up `input`. Reading ends where fewer than two bytes are left.
pub open spec fn script_records(input: Seq<u8>, line: nat) -> Result<
    Seq<ScriptEventView>,
    FormatError,
>
    decreases input.len(),
{
    if input.len() < 2 {
        Ok(Seq::empty())
    } else if at_comment(input) {
        proof {
            lemma_num_field_bounds(input.skip(2));
        }
        script_records(input.skip(2 + comment_len(input.skip(2))), line)
    } else if filler_lines(input) > 0 {
        script_records(input.skip(2), line + filler_lines(input))
    } else {
        match script_entry(input) {
            None => Err(
                FormatError::UnknownCommand {
                    first: input[0],
                    second: input[1],
                    line: line as usize,
                },
            ),
            Some(Err(cause)) => Err(FormatError::InvalidRecord { line: line as usize, cause }),
            Some(Ok((event, used))) => {
                proof {
                    lemma_entry_bounds(input);
                }
                match script_records(input.skip(used), line) {
                    Ok(rest) => Ok(seq![event] + rest),
                    Err(e) => Err(e),
                }
            },
        }
    }
}

/// `front` followed by what `rest` holds, or the error that `rest` is.
pub open spec fn prepend<T>(front: Seq<T>, rest: Result<Seq<T>, FormatError>) -> Result<
    Seq<T>,
    FormatError,
> {
    match rest {
        Ok(entries) => Ok(front + entries),
        Err(e) => Err(e),
    }
}

/// Reads a timestamp field and a data field that follows it.
fn read_timed_data(input: &[u8], from: usize) -> (fields: Result<
    (Duration, Vec<u8>, usize),
    FieldError,
>)
    requires
        from <= input@.len(),
    ensures
        match fields {
            Ok((timestamp, data, next)) => timed_data_fields(input@.skip(from as int)) == Ok::<
                (Duration, Seq<u8>, int),
                FieldError,
            >((timestamp, data@, next - from)) && from + 2 < next <= input@.len(),
            Err(e) => timed_data_fields(input@.skip(from as int)) == Err::<
                (Duration, Seq<u8>, int),
                FieldError,
            >(e),
        },
{
    match read_duration(input, from) {
        Err(e) => Err(e),
        Ok((timestamp, middle)) => {
            assert(input@.skip(from as int).skip(middle - from) =~= input@.skip(middle as int));
            match read_data(input, middle) {
                Err(e) => Err(e),
                Ok((data, next)) => Ok((timestamp, data, next)),
            }
        },
    }
}

/// Reads a timestamp field and a duration field that follows it.
fn read_timed_duration(input: &[u8], from: usize) -> (fields: Result<
    (Duration, Duration, usize),
    FieldError,
>)
    requires
        from <= input@.len(),
    ensures
        match fields {
            Ok((timestamp, duration, next)) => timed_duration_fields(input@.skip(from as int))
                == Ok::<(Duration, Duration, int), FieldError>((timestamp, duration, next - from))
                && from + 2 < next <= input@.len(),
            Err(e) => timed_duration_fields(input@.skip(from as int)) == Err::<
                (Duration, Duration, int),
                FieldError,
            >(e),
        },
{
    match read_duration(input, from) {
        Err(e) => Err(e),
        Ok((timestamp, middle)) => {
            assert(input@.skip(from as int).skip(middle - from) =~= input@.skip(middle as int));
            match read_duration(input, middle) {
                Err(e) => Err(e),
                Ok((duration, next)) => Ok((timestamp, duration, next)),
            }
        },
    }
}

/// Reads the record of a recording that starts at `from`, where two bytes or
/// more are left. Gives the entry and the index after it, or `None` where
/// no record tag stands at `from`.
fn read_recording_entry(input: &[u8], from: usize) -> (record: Option<
    Result<((Duration, RecordingEvent), usize), FieldError>,
>)
    requires
        from + 2 <= input@.len(),
    ensures
        match record {
            None => recording_entry(input@.skip(from as int)) is None,
            Some(Err(e)) => recording_entry(input@.skip(from as int)) matches Some(Err(cause))
                && cause == e,
            Some(Ok((entry, next))) => recording_entry(input@.skip(from as int)) matches Some(
                Ok((read, used)),
            ) && read == (entry.0, entry.1@) && used == next - from && from + 2 < next
                <= input@.len(),
        },
{
    let tag: u8 = input[from];
    assert(input@.skip(from as int).skip(2) =~= input@.skip(from + 2));
    if input[from + 1] != COLON {
        None
    } else if tag == TAG_SLEEP {
        match read_timed_duration(input, from + 2) {
            Ok((timestamp, duration, next)) => Some(
                Ok(((timestamp, RecordingEvent::SleepFinished(duration)), next)),
            ),
            Err(e) => Some(Err(e)),
        }
    } else if tag == TAG_OUTPUT || tag == TAG_INPUT || tag == TAG_BARRIER || tag == TAG_MARKER {
        match read_timed_data(input, from + 2) {
            Ok((timestamp, data, next)) => {
                let event = if tag == TAG_OUTPUT {
                    RecordingEvent::Output(data)
                } else if tag == TAG_INPUT {
                    RecordingEvent::InputRealized(data)
                } else if tag == TAG_BARRIER {
                    RecordingEvent::BarrierUnlocked(data)
                } else {
                    RecordingEvent::Marker(data)
                };
                Some(Ok(((timestamp, event), next)))
            },
            Err(e) => Some(Err(e)),
        }
    } else {
        None
    }
}

/// Reads the records of a recording, which are the bytes of the file after
/// its header.
pub fn load_recording_termec_format(input: &[u8]) -> (journal: Result<
    Vec<(Duration, RecordingEvent)>,
    FormatError,
>)
    ensures
        match journal {
            Ok(entries) => recording_records(input@, 0) == Ok::<JournalView, FormatError>(
                journal_view(entries@),
            ),
            Err(e) => recording_records(input@, 0) == Err::<JournalView, FormatError>(e),
        },
{
    let mut events: Vec<(Duration, RecordingEvent)> = Vec::new();
    let mut pos: usize = 0;
    let mut line: usize = 0;
    proof {
        assert(input@.skip(0) =~= input@);
        match recording_records(input@, 0) {
            Ok(rest) => {
                assert(journal_view(events@) + rest =~= rest);
            },
            Err(_) => {},
        }
    }
    while input.len() - pos >= 2
        invariant
            line <= pos <= input@.len(),
            recording_records(input@, 0) == prepend(
                journal_view(events@),
                recording_records(input@.skip(pos as int), line as nat),
            ),
        decreases input@.len() - pos,
    {
        let ghost rest = input@.skip(pos as int);
        let first: u8 = input[pos];
        let second: u8 = input[pos + 1];
        if first == DASH && second == DASH {
            let next: usize = read_line_comment(input, pos + 2);
            proof {
                assert(rest.skip(2) =~= input@.skip(pos + 2));
                assert(rest.skip(2 + comment_len(rest.skip(2))) =~= input@.skip(next as int));
            }
            pos = next;
        } else if first == BACKSLASH && second == NEWLINE {
            proof {
                assert(rest.skip(2) =~= input@.skip(pos + 2));
            }
            pos = pos + 2;
            line = line + 1;
        } else if first == NEWLINE && second == NEWLINE {
            proof {
                assert(rest.skip(2) =~= input@.skip(pos + 2));
            }
            pos = pos + 2;
            line = line + 2;
        } else {
            match read_recording_entry(input, pos) {
                None => {
                    return Err(FormatError::UnknownCommand { first, second, line });
                },
                Some(Err(cause)) => {
                    return Err(FormatError::InvalidRecord { line, cause });
                },
                Some(Ok((entry, next))) => {
                    let ghost before = journal_view(events@);
                    let ghost read = (entry.0, entry.1@);
                    events.push(entry);
                    proof {
                        assert(rest.skip(next - pos) =~= input@.skip(next as int));
                        assert(journal_view(events@) =~= before + seq![read]);
                        match recording_records(input@.skip(next as int), line as nat) {
                            Ok(tail) => {
                                assert(before + (seq![read] + tail) =~= (before + seq![read])
                                    + tail);
                            },
                            Err(_) => {},
                        }
                    }
                    pos = next;
                },
            }
        }
    }
    proof {
        assert(journal_view(events@) + Seq::<(Duration, EventView)>::empty() =~= journal_view(
            events@,
        ));
    }
    Ok(events)
}

/// Reads the record of an input script that starts at `from`, where two
/// bytes or more are left. Gives the event and the index after it, or `None`
/// where no record tag stands at `from`.
fn read_script_entry(input: &[u8], from: usize) -> (record: Option<
    Result<(SimulationEvent, usize), FieldError>,
>)
    requires
        from + 2 <= input@.len(),
    ensures
        match record {
            None => script_entry(input@.skip(from as int)) is None,
            Some(Err(e)) => script_entry(input@.skip(from as int)) matches Some(Err(cause))
                && cause == e,
            Some(Ok((event, next))) => script_entry(input@.skip(from as int)) matches Some(
                Ok((read, used)),
            ) && read == event@ && used == next - from && from + 2 < next <= input@.len(),
        },
{
    let tag: u8 = input[from];
    assert(input@.skip(from as int).skip(2) =~= input@.skip(from + 2));
    if input[from + 1] != COLON {
        None
    } else if tag == TAG_INPUT {
        match read_timed_data(input, from + 2) {
            Ok((timestamp, data, next)) => Some(
                Ok((SimulationEvent::Input(InputEvent { timestamp, data }), next)),
            ),
            Err(e) => Some(Err(e)),
        }
    } else if tag == TAG_BARRIER {
        match read_data(input, from + 2) {
            Ok((needle, next)) => Some(Ok((SimulationEvent::WaitBarrier(needle), next))),
            Err(e) => Some(Err(e)),
        }
    } else if tag == TAG_SLEEP {
        match read_duration(input, from + 2) {
            Ok((duration, next)) => Some(Ok((SimulationEvent::Sleep(duration), next))),
            Err(e) => Some(Err(e)),
        }
    } else if tag == TAG_MARKER {
        match read_data(input, from + 2) {
            Ok((data, next)) => Some(Ok((SimulationEvent::Marker(data), next))),
            Err(e) => Some(Err(e)),
        }
    } else {
        None
    }
}

/// Reads the records of an input script, which are the bytes of the file
/// after its header. The order of the timestamps is not looked at here.
pub fn load_input_records(input: &[u8]) -> (script: Result<Vec<SimulationEvent>, FormatError>)
    ensures
        match script {
            Ok(events) => script_records(input@, 0) == Ok::<Seq<ScriptEventView>, FormatError>(
                script_view(events@),
            ),
            Err(e) => script_records(input@, 0) == Err::<Seq<ScriptEventView>, FormatError>(e),
        },
{
    let mut events: Vec<SimulationEvent> = Vec::new();
    let mut pos: usize = 0;
    let mut line: usize = 0;
    proof {
        assert(input@.skip(0) =~= input@);
        match script_records(input@, 0) {
            Ok(rest) => {
                assert(script_view(events@) + rest =~= rest);
            },
            Err(_) => {},
        }
    }
    while input.len() - pos >= 2
        invariant
            line <= pos <= input@.len(),
            script_records(input@, 0) == prepend(
                script_view(events@),
                script_records(input@.skip(pos as int), line as nat),
            ),
        decreases input@.len() - pos,
    {
        let ghost rest = input@.skip(pos as int);
        let first: u8 = input[pos];
        let second: u8 = input[pos + 1];
        if first == DASH && second == DASH {
            let next: usize = read_line_comment(input, pos + 2);
            proof {
                assert(rest.skip(2) =~= input@.skip(pos + 2));
                assert(rest.skip(2 + comment_len(rest.skip(2))) =~= input@.skip(next as int));
            }
            pos = next;
        } else if first == BACKSLASH && second == NEWLINE {
            proof {
                assert(rest.skip(2) =~= input@.skip(pos + 2));
            }
            pos = pos + 2;
            line = line + 1;
        } else if first == NEWLINE && second == NEWLINE {
            proof {
                assert(rest.skip(2) =~= input@.skip(pos + 2));
            }
            pos = pos + 2;
            line = line + 2;
        } else {
            match read_script_entry(input, pos) {
                None => {
                    return Err(FormatError::UnknownCommand { first, second, line });
                },
                Some(Err(cause)) => {
                    return Err(FormatError::InvalidRecord { line, cause });
                },
                Some(Ok((event, next))) => {
                    let ghost before = script_view(events@);
                    let ghost read = event@;
                    events.push(event);
                    proof {
                        assert(rest.skip(next - pos) =~= input@.skip(next as int));
                        assert(script_view(events@) =~= before + seq![read]);
                        match script_records(input@.skip(next as int), line as nat) {
                            Ok(tail) => {
                                assert(before + (seq![read] + tail) =~= (before + seq![read])
                                    + tail);
                            },
                            Err(_) => {},
                        }
                    }
                    pos = next;
                },
            }
        }
    }
    proof {
        assert(script_view(events@) + Seq::<ScriptEventView>::empty() =~= script_view(events@));
    }
    Ok(events)
}

} // verus!
