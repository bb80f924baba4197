//! Journal files: telling their formats apart, loading recordings and
//! input scripts, and the errors of reading and writing them.
//!
//! A termrec file starts with a fixed header that says whether it holds a
//! recording or an input script. A file without such a header is taken to
//! be an asciinema recording.

use crate::asciinema::{
    asciinema_line_to_event, cast_line, line_entry, lines_view, split_lines, text_lines,
    utf8_text, CastError,
};
use crate::duration::Duration;
use crate::event::{
    journal_view, script_view, EventView, JournalView, RecordingEvent, ScriptEventView,
    SimulationEvent,
};
use crate::fields::{FieldError, COLON};
use crate::records::{
    data_event, is_data_tag, load_input_records, load_recording_termec_format,
    recording_records, script_records,
};
use crate::script::{out_of_order, ordered_upto, script_valid, validitate_simulation_events};
use vstd::prelude::*;
use vstd::utf8::{decode_utf8, encode_utf8_decode_utf8, valid_utf8};

verus! {

/// The first bytes of a recording: `termrec:v1:rec:`.
pub const TERMREC_RECORDING_HEADER: [u8; 15] = [
    0x74,
    0x65,
    0x72,
    0x6D,
    0x72,
    0x65,
    0x63,
    0x3A,
    0x76,
    0x31,
    0x3A,
    0x72,
    0x65,
    0x63,
    0x3A,
];

/// The first bytes of an input script: `termrec:v1:inp:`.
pub const TERMREC_INPUT_HEADER: [u8; 15] = [
    0x74,
    0x65,
    0x72,
    0x6D,
    0x72,
    0x65,
    0x63,
    0x3A,
    0x76,
    0x31,
    0x3A,
    0x69,
    0x6E,
    0x70,
    0x3A,
];

/// The length of either header.
pub const HEADER_LEN: usize = 15;

/// The byte `\`, which with a line end after it closes a written line.
pub const BACKSLASH: u8 = 0x5C;

/// The byte `-`; two of them open a comment.
pub const DASH: u8 = 0x2D;

/// The tag byte `o`: output of the child.
pub const TAG_OUTPUT: u8 = 0x6F;

/// The tag byte `i`: input to the child.
pub const TAG_INPUT: u8 = 0x69;

/// The tag byte `w`: a wait barrier.
pub const TAG_BARRIER: u8 = 0x77;

/// The tag byte `s`: a sleep.
pub const TAG_SLEEP: u8 = 0x73;

/// The tag byte `m`: a marker.
pub const TAG_MARKER: u8 = 0x6D;

/// Why a file could not be read or written.
#[derive(Clone, Copy, Debug, PartialEq, Eq, Structural)]
pub enum FormatError {
    /// The file starts with no known header.
    UnknownFormat,
    /// The file is a termrec file of the other kind: an input script where a
    /// recording is asked for, or a recording where an input script is.
    WrongFileKind,
    /// Two bytes stand where a record should start that are no known tag.
    /// `line` counts the line breaks taken as filler so far.
    UnknownCommand { first: u8, second: u8, line: usize },
    /// A field of a record could not be read.
    InvalidRecord { line: usize, cause: FieldError },
    /// The input of a script at `index` is timed before the input that
    /// precedes it in the same phase.
    InvalidTimestamp { index: usize },
    /// The timestamp of the journal entry at `index` is more than a file
    /// can hold.
    TimestampTooLarge { index: usize },
    /// A line of an asciinema file could not be read. `line` counts from
    /// zero, which is the line that describes the recording.
    InvalidCastLine { line: usize, reason: CastError },
}

/// What the first bytes of a file say it is.
#[derive(Clone, Copy, Debug, PartialEq, Eq, Structural)]
pub enum FileKind {
    /// A termrec recording.
    Recording,
    /// A termrec input script.
    InputScript,
    /// Anything else.
    Other,
}

/// Whether `bytes` starts with `header`.
pub open spec fn has_header(bytes: Seq<u8>, header: Seq<u8>) -> bool {
    bytes.len() >= header.len() && bytes.subrange(0, header.len() as int) == header
}

/// What the first bytes of a file say it is.
pub open spec fn file_kind(bytes: Seq<u8>) -> FileKind {
    if has_header(bytes, TERMREC_RECORDING_HEADER@) {
        FileKind::Recording
    } else if has_header(bytes, TERMREC_INPUT_HEADER@) {
        FileKind::InputScript
    } else {
        FileKind::Other
    }
}

/// Whether `bytes` starts with the fifteen bytes of `header`.
fn starts_with_header(bytes: &[u8], header: &[u8; 15]) -> (starts: bool)
    ensures
        starts == has_header(bytes@, header@),
{
    if bytes.len() < HEADER_LEN {
        return false;
    }
    let mut i: usize = 0;
    while i < HEADER_LEN
        invariant
            bytes@.len() >= 15,
            i <= 15,
            forall|k: int| 0 <= k < i ==> bytes@[k] == header@[k],
        decreases 15 - i,
    {
        if bytes[i] != header[i] {
            assert(bytes@.subrange(0, 15)[i as int] != header@[i as int]);
            return false;
        }
        i = i + 1;
    }
    assert(bytes@.subrange(0, 15) =~= header@);
    true
}

/// Tells from its first bytes what a file is.
pub fn detect_file_kind(bytes: &[u8]) -> (kind: FileKind)
    ensures
        kind == file_kind(bytes@),
{
    if starts_with_header(bytes, &TERMREC_RECORDING_HEADER) {
        FileKind::Recording
    } else if starts_with_header(bytes, &TERMREC_INPUT_HEADER) {
        FileKind::InputScript
    } else {
        FileKind::Other
    }
}

/// The events of the input script that the file `bytes` holds.
pub open spec fn input_file(bytes: Seq<u8>) -> Result<Seq<ScriptEventView>, FormatError> {
    match file_kind(bytes) {
        FileKind::Recording => Err(FormatError::WrongFileKind),
        FileKind::Other => Err(FormatError::UnknownFormat),
        FileKind::InputScript => match script_records(bytes.skip(15), 0) {
            Err(e) => Err(e),
            Ok(script) => if script_valid(script) {
                Ok(script)
            } else {
                Err(
                    FormatError::InvalidTimestamp {
                        index: first_out_of_order(script) as usize,
                    },
                )
            },
        },
    }
}

/// The index of the first input of a script that is out of order.
pub open spec fn first_out_of_order(script: Seq<ScriptEventView>) -> int {
    choose|at: int| 0 <= at < script.len() && ordered_upto(script, at) && out_of_order(script, at)
}

/// Reads an input script from the bytes of its file and checks it.
///
/// A file that is too short for a header, or starts with another, is of
/// unknown format; a recording is the wrong kind of file.
pub fn load_input(bytes: &[u8]) -> (script: Result<Vec<SimulationEvent>, FormatError>)
    ensures
        match script {
            Ok(events) => input_file(bytes@) == Ok::<Seq<ScriptEventView>, FormatError>(
                script_view(events@),
            ),
            Err(e) => input_file(bytes@) == Err::<Seq<ScriptEventView>, FormatError>(e),
        },
{
    match detect_file_kind(bytes) {
        FileKind::Recording => Err(FormatError::WrongFileKind),
        FileKind::Other => Err(FormatError::UnknownFormat),
        FileKind::InputScript => {
            let records = vstd::slice::slice_subrange(bytes, HEADER_LEN, bytes.len());
            assert(records@ =~= bytes@.skip(15));
            match load_input_records(records) {
                Err(e) => Err(e),
                Ok(events) => match validitate_simulation_events(events.as_slice()) {
                    Ok(()) => Ok(events),
                    Err(e) => {
                        proof {
                            let script = script_view(events@);
                            let found = choose|at: int|
                                0 <= at < script.len() && ordered_upto(script, at) && out_of_order(
                                    script,
                                    at,
                                ) && e == (FormatError::InvalidTimestamp { index: at as usize });
                            let first = first_out_of_order(script);
                            assert(0 <= first < script.len() && ordered_upto(script, first)
                                && out_of_order(script, first));
                            if first < found {
                                assert(!out_of_order(script, first));
                            }
                            if found < first {
                                assert(!out_of_order(script, found));
                            }
                        }
                        Err(e)
                    },
                },
            }
        },
    }
}

/// What holds of a journal that was read from an asciinema file: it holds
/// output only, in valid UTF-8, and at most one entry for each line after
/// the first. Where reading failed, it failed at one of those lines.
pub open spec fn cast_reading(bytes: Seq<u8>, journal: Result<JournalView, FormatError>) -> bool {
    match journal {
        Ok(entries) => {
            &&& entries.len() == 0 || entries.len() < text_lines(bytes).len()
            &&& forall|i: int|
                0 <= i < entries.len() ==> (#[trigger] entries[i]).1 is Output && valid_utf8(
                    entries[i].1->Output_0,
                )
        },
        Err(e) => e matches FormatError::InvalidCastLine { line, .. } && 1 <= line < text_lines(
            bytes,
        ).len(),
    }
}

/// What a line of an asciinema file gives before its time is looked at. A
/// line that is not UTF-8 is refused; any other is decoded and gives what
/// [`line_entry`] says.
pub open spec fn cast_bytes_entry(line: Seq<u8>) -> Result<Option<Seq<u8>>, CastError> {
    if valid_utf8(line) {
        line_entry(cast_line(decode_utf8(line)))
    } else {
        Err(CastError::InvalidText)
    }
}

/// The lines of an asciinema file that are read: all but the first.
pub open spec fn cast_body(lines: Seq<Seq<u8>>) -> Seq<Seq<u8>> {
    if lines.len() > 0 {
        lines.skip(1)
    } else {
        lines
    }
}

/// The bytes of the outputs that `lines` give, in the order of the lines.
/// A line that gives none, or cannot be read, adds nothing.
pub open spec fn cast_outputs(lines: Seq<Seq<u8>>) -> Seq<Seq<u8>>
    decreases lines.len(),
{
    if lines.len() == 0 {
        Seq::empty()
    } else {
        let earlier = cast_outputs(lines.drop_last());
        match cast_bytes_entry(lines.last()) {
            Ok(Some(data)) => earlier.push(data),
            _ => earlier,
        }
    }
}

/// Whether `loaded` is what reading the asciinema file `bytes` gives, with
/// `seconds` to tell the times.
///
/// The first line is passed over and every further line is read in turn.
/// Reading succeeds where every such line can be read and `seconds` gives a
/// time for each output; the journal then holds the outputs of the lines,
/// in their order, each at a time that `seconds` gave. Otherwise reading
/// fails at the first line that cannot be read, with the reason that the
/// line gives, or at an output for which `seconds` gave no time.
pub open spec fn cast_file_read<F: Fn(&serde_json::Value) -> Option<Duration>>(
    bytes: Seq<u8>,
    seconds: &F,
    loaded: Result<JournalView, FormatError>,
) -> bool {
    let lines = text_lines(bytes);
    match loaded {
        Ok(entries) => {
            &&& forall|k: int| 1 <= k < lines.len() ==> cast_bytes_entry(#[trigger] lines[k]) is Ok
            &&& entries.len() == cast_outputs(cast_body(lines)).len()
            &&& forall|i: int|
                0 <= i < entries.len() ==> (#[trigger] entries[i]).1 == EventView::Output(
                    cast_outputs(cast_body(lines))[i],
                ) && exists|value: &serde_json::Value|
                    seconds.ensures((value,), Some(entries[i].0))
        },
        Err(e) => match e {
            FormatError::InvalidCastLine { line, reason } => {
                &&& 1 <= line < lines.len()
                &&& forall|k: int| 1 <= k < line ==> cast_bytes_entry(#[trigger] lines[k]) is Ok
                &&& cast_bytes_entry(lines[line as int]) == Err::<Option<Seq<u8>>, CastError>(reason)
                    || (cast_bytes_entry(lines[line as int]) matches Ok(Some(_)) && reason
                    == CastError::TimeOutOfRange && exists|value: &serde_json::Value|
                    seconds.ensures((value,), None::<Duration>))
            },
            _ => false,
        },
    }
}

/// The mathematical value of what reading a journal gave.
pub open spec fn loaded_view(journal: Result<Vec<(Duration, RecordingEvent)>, FormatError>) -> Result<
    JournalView,
    FormatError,
> {
    match journal {
        Ok(entries) => Ok(journal_view(entries@)),
        Err(e) => Err(e),
    }
}

/// Reads a recording from the bytes of an asciinema v2 file.
///
/// The first line is passed over. Every further line is read as one entry;
/// reading stops with an error at the first line that cannot be read.
/// `seconds` turns the time of an entry, a JSON number, into a duration.
pub fn load_recording_asciinema_format<F: Fn(&serde_json::Value) -> Option<Duration>>(
    bytes: &[u8],
    seconds: &F,
) -> (journal: Result<Vec<(Duration, RecordingEvent)>, FormatError>)
    requires
        forall|value: &serde_json::Value| seconds.requires((value,)),
    ensures
        cast_reading(bytes@, loaded_view(journal)),
        cast_file_read(bytes@, seconds, loaded_view(journal)),
{
    let lines: Vec<&[u8]> = split_lines(bytes);
    let ghost all = text_lines(bytes@);
    assert(lines_view(lines@).len() == lines@.len());
    let mut events: Vec<(Duration, RecordingEvent)> = Vec::new();
    let mut i: usize = 1;
    proof {
        if all.len() > 0 {
            assert(all.subrange(1, 1) =~= Seq::<Seq<u8>>::empty());
        }
    }
    while i < lines.len()
        invariant
            1 <= i,
            i == 1 || i <= lines@.len(),
            all == text_lines(bytes@),
            all == lines_view(lines@),
            forall|value: &serde_json::Value| seconds.requires((value,)),
            events@.len() < i,
            forall|k: int|
                0 <= k < events@.len() ==> (#[trigger] events@[k]).1@ is Output && valid_utf8(
                    events@[k].1@->Output_0,
                ),
            forall|k: int| 1 <= k < i && k < all.len() ==> cast_bytes_entry(#[trigger] all[k]) is Ok,
            i <= all.len() ==> events@.len() == cast_outputs(all.subrange(1, i as int)).len(),
            i <= all.len() ==> forall|k: int|
                0 <= k < events@.len() ==> (#[trigger] events@[k]).1@ == EventView::Output(
                    cast_outputs(all.subrange(1, i as int))[k],
                ) && exists|value: &serde_json::Value|
                    seconds.ensures((value,), Some(events@[k].0)),
        decreases lines@.len() - i,
    {
        let ghost line = all[i as int];
        let ghost earlier = all.subrange(1, i as int);
        let ghost longer = all.subrange(1, i + 1);
        proof {
            assert(line == lines@[i as int]@);
            assert(longer.drop_last() =~= earlier);
            assert(longer.last() == line);
        }
        let text: &str = match utf8_text(lines[i]) {
            Some(text) => text,
            None => {
                return Err(
                    FormatError::InvalidCastLine { line: i, reason: CastError::InvalidText },
                );
            },
        };
        proof {
            encode_utf8_decode_utf8(text@);
            assert(decode_utf8(line) == text@);
        }
        match asciinema_line_to_event(text, seconds) {
            Err(reason) => {
                return Err(FormatError::InvalidCastLine { line: i, reason });
            },
            Ok(None) => {},
            Ok(Some(entry)) => {
                let ghost told = (entry.0, entry.1@);
                let ghost before = events@;
                events.push(entry);
                proof {
                    let data = cast_bytes_entry(line)->Ok_0->Some_0;
                    assert(told.1 == EventView::Output(data));
                    assert(cast_outputs(longer) == cast_outputs(earlier).push(data));
                    assert forall|k: int| 0 <= k < events@.len() implies (
                    #[trigger] events@[k]).1@ == EventView::Output(cast_outputs(longer)[k])
                        && exists|value: &serde_json::Value|
                        seconds.ensures((value,), Some(events@[k].0)) by {
                        if k < before.len() {
                            assert(events@[k] == before[k]);
                        }
                    }
                }
            },
        }
        i = i + 1;
    }
    proof {
        if all.len() > 0 {
            assert(all.subrange(1, i as int) =~= cast_body(all));
        }
        let loaded = journal_view(events@);
        assert forall|k: int| 0 <= k < loaded.len() implies (#[trigger] loaded[k]).1
            == EventView::Output(cast_outputs(cast_body(all))[k]) && exists|
            value: &serde_json::Value,
        |
            seconds.ensures((value,), Some(loaded[k].0)) by {
            assert(loaded[k] == (events@[k].0, events@[k].1@));
            let given = choose|value: &serde_json::Value|
                seconds.ensures((value,), Some(events@[k].0));
            assert(seconds.ensures((given,), Some(loaded[k].0)));
        }
    }
    Ok(events)
}

/// Reads a recording from the bytes of its file, whatever its format.
///
/// A file that starts with the header of a recording is read as a termrec
/// recording. A file that starts with the header of an input script is the
/// wrong kind of file. Any other file is read, from its first byte, as an
/// asciinema v2 file, with `seconds` to turn its times into durations.
pub fn load_recording<F: Fn(&serde_json::Value) -> Option<Duration>>(
    bytes: &[u8],
    seconds: &F,
) -> (journal: Result<Vec<(Duration, RecordingEvent)>, FormatError>)
    requires
        forall|value: &serde_json::Value| seconds.requires((value,)),
    ensures
        match file_kind(bytes@) {
            FileKind::Recording => loaded_view(journal) == recording_records(bytes@.skip(15), 0),
            FileKind::InputScript => loaded_view(journal) == Err::<JournalView, FormatError>(
                FormatError::WrongFileKind,
            ),
            FileKind::Other => cast_reading(bytes@, loaded_view(journal)) && cast_file_read(
                bytes@,
                seconds,
                loaded_view(journal),
            ),
        },
{
    match detect_file_kind(bytes) {
        FileKind::Recording => {
            let records = vstd::slice::slice_subrange(bytes, HEADER_LEN, bytes.len());
            assert(records@ =~= bytes@.skip(15));
            load_recording_termec_format(records)
        },
        FileKind::InputScript => Err(FormatError::WrongFileKind),
        FileKind::Other => load_recording_asciinema_format(bytes, seconds),
    }
}

/// The output of a journal: the timestamp and the bytes of each of its
/// `Output` entries, in the order of the journal.
pub open spec fn outputs_of(journal: JournalView) -> Seq<(Duration, Seq<u8>)>
    decreases journal.len(),
{
    if journal.len() == 0 {
        Seq::empty()
    } else {
        let earlier = outputs_of(journal.drop_last());
        match journal.last().1 {
            EventView::Output(data) => earlier.push((journal.last().0, data)),
            _ => earlier,
        }
    }
}

/// The mathematical value of a list of timestamped blobs.
pub open spec fn blobs_view(blobs: Seq<(Duration, Vec<u8>)>) -> Seq<(Duration, Seq<u8>)> {
    Seq::new(blobs.len(), |i: int| (blobs[i].0, blobs[i].1@))
}

/// Keeps of a journal the output of the child, in order.
pub fn filter_output_events(input: Vec<(Duration, RecordingEvent)>) -> (output: Vec<
    (Duration, Vec<u8>),
>)
    ensures
        blobs_view(output@) == outputs_of(journal_view(input@)),
{
    let ghost journal = journal_view(input@);
    let mut output: Vec<(Duration, Vec<u8>)> = Vec::new();
    let mut i: usize = 0;
    proof {
        assert(journal.take(0) =~= Seq::<(Duration, EventView)>::empty());
        assert(blobs_view(output@) =~= outputs_of(journal.take(0)));
    }
    while i < input.len()
        invariant
            i <= input@.len(),
            journal == journal_view(input@),
            blobs_view(output@) == outputs_of(journal.take(i as int)),
        decreases input@.len() - i,
    {
        let ghost before = blobs_view(output@);
        proof {
            let longer = journal.take(i + 1);
            assert(longer.drop_last() =~= journal.take(i as int));
            assert(longer.last() == journal[i as int]);
        }
        match &input[i] {
            (timestamp, RecordingEvent::Output(data)) => {
                output.push((*timestamp, data.clone()));
                assert(blobs_view(output@) =~= before.push((*timestamp, data@)));
            },
            _ => {},
        }
        i = i + 1;
    }
    proof {
        assert(journal.take(i as int) =~= journal);
    }
    output
}

/// Why an event given as an argument could not be read.
#[derive(Clone, Copy, Debug, PartialEq, Eq, Structural)]
pub enum EventArgError {
    /// The argument is shorter than the two bytes that name an event.
    MissingName,
    /// The first two bytes name no event.
    UnknownEvent { first: u8, second: u8 },
}

/// The event that an argument denotes: two bytes that name the kind, then
/// the payload.
pub open spec fn event_argument(arg: Seq<u8>) -> Result<EventView, EventArgError> {
    if arg.len() < 2 {
        Err(EventArgError::MissingName)
    } else if arg[1] == COLON && is_data_tag(arg[0]) {
        Ok(data_event(arg[0], arg.skip(2)))
    } else {
        Err(EventArgError::UnknownEvent { first: arg[0], second: arg[1] })
    }
}

/// Reads an event from the form in which it is given on a command line:
/// `o:`, `i:`, `w:` or `m:`, then the bytes of the payload.
pub fn parse_event_cmdline(arg: &[u8]) -> (event: Result<RecordingEvent, EventArgError>)
    ensures
        match event {
            Ok(e) => event_argument(arg@) == Ok::<EventView, EventArgError>(e@),
            Err(e) => event_argument(arg@) == Err::<EventView, EventArgError>(e),
        },
{
    if arg.len() < 2 {
        return Err(EventArgError::MissingName);
    }
    let first: u8 = arg[0];
    let second: u8 = arg[1];
    let data: Vec<u8> = vstd::slice::slice_to_vec(
        vstd::slice::slice_subrange(arg, 2, arg.len()),
    );
    assert(data@ =~= arg@.skip(2));
    if second != COLON {
        Err(EventArgError::UnknownEvent { first, second })
    } else if first == TAG_OUTPUT {
        Ok(RecordingEvent::Output(data))
    } else if first == TAG_BARRIER {
        Ok(RecordingEvent::BarrierUnlocked(data))
    } else if first == TAG_INPUT {
        Ok(RecordingEvent::InputRealized(data))
    } else if first == TAG_MARKER {
        Ok(RecordingEvent::Marker(data))
    } else {
        Err(EventArgError::UnknownEvent { first, second })
    }
}

} // verus!
