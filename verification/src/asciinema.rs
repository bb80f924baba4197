//! Reading recordings in the asciinema v2 format.
//!
//! The first line of such a file describes the recording and is passed
//! over. Each further line is a JSON array of a time in seconds, a kind and
//! a text. The JSON is decoded by the `serde_json` crate.

use crate::duration::Duration;
use crate::event::{EventView, RecordingEvent};
use crate::fields::{run_before, scan_until, NEWLINE};
use vstd::prelude::*;
use vstd::slice::{slice_subrange, slice_to_vec};
use vstd::string::StringSliceAdditionalSpecFns;
use vstd::utf8::{encode_utf8, valid_utf8};

verus! {

/// The byte that may stand before a line end and is then part of it.
pub const CARRIAGE_RETURN: u8 = 0x0D;

/// The kind `o`: output of the recorded program.
pub const KIND_OUTPUT: u8 = 0x6F;

/// The kind `m`: a marker.
pub const KIND_MARKER: u8 = 0x6D;

/// The kind `r`: the terminal was resized.
pub const KIND_RESIZE: u8 = 0x72;

/// Why a line of an asciinema file could not be read.
#[derive(Clone, Copy, Debug, PartialEq, Eq, Structural)]
pub enum CastError {
    /// The line is not UTF-8 text.
    InvalidText,
    /// The line is not JSON.
    InvalidJson,
    /// The line is JSON, but no array.
    ExpectedArray,
    /// The array is shorter than the entry needs.
    MissingField,
    /// The time is no number.
    ExpectedNumber,
    /// The kind or the text is no string.
    ExpectedString,
    /// The time cannot be held as a duration.
    TimeOutOfRange,
    /// The entry says that the terminal was resized.
    ResizeUnsupported,
    /// The kind of the entry is not known.
    UnknownEvent,
}

/// `serde_json::Value`: a JSON value as `serde_json` holds it. The library
/// sees nothing of what is in it and asks `serde_json` for all it reads.
#[verifier::external_type_specification]
#[verifier::external_body]
pub struct ExJsonValue(serde_json::Value);

/// `std::str::from_utf8`: the text that the bytes encode. There is one
/// exactly where the bytes are valid UTF-8, and it is made of those bytes.
#[verifier::external_body]
pub(crate) fn utf8_text(bytes: &[u8]) -> (text: Option<&str>)
    ensures
        text is Some <==> valid_utf8(bytes@),
        text matches Some(decoded) ==> decoded.spec_bytes() == bytes@,
{
    std::str::from_utf8(bytes).ok()
}

/// What the kind of an entry asks for: `Ok(true)` to take the entry as
/// output, `Ok(false)` to pass over it, or the reason to refuse the file.
pub open spec fn cast_kind(kind: Seq<u8>) -> Result<bool, CastError> {
    if kind == seq![KIND_OUTPUT] {
        Ok(true)
    } else if kind == seq![KIND_MARKER] {
        Ok(false)
    } else if kind == seq![KIND_RESIZE] {
        Err(CastError::ResizeUnsupported)
    } else {
        Err(CastError::UnknownEvent)
    }
}

/// Tells from the kind of an entry what to do with it: output is taken, a
/// marker is passed over, a resize and any other kind are refused.
pub fn asciinema_kind(kind: &str) -> (taken: Result<bool, CastError>)
    ensures
        taken == cast_kind(kind.spec_bytes()),
{
    let bytes = kind.as_bytes();
    if bytes.len() != 1 {
        assert(bytes@ != seq![KIND_OUTPUT] && bytes@ != seq![KIND_MARKER] && bytes@ != seq![
            KIND_RESIZE,
        ]) by {
            assert(seq![KIND_OUTPUT].len() == 1);
            assert(seq![KIND_MARKER].len() == 1);
            assert(seq![KIND_RESIZE].len() == 1);
        }
        return Err(CastError::UnknownEvent);
    }
    let byte: u8 = bytes[0];
    assert(bytes@ =~= seq![byte]);
    assert(seq![KIND_OUTPUT][0] == KIND_OUTPUT);
    assert(seq![KIND_MARKER][0] == KIND_MARKER);
    assert(seq![KIND_RESIZE][0] == KIND_RESIZE);
    if byte == KIND_OUTPUT {
        Ok(true)
    } else if byte == KIND_MARKER {
        Ok(false)
    } else if byte == KIND_RESIZE {
        Err(CastError::ResizeUnsupported)
    } else {
        Err(CastError::UnknownEvent)
    }
}

/// What `serde_json` found at one place of the array that a line holds, as
/// far as the reading looks at it.
#[derive(Clone, Copy, Debug)]
pub enum CastField<'a> {
    /// The array ends before this place.
    Absent,
    /// A number.
    Number,
    /// A string.
    Text(&'a str),
    /// Anything else.
    Other,
}

/// The mathematical value of a [`CastField`]; a string counts by its bytes.
pub enum CastFieldView {
    Absent,
    Number,
    Text(Seq<u8>),
    Other,
}

impl<'a> View for CastField<'a> {
    type V = CastFieldView;

    open spec fn view(&self) -> CastFieldView {
        match self {
            CastField::Absent => CastFieldView::Absent,
            CastField::Number => CastFieldView::Number,
            CastField::Text(text) => CastFieldView::Text(text.spec_bytes()),
            CastField::Other => CastFieldView::Other,
        }
    }
}

/// What a line gives whose array holds `time`, `kind` and `text` at its
/// first three places: the bytes of an output, nothing for a marker, or the
/// reason to refuse the file. The time has to be a number and the kind a
/// string; the text is looked at for output only and has to be a string.
pub open spec fn cast_entry(time: CastFieldView, kind: CastFieldView, text: CastFieldView) -> Result<
    Option<Seq<u8>>,
    CastError,
> {
    match time {
        CastFieldView::Absent => Err(CastError::MissingField),
        CastFieldView::Number => match kind {
            CastFieldView::Absent => Err(CastError::MissingField),
            CastFieldView::Text(name) => match cast_kind(name) {
                Err(e) => Err(e),
                Ok(false) => Ok(None),
                Ok(true) => match text {
                    CastFieldView::Absent => Err(CastError::MissingField),
                    CastFieldView::Text(bytes) => Ok(Some(bytes)),
                    _ => Err(CastError::ExpectedString),
                },
            },
            _ => Err(CastError::ExpectedString),
        },
        _ => Err(CastError::ExpectedNumber),
    }
}

/// Tells from the first three places of the array of a line what the line
/// gives: the text of an output, nothing for a marker, or the reason to
/// refuse the file.
pub fn asciinema_fields_to_output<'a>(
    time: CastField<'a>,
    kind: CastField<'a>,
    text: CastField<'a>,
) -> (output: Result<Option<&'a str>, CastError>)
    ensures
        match output {
            Ok(Some(bytes)) => cast_entry(time@, kind@, text@) == Ok::<Option<Seq<u8>>, CastError>(
                Some(bytes.spec_bytes()),
            ),
            Ok(None) => cast_entry(time@, kind@, text@) == Ok::<Option<Seq<u8>>, CastError>(None),
            Err(e) => cast_entry(time@, kind@, text@) == Err::<Option<Seq<u8>>, CastError>(e),
        },
{
    match time {
        CastField::Absent => {
            return Err(CastError::MissingField);
        },
        CastField::Number => {},
        _ => {
            return Err(CastError::ExpectedNumber);
        },
    }
    let name: &str = match kind {
        CastField::Absent => {
            return Err(CastError::MissingField);
        },
        CastField::Text(name) => name,
        _ => {
            return Err(CastError::ExpectedString);
        },
    };
    match asciinema_kind(name) {
        Err(e) => Err(e),
        Ok(false) => Ok(None),
        Ok(true) => match text {
            CastField::Absent => Err(CastError::MissingField),
            CastField::Text(bytes) => Ok(Some(bytes)),
            _ => Err(CastError::ExpectedString),
        },
    }
}

/// What `serde_json` found at one place of an array, held by value.
#[derive(Debug)]
pub enum CastItem {
    /// A number, as `serde_json` holds it.
    Number(serde_json::Value),
    /// A string.
    Text(String),
    /// Anything else.
    Other,
}

impl View for CastItem {
    type V = CastFieldView;

    open spec fn view(&self) -> CastFieldView {
        match self {
            CastItem::Number(_) => CastFieldView::Number,
            CastItem::Text(text) => CastFieldView::Text(encode_utf8(text@)),
            CastItem::Other => CastFieldView::Other,
        }
    }
}

/// What `serde_json` made of a line.
#[derive(Debug)]
pub enum CastLine {
    /// The line is not JSON.
    NotJson,
    /// The line is JSON, but no array.
    NotArray,
    /// The line is an array that holds these values.
    Array(Vec<CastItem>),
}

/// The mathematical value of a [`CastLine`].
pub enum CastLineView {
    NotJson,
    NotArray,
    Array(Seq<CastFieldView>),
}

/// The mathematical values of the items of an array.
pub open spec fn items_view(items: Seq<CastItem>) -> Seq<CastFieldView> {
    Seq::new(items.len(), |i: int| items[i]@)
}

impl View for CastLine {
    type V = CastLineView;

    open spec fn view(&self) -> CastLineView {
        match self {
            CastLine::NotJson => CastLineView::NotJson,
            CastLine::NotArray => CastLineView::NotArray,
            CastLine::Array(items) => CastLineView::Array(items_view(items@)),
        }
    }
}

/// What `serde_json` makes of a text: whether it is JSON, whether it is an
/// array, and which of its places hold a number and which a string of
/// which bytes.
pub uninterp spec fn cast_line(text: Seq<char>) -> CastLineView;

/// `serde_json::from_str`, for a `serde_json::Value`: decodes a text as one
/// JSON value. The value is handed out by its kind: an array with a number,
/// a string or something else at each place, or something that is no
/// array. The same text is always decoded to the same; no more is claimed.
#[verifier::external_body]
fn decode_line(text: &str) -> (line: CastLine)
    ensures
        line@ == cast_line(text@),
{
    match serde_json::from_str(text) {
        Err(_) => CastLine::NotJson,
        Ok(serde_json::Value::Array(items)) => CastLine::Array(
            items.into_iter().map(|item| match item {
                serde_json::Value::String(text) => CastItem::Text(text),
                serde_json::Value::Number(_) => CastItem::Number(item),
                _ => CastItem::Other,
            }).collect(),
        ),
        Ok(_) => CastLine::NotArray,
    }
}

/// What stands at the place `index` of an array, or that the array ends
/// before it.
pub open spec fn field_view(fields: Seq<CastFieldView>, index: int) -> CastFieldView {
    if 0 <= index < fields.len() {
        fields[index]
    } else {
        CastFieldView::Absent
    }
}

/// What a decoded line gives before its time is looked at: the bytes of an
/// output, nothing for a marker, or the reason to refuse the file. A line
/// has to be JSON and an array; the rest is told from its first three
/// places.
pub open spec fn line_entry(line: CastLineView) -> Result<Option<Seq<u8>>, CastError> {
    match line {
        CastLineView::NotJson => Err(CastError::InvalidJson),
        CastLineView::NotArray => Err(CastError::ExpectedArray),
        CastLineView::Array(fields) => cast_entry(
            field_view(fields, 0),
            field_view(fields, 1),
            field_view(fields, 2),
        ),
    }
}

/// The mathematical value of what reading a line gave.
pub open spec fn entry_view(entry: Result<Option<(Duration, RecordingEvent)>, CastError>) -> Result<
    Option<(Duration, EventView)>,
    CastError,
> {
    match entry {
        Ok(Some(read)) => Ok(Some((read.0, read.1@))),
        Ok(None) => Ok(None),
        Err(e) => Err(e),
    }
}

/// Whether `entry` is what reading gives of a line that holds `expected`,
/// with `seconds` to tell the time. An error and a marker are passed on as
/// they are. Output becomes an entry with the bytes of the line and a time
/// that `seconds` gave, and is out of range where `seconds` gave none.
pub open spec fn entry_read<F: Fn(&serde_json::Value) -> Option<Duration>>(
    expected: Result<Option<Seq<u8>>, CastError>,
    seconds: &F,
    entry: Result<Option<(Duration, EventView)>, CastError>,
) -> bool {
    match expected {
        Err(e) => entry == Err::<Option<(Duration, EventView)>, CastError>(e),
        Ok(None) => entry == Ok::<Option<(Duration, EventView)>, CastError>(None),
        Ok(Some(data)) => match entry {
            Ok(Some(read)) => read.1 == EventView::Output(data) && exists|
                value: &serde_json::Value,
            |
                seconds.ensures((value,), Some(read.0)),
            Ok(None) => false,
            Err(e) => e == CastError::TimeOutOfRange && exists|value: &serde_json::Value|
                seconds.ensures((value,), None::<Duration>),
        },
    }
}

/// What stands at the place `index` of an array.
fn field_at<'a>(items: &'a Vec<CastItem>, index: usize) -> (field: CastField<'a>)
    ensures
        field@ == field_view(items_view(items@), index as int),
{
    if index >= items.len() {
        CastField::Absent
    } else {
        match &items[index] {
            CastItem::Number(_) => CastField::Number,
            CastItem::Text(text) => CastField::Text(text.as_str()),
            CastItem::Other => CastField::Other,
        }
    }
}

/// Makes an entry of a line that `serde_json` has decoded.
///
/// What the line gives is told from its kind and its first three places,
/// as [`line_entry`] says. For output, `seconds` is asked for the time with
/// the number at the first place; where it gives none, the time is out of
/// range. The bytes of an output are those of its text, which is UTF-8.
pub fn cast_line_to_event<F: Fn(&serde_json::Value) -> Option<Duration>>(
    line: &CastLine,
    seconds: &F,
) -> (entry: Result<Option<(Duration, RecordingEvent)>, CastError>)
    requires
        forall|value: &serde_json::Value| seconds.requires((value,)),
    ensures
        entry_read(line_entry(line@), seconds, entry_view(entry)),
        entry matches Ok(Some(read)) ==> valid_utf8(read.1@->Output_0) && (line matches CastLine::Array(
            items,
        ) && (items@[0] matches CastItem::Number(number) && seconds.ensures(
            (&number,),
            Some(read.0),
        ))),
        entry matches Err(CastError::TimeOutOfRange) ==> (line matches CastLine::Array(items) && (
        items@[0] matches CastItem::Number(number) && seconds.ensures(
            (&number,),
            None::<Duration>,
        ))),
{
    let items: &Vec<CastItem> = match line {
        CastLine::NotJson => {
            return Err(CastError::InvalidJson);
        },
        CastLine::NotArray => {
            return Err(CastError::ExpectedArray);
        },
        CastLine::Array(items) => items,
    };
    let text: &str = match asciinema_fields_to_output(
        field_at(items, 0),
        field_at(items, 1),
        field_at(items, 2),
    ) {
        Ok(Some(text)) => text,
        Ok(None) => {
            return Ok(None);
        },
        Err(e) => {
            return Err(e);
        },
    };
    let data: Vec<u8> = slice_to_vec(text.as_bytes());
    proof {
        vstd::utf8::encode_utf8_valid_utf8(text@);
        assert(line_entry(line@) == Ok::<Option<Seq<u8>>, CastError>(Some(data@)));
    }
    match &items[0] {
        CastItem::Number(number) => {
            let time: Option<Duration> = seconds(number);
            match time {
                Some(timestamp) => {
                    let read = (timestamp, RecordingEvent::Output(data));
                    let entry = Ok(Some(read));
                    proof {
                        let told = entry_view(entry)->Ok_0->Some_0;
                        assert(seconds.ensures((number,), Some(told.0)));
                        assert(told.1 == EventView::Output(data@));
                    }
                    entry
                },
                None => {
                    assert(seconds.ensures((number,), None::<Duration>));
                    Err(CastError::TimeOutOfRange)
                },
            }
        },
        _ => {
            assert(false);
            Err(CastError::ExpectedNumber)
        },
    }
}

/// Reads one line of an asciinema file, which is not the first.
///
/// The line is decoded by `serde_json`, and an entry is made of what it
/// holds as [`cast_line_to_event`] says: the line has to be a JSON array of
/// a number, a kind and, for output, a text. Output gives an entry, with
/// the time that `seconds` tells; a marker gives none.
pub fn asciinema_line_to_event<F: Fn(&serde_json::Value) -> Option<Duration>>(
    line: &str,
    seconds: &F,
) -> (entry: Result<Option<(Duration, RecordingEvent)>, CastError>)
    requires
        forall|value: &serde_json::Value| seconds.requires((value,)),
    ensures
        entry_read(line_entry(cast_line(line@)), seconds, entry_view(entry)),
        entry matches Ok(Some(read)) ==> valid_utf8(read.1@->Output_0),
{
    let decoded: CastLine = decode_line(line);
    cast_line_to_event(&decoded, seconds)
}

/// The lines of a text. A line ends with a line end, or with the text; a
/// carriage return before a line end belongs to the line end.
pub open spec fn text_lines(text: Seq<u8>) -> Seq<Seq<u8>>
    decreases text.len(),
{
    if text.len() == 0 {
        Seq::empty()
    } else {
        let n = run_before(text, NEWLINE);
        if 0 <= n < text.len() {
            seq![line_text(text.subrange(0, n))] + text_lines(text.skip(n + 1))
        } else {
            seq![text]
        }
    }
}

/// A line that a line end closed, without the carriage return that may
/// stand at its end.
pub open spec fn line_text(line: Seq<u8>) -> Seq<u8> {
    if line.len() > 0 && line.last() == CARRIAGE_RETURN {
        line.drop_last()
    } else {
        line
    }
}

/// The byte strings that a list of slices holds.
pub open spec fn lines_view(lines: Seq<&[u8]>) -> Seq<Seq<u8>> {
    Seq::new(lines.len(), |i: int| lines[i]@)
}

/// Splits a text into its lines.
pub fn split_lines<'a>(text: &'a [u8]) -> (lines: Vec<&'a [u8]>)
    ensures
        lines_view(lines@) == text_lines(text@),
{
    let mut lines: Vec<&'a [u8]> = Vec::new();
    let mut pos: usize = 0;
    proof {
        assert(text@.skip(0) =~= text@);
        assert(lines_view(lines@) + text_lines(text@) =~= text_lines(text@));
    }
    while pos < text.len()
        invariant
            pos <= text@.len(),
            text_lines(text@) == lines_view(lines@) + text_lines(text@.skip(pos as int)),
        decreases text@.len() - pos,
    {
        let ghost rest = text@.skip(pos as int);
        let ghost before = lines_view(lines@);
        let end: usize = scan_until(text, pos, NEWLINE);
        if end < text.len() {
            let stop: usize = if end > pos && text[end - 1] == CARRIAGE_RETURN {
                end - 1
            } else {
                end
            };
            let line = slice_subrange(text, pos, stop);
            lines.push(line);
            proof {
                assert(rest.subrange(0, end - pos) =~= text@.subrange(pos as int, end as int));
                assert(line@ =~= line_text(rest.subrange(0, end - pos)));
                assert(rest.skip(end - pos + 1) =~= text@.skip(end + 1));
                assert(lines_view(lines@) =~= before.push(line@));
                assert(before + (seq![line@] + text_lines(text@.skip(end + 1))) =~= before.push(
                    line@,
                ) + text_lines(text@.skip(end + 1)));
            }
            pos = end + 1;
        } else {
            let line = slice_subrange(text, pos, end);
            lines.push(line);
            proof {
                assert(line@ =~= rest);
                assert(text@.skip(end as int).len() == 0);
                assert(lines_view(lines@) =~= before.push(line@));
                assert(before + seq![rest] =~= before.push(line@) + text_lines(
                    text@.skip(end as int),
                ));
            }
            pos = end;
        }
    }
    proof {
        assert(lines_view(lines@) + text_lines(text@.skip(pos as int)) =~= lines_view(lines@));
    }
    lines
}

} // verus!
