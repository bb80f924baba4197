use termrec::asciinema::{
    asciinema_fields_to_output, asciinema_kind, asciinema_line_to_event, cast_line_to_event,
    split_lines, CastError, CastField, CastItem, CastLine,
};
use termrec::duration::Duration;
use termrec::event::RecordingEvent;
use termrec::file_format::{load_recording, load_recording_asciinema_format, FormatError};

fn seconds(value: &serde_json::Value) -> Option<Duration> {
    let seconds = value.as_f64()?;
    let duration = std::time::Duration::try_from_secs_f64(seconds).ok()?;
    Some(Duration { micros: duration.as_micros() })
}

#[test]
fn output_line_yields_an_output_event() {
    assert_eq!(
        asciinema_line_to_event("[0.5, \"o\", \"hi\"]", &seconds),
        Ok(Some((Duration::from_micros(500_000), RecordingEvent::Output(b"hi".to_vec()))))
    );
}

#[test]
fn resize_line_is_a_hard_error() {
    assert_eq!(
        asciinema_line_to_event("[1.0, \"r\", \"80x24\"]", &seconds),
        Err(CastError::ResizeUnsupported)
    );
}

#[test]
fn marker_line_is_dropped() {
    assert_eq!(asciinema_line_to_event("[1.5, \"m\", \"tag\"]", &seconds), Ok(None));
    assert_eq!(asciinema_line_to_event("[1.5, \"m\"]", &seconds), Ok(None));
}

#[test]
fn malformed_lines_are_refused() {
    assert_eq!(asciinema_line_to_event("[0.5, \"o\"", &seconds), Err(CastError::InvalidJson));
    assert_eq!(asciinema_line_to_event("", &seconds), Err(CastError::InvalidJson));
    assert_eq!(
        asciinema_line_to_event("{\"version\": 2}", &seconds),
        Err(CastError::ExpectedArray)
    );
    assert_eq!(asciinema_line_to_event("[]", &seconds), Err(CastError::MissingField));
    assert_eq!(asciinema_line_to_event("[0.5]", &seconds), Err(CastError::MissingField));
    assert_eq!(asciinema_line_to_event("[0.5, \"o\"]", &seconds), Err(CastError::MissingField));
    assert_eq!(
        asciinema_line_to_event("[\"0.5\", \"o\", \"hi\"]", &seconds),
        Err(CastError::ExpectedNumber)
    );
    assert_eq!(
        asciinema_line_to_event("[0.5, 1, \"hi\"]", &seconds),
        Err(CastError::ExpectedString)
    );
    assert_eq!(
        asciinema_line_to_event("[0.5, \"o\", 7]", &seconds),
        Err(CastError::ExpectedString)
    );
    assert_eq!(
        asciinema_line_to_event("[0.5, \"i\", \"hi\"]", &seconds),
        Err(CastError::UnknownEvent)
    );
    assert_eq!(
        asciinema_line_to_event("[-0.5, \"o\", \"hi\"]", &seconds),
        Err(CastError::TimeOutOfRange)
    );
}

fn number(value: u64) -> CastItem {
    CastItem::Number(serde_json::Value::from(value))
}

fn text(value: &str) -> CastItem {
    CastItem::Text(value.to_string())
}

#[test]
fn decoded_output_line_becomes_an_entry_at_the_time_of_its_number() {
    let line = CastLine::Array(vec![number(3), text("o"), text("hi"), CastItem::Other]);
    assert_eq!(
        cast_line_to_event(&line, &seconds),
        Ok(Some((Duration::from_micros(3_000_000), RecordingEvent::Output(b"hi".to_vec()))))
    );
}

#[test]
fn decoded_line_that_is_no_array_is_refused() {
    assert_eq!(cast_line_to_event(&CastLine::NotJson, &seconds), Err(CastError::InvalidJson));
    assert_eq!(cast_line_to_event(&CastLine::NotArray, &seconds), Err(CastError::ExpectedArray));
    assert_eq!(
        cast_line_to_event(&CastLine::Array(Vec::new()), &seconds),
        Err(CastError::MissingField)
    );
}

#[test]
fn decoded_line_asks_for_the_time_of_output_only() {
    let never = |_: &serde_json::Value| -> Option<Duration> { None };
    assert_eq!(
        cast_line_to_event(&CastLine::Array(vec![number(1), text("m")]), &never),
        Ok(None)
    );
    assert_eq!(
        cast_line_to_event(&CastLine::Array(vec![number(1), text("r"), text("80x24")]), &never),
        Err(CastError::ResizeUnsupported)
    );
    assert_eq!(
        cast_line_to_event(&CastLine::Array(vec![number(1), text("o"), number(2)]), &never),
        Err(CastError::ExpectedString)
    );
    assert_eq!(
        cast_line_to_event(&CastLine::Array(vec![number(1), text("o"), text("x")]), &never),
        Err(CastError::TimeOutOfRange)
    );
    assert_eq!(
        cast_line_to_event(&CastLine::Array(vec![text("1"), text("o"), text("x")]), &never),
        Err(CastError::ExpectedNumber)
    );
}

#[test]
fn nested_and_other_values_count_as_neither_number_nor_string() {
    assert_eq!(
        asciinema_line_to_event("[[0.5], \"o\", \"hi\"]", &seconds),
        Err(CastError::ExpectedNumber)
    );
    assert_eq!(
        asciinema_line_to_event("[0.5, null, \"hi\"]", &seconds),
        Err(CastError::ExpectedString)
    );
    assert_eq!(
        asciinema_line_to_event("[0.5, \"o\", {\"a\": 1}]", &seconds),
        Err(CastError::ExpectedString)
    );
    assert_eq!(asciinema_line_to_event("[true, \"m\"]", &seconds), Err(CastError::ExpectedNumber));
    assert_eq!(asciinema_line_to_event("0.5", &seconds), Err(CastError::ExpectedArray));
    assert_eq!(asciinema_line_to_event("\"o\"", &seconds), Err(CastError::ExpectedArray));
}

#[test]
fn cast_with_a_time_out_of_range_fails_at_that_line() {
    assert_eq!(
        load_recording(b"{}\n[1, \"o\", \"a\"]\n[-1, \"o\", \"b\"]\nnot json\n", &seconds),
        Err(FormatError::InvalidCastLine { line: 2, reason: CastError::TimeOutOfRange })
    );
    assert_eq!(
        load_recording(b"{}\n[1, \"o\", \"a\"]\n[-1, \"m\", \"b\"]\n[2, \"o\", \"c\"]", &seconds),
        Ok(vec![
            (Duration::from_micros(1_000_000), RecordingEvent::Output(b"a".to_vec())),
            (Duration::from_micros(2_000_000), RecordingEvent::Output(b"c".to_vec())),
        ])
    );
}

#[test]
fn kinds_are_told_apart() {
    assert_eq!(asciinema_kind("o"), Ok(true));
    assert_eq!(asciinema_kind("m"), Ok(false));
    assert_eq!(asciinema_kind("r"), Err(CastError::ResizeUnsupported));
    assert_eq!(asciinema_kind("i"), Err(CastError::UnknownEvent));
    assert_eq!(asciinema_kind(""), Err(CastError::UnknownEvent));
    assert_eq!(asciinema_kind("oo"), Err(CastError::UnknownEvent));
}

#[test]
fn fields_of_an_output_line_give_its_text() {
    assert_eq!(
        asciinema_fields_to_output(CastField::Number, CastField::Text("o"), CastField::Text("hi")),
        Ok(Some("hi"))
    );
    assert_eq!(
        asciinema_fields_to_output(CastField::Number, CastField::Text("o"), CastField::Text("")),
        Ok(Some(""))
    );
}

#[test]
fn fields_of_a_marker_line_give_nothing() {
    for text in [CastField::Absent, CastField::Number, CastField::Other, CastField::Text("tag")] {
        assert_eq!(
            asciinema_fields_to_output(CastField::Number, CastField::Text("m"), text),
            Ok(None)
        );
    }
}

#[test]
fn fields_are_checked_from_the_front() {
    let text = CastField::Text("x");
    assert_eq!(
        asciinema_fields_to_output(CastField::Absent, CastField::Absent, CastField::Absent),
        Err(CastError::MissingField)
    );
    assert_eq!(
        asciinema_fields_to_output(CastField::Other, CastField::Other, CastField::Other),
        Err(CastError::ExpectedNumber)
    );
    assert_eq!(
        asciinema_fields_to_output(text, CastField::Text("r"), text),
        Err(CastError::ExpectedNumber)
    );
    assert_eq!(
        asciinema_fields_to_output(CastField::Number, CastField::Absent, CastField::Absent),
        Err(CastError::MissingField)
    );
    assert_eq!(
        asciinema_fields_to_output(CastField::Number, CastField::Number, text),
        Err(CastError::ExpectedString)
    );
    assert_eq!(
        asciinema_fields_to_output(CastField::Number, CastField::Text("r"), CastField::Other),
        Err(CastError::ResizeUnsupported)
    );
    assert_eq!(
        asciinema_fields_to_output(CastField::Number, CastField::Text("x"), text),
        Err(CastError::UnknownEvent)
    );
    assert_eq!(
        asciinema_fields_to_output(CastField::Number, CastField::Text("o"), CastField::Absent),
        Err(CastError::MissingField)
    );
    assert_eq!(
        asciinema_fields_to_output(CastField::Number, CastField::Text("o"), CastField::Number),
        Err(CastError::ExpectedString)
    );
}

#[test]
fn text_is_split_as_lines_are_read() {
    assert_eq!(split_lines(b""), Vec::<&[u8]>::new());
    assert_eq!(split_lines(b"\n"), vec![&b""[..]]);
    assert_eq!(split_lines(b"a\nb\n"), vec![&b"a"[..], &b"b"[..]]);
    assert_eq!(split_lines(b"a\nb"), vec![&b"a"[..], &b"b"[..]]);
    assert_eq!(split_lines(b"a\r\n\r\nb\r"), vec![&b"a"[..], &b""[..], &b"b\r"[..]]);
    assert_eq!(split_lines(b"\r\r\n\n"), vec![&b"\r"[..], &b""[..]]);
}

#[test]
fn cast_is_read_without_its_first_line() {
    let cast = b"{\"version\": 2, \"width\": 80, \"height\": 24}\n\
        [0.5, \"o\", \"hi\"]\r\n\
        [1.5, \"m\", \"tag\"]\n\
        [2.000001, \"o\", \"\\u00e9\\n\"]";
    assert_eq!(
        load_recording(cast, &seconds),
        Ok(vec![
            (Duration::from_micros(500_000), RecordingEvent::Output(b"hi".to_vec())),
            (Duration::from_micros(2_000_001), RecordingEvent::Output("\u{e9}\n".as_bytes().to_vec())),
        ])
    );
}

#[test]
fn first_line_of_a_cast_is_not_looked_at() {
    assert_eq!(load_recording_asciinema_format(b"", &seconds), Ok(Vec::new()));
    assert_eq!(load_recording_asciinema_format(b"\xFF\xFE not text", &seconds), Ok(Vec::new()));
    assert_eq!(
        load_recording_asciinema_format(b"not json\n[0, \"o\", \"x\"]\n", &seconds),
        Ok(vec![(Duration::from_micros(0), RecordingEvent::Output(b"x".to_vec()))])
    );
}

#[test]
fn cast_errors_name_the_line() {
    assert_eq!(
        load_recording(b"{}\n[0.5, \"o\", \"hi\"]\n[1.0, \"r\", \"80x24\"]\n", &seconds),
        Err(FormatError::InvalidCastLine { line: 2, reason: CastError::ResizeUnsupported })
    );
    assert_eq!(
        load_recording(b"{}\n[0.5, \"o\", \"h\xFFi\"]\n", &seconds),
        Err(FormatError::InvalidCastLine { line: 1, reason: CastError::InvalidText })
    );
    assert_eq!(
        load_recording(b"{}\n\n", &seconds),
        Err(FormatError::InvalidCastLine { line: 1, reason: CastError::InvalidJson })
    );
}

#[test]
fn short_files_are_read_as_casts() {
    assert_eq!(load_recording(b"termrec", &seconds), Ok(Vec::new()));
    assert_eq!(
        load_recording(b"termrec:v1\n[1, \"o\", \"x\"]", &seconds),
        Ok(vec![(Duration::from_micros(1_000_000), RecordingEvent::Output(b"x".to_vec()))])
    );
}
