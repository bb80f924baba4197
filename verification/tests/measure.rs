use termrec::duration::Duration;
use termrec::event::RecordingEvent;
use termrec::measure::{
    can_scan, delete_mosh_predict, find_timestamp_of_frame, frame_file_name, measure,
    measure_until_event, EventSpan, FrameFile, FrameMatcher, FrameTarget, MeasureError,
};
use termrec::window::{filter_only_after_and_before_events, find_event_time};

fn us(micros: u64) -> Duration {
    Duration::from_micros(micros)
}

fn output(text: &[u8]) -> RecordingEvent {
    RecordingEvent::Output(text.to_vec())
}

fn typed(text: &[u8]) -> RecordingEvent {
    RecordingEvent::InputRealized(text.to_vec())
}

fn marker(text: &[u8]) -> RecordingEvent {
    RecordingEvent::Marker(text.to_vec())
}

fn text_matcher(needle: &[u8], delete_mosh_predict: bool) -> FrameMatcher {
    FrameMatcher { target: FrameTarget::Text(needle.to_vec()), delete_mosh_predict }
}

fn frame_matcher(reference: &[u8], delete_mosh_predict: bool) -> FrameMatcher {
    FrameMatcher { target: FrameTarget::Frame(reference.to_vec()), delete_mosh_predict }
}

fn session() -> Vec<(Duration, RecordingEvent)> {
    vec![
        (us(100), output(b"PROMPT> ")),
        (us(250), typed(b"ls\n")),
        (us(300), output(b"ls\r\n")),
        (us(900), output(b"total 4\r\n")),
        (us(950), output(b"PROMPT> ")),
    ]
}

fn session_frames() -> Vec<FrameFile> {
    vec![
        FrameFile::Contents(b"PROMPT> ".to_vec()),
        FrameFile::Missing,
        FrameFile::Contents(b"PROMPT> ls\n".to_vec()),
        FrameFile::Contents(b"PROMPT> ls\ntotal 4\n".to_vec()),
        FrameFile::Contents(b"PROMPT> ls\ntotal 4\nPROMPT> ".to_vec()),
    ]
}

#[test]
fn time_from_input_to_first_frame_with_text() {
    assert_eq!(
        measure(&text_matcher(b"total ", false), &typed(b"ls\n"), &session(), &session_frames()),
        Ok(us(650))
    );
}

#[test]
fn time_from_input_to_reference_frame() {
    assert_eq!(
        measure(
            &frame_matcher(b"PROMPT> ls\ntotal 4\nPROMPT> ", false),
            &typed(b"ls\n"),
            &session(),
            &session_frames()
        ),
        Ok(us(700))
    );
}

#[test]
fn frame_before_the_event_is_a_logic_violation() {
    assert_eq!(
        measure(&text_matcher(b"PROMPT", false), &typed(b"ls\n"), &session(), &session_frames()),
        Err(MeasureError::TargetBeforeEvent { event: us(250), target: us(100) })
    );
}

#[test]
fn frame_at_the_time_of_the_event_measures_zero() {
    let recording = vec![(us(5), typed(b"a")), (us(5), output(b"a"))];
    let frames = vec![FrameFile::Missing, FrameFile::Contents(b"a".to_vec())];
    assert_eq!(measure(&text_matcher(b"a", false), &typed(b"a"), &recording, &frames), Ok(us(0)));
}

#[test]
fn missing_event_and_missing_frame_are_not_found() {
    assert_eq!(
        measure(&text_matcher(b"total ", false), &typed(b"pwd\n"), &session(), &session_frames()),
        Err(MeasureError::FromEventNotFound)
    );
    assert_eq!(
        measure(&text_matcher(b"nothing", false), &typed(b"ls\n"), &session(), &session_frames()),
        Err(MeasureError::FrameNotFound)
    );
    assert_eq!(
        measure(&text_matcher(b"x", false), &output(b"X"), &[], &[]),
        Err(MeasureError::FromEventNotFound)
    );
}

#[test]
fn unreadable_frame_fails_only_where_the_scan_reaches_it() {
    let mut frames = session_frames();
    frames[4] = FrameFile::Unreadable;
    assert_eq!(
        measure(&text_matcher(b"total ", false), &typed(b"ls\n"), &session(), &frames),
        Ok(us(650))
    );
    frames[2] = FrameFile::Unreadable;
    assert_eq!(
        measure(&text_matcher(b"total ", false), &typed(b"ls\n"), &session(), &frames),
        Err(MeasureError::FrameUnreadable { index: 2 })
    );
    assert_eq!(
        find_timestamp_of_frame(&text_matcher(b"PROMPT", false), &session(), &frames),
        Ok(us(100))
    );
}

#[test]
fn predicted_echo_is_stripped_before_matching() {
    let recording = vec![(us(1), typed(b"l")), (us(2), output(b"l")), (us(9), output(b"s"))];
    let frames = vec![
        FrameFile::Missing,
        FrameFile::Contents(b"$ \x1B[4ml\x1B[0m".to_vec()),
        FrameFile::Contents(b"$ l\x1B[4ms\x1B[0m".to_vec()),
    ];
    assert_eq!(
        measure(&frame_matcher(b"$ ls", true), &typed(b"l"), &recording, &frames),
        Ok(us(8))
    );
    assert_eq!(
        measure(&frame_matcher(b"$ ls", false), &typed(b"l"), &recording, &frames),
        Err(MeasureError::FrameNotFound)
    );
    assert_eq!(
        measure(&text_matcher(b"ls", true), &typed(b"l"), &recording, &frames),
        Ok(us(8))
    );
    assert_eq!(
        measure(&text_matcher(b"ls", false), &typed(b"l"), &recording, &frames),
        Err(MeasureError::FrameNotFound)
    );
}

#[test]
fn matcher_compares_whole_frames_and_searches_text() {
    assert!(frame_matcher(b"abc", false).matches(b"abc"));
    assert!(!frame_matcher(b"abc", false).matches(b"abcd"));
    assert!(!frame_matcher(b"abc", false).matches(b"ab"));
    assert!(frame_matcher(b"", false).matches(b""));
    assert!(text_matcher(b"bc", false).matches(b"abcd"));
    assert!(!text_matcher(b"bd", false).matches(b"abcd"));
    assert!(!text_matcher(b"a", false).matches(b""));
    assert!(!text_matcher(b"", false).matches(b""));
    assert!(!text_matcher(b"", true).matches(b"\x1B[4m\x1B[0m"));
}

#[test]
fn empty_text_can_be_looked_for_in_nothing_only() {
    assert!(text_matcher(b"", false).can_search(b""));
    assert!(!text_matcher(b"", false).can_search(b"a"));
    assert!(text_matcher(b"", true).can_search(b"\x1B[0m\x1B[4m"));
    assert!(!text_matcher(b"", true).can_search(b"\x1B[0m\x1B[5m"));
    assert!(text_matcher(b"a", false).can_search(b"abc"));
    assert!(frame_matcher(b"", false).can_search(b"abc"));
}

#[test]
fn scan_is_checked_up_to_the_frame_that_ends_it() {
    let frames = |last: FrameFile| {
        vec![FrameFile::Missing, FrameFile::Contents(Vec::new()), last]
    };
    assert!(can_scan(&text_matcher(b"a", false), &session_frames()));
    assert!(can_scan(&frame_matcher(b"", false), &frames(FrameFile::Contents(b"x".to_vec()))));
    assert!(can_scan(&text_matcher(b"", false), &frames(FrameFile::Missing)));
    assert!(can_scan(&text_matcher(b"", false), &frames(FrameFile::Unreadable)));
    assert!(!can_scan(&text_matcher(b"", false), &frames(FrameFile::Contents(b"x".to_vec()))));
    assert!(can_scan(
        &text_matcher(b"", false),
        &[FrameFile::Unreadable, FrameFile::Contents(b"x".to_vec())]
    ));
}

#[test]
fn stripper_deletes_both_sequences_everywhere() {
    assert_eq!(delete_mosh_predict(b""), b"".to_vec());
    assert_eq!(delete_mosh_predict(b"plain"), b"plain".to_vec());
    assert_eq!(delete_mosh_predict(b"a\x1B[4mb\x1B[0mc\x1B[4m"), b"abc".to_vec());
    assert_eq!(delete_mosh_predict(b"\x1B[\x1B[4m4m"), b"".to_vec());
    assert_eq!(delete_mosh_predict(b"\x1B[1m\x1B[0;4m"), b"\x1B[1m\x1B[0;4m".to_vec());
}

#[test]
fn stripping_twice_is_stripping_once_where_no_underline_is_left() {
    for frame in [&b"a\x1B[4mb\x1B[0mc"[..], b"\x1B[0m\x1B[0m", b"\x1B[\x1B[4m4m", b"text"] {
        let once = delete_mosh_predict(frame);
        assert_eq!(delete_mosh_predict(&once), once);
    }
}

#[test]
fn stripping_twice_goes_on_where_a_reset_hid_an_underline() {
    let once = delete_mosh_predict(b"\x1B[\x1B[0m4m");
    assert_eq!(once, b"\x1B[4m".to_vec());
    assert_eq!(delete_mosh_predict(&once), b"".to_vec());
}

#[test]
fn time_between_two_events() {
    assert_eq!(
        measure_until_event(&session(), &typed(b"ls\n"), &output(b"total 4\r\n")),
        Ok(EventSpan { delta: us(650), from_event_repeated: false })
    );
    assert_eq!(
        measure_until_event(&session(), &output(b"PROMPT> "), &output(b"PROMPT> ")),
        Ok(EventSpan { delta: us(0), from_event_repeated: false })
    );
    assert_eq!(
        measure_until_event(&session(), &output(b"PROMPT> "), &typed(b"ls\n")),
        Ok(EventSpan { delta: us(150), from_event_repeated: false })
    );
}

#[test]
fn time_between_events_starts_at_the_first_match() {
    let recording = vec![
        (us(1), output(b"b")),
        (us(2), marker(b"go")),
        (us(3), output(b"a")),
        (us(5), marker(b"go")),
        (us(9), output(b"b")),
    ];
    assert_eq!(
        measure_until_event(&recording, &marker(b"go"), &output(b"b")),
        Ok(EventSpan { delta: us(7), from_event_repeated: true })
    );
}

#[test]
fn time_between_events_fails_as_not_found() {
    assert_eq!(
        measure_until_event(&[], &output(b"X"), &output(b"Y")),
        Err(MeasureError::FromEventNotFound)
    );
    assert_eq!(
        measure_until_event(&session(), &output(b"X"), &output(b"PROMPT> ")),
        Err(MeasureError::FromEventNotFound)
    );
    assert_eq!(
        measure_until_event(&session(), &typed(b"ls\n"), &output(b"Y")),
        Err(MeasureError::ToEventNotFound)
    );
    assert_eq!(
        measure_until_event(&session(), &output(b"total 4\r\n"), &typed(b"ls\n")),
        Err(MeasureError::ToEventNotFound)
    );
}

#[test]
fn time_between_events_refuses_a_journal_that_runs_backwards() {
    let recording = vec![(us(9), marker(b"a")), (us(4), marker(b"b"))];
    assert_eq!(
        measure_until_event(&recording, &marker(b"a"), &marker(b"b")),
        Err(MeasureError::TargetBeforeEvent { event: us(9), target: us(4) })
    );
}

#[test]
fn first_occurrence_gives_the_time_of_an_event() {
    assert_eq!(find_event_time(&output(b"PROMPT> "), &session()), Some(us(100)));
    assert_eq!(find_event_time(&typed(b"ls\n"), &session()), Some(us(250)));
    assert_eq!(find_event_time(&marker(b"ls\n"), &session()), None);
    assert_eq!(find_event_time(&typed(b"ls\n"), &[]), None);
}

#[test]
fn frame_files_are_named_by_microseconds() {
    assert_eq!(frame_file_name(us(0)), b"frame_0".to_vec());
    assert_eq!(frame_file_name(us(1_000_250)), b"frame_1000250".to_vec());
    assert_eq!(
        frame_file_name(Duration { micros: u128::MAX }),
        b"frame_340282366920938463463374607431768211455".to_vec()
    );
}

fn letters(text: &str) -> Vec<(Duration, RecordingEvent)> {
    text.bytes().enumerate().map(|(i, byte)| (us(i as u64), marker(&[byte]))).collect()
}

fn window(text: &str, after: Option<&[u8]>, before: Option<&[u8]>) -> Vec<(Duration, RecordingEvent)> {
    filter_only_after_and_before_events(letters(text), after.map(marker), before.map(marker))
}

fn picked(text: &str, places: &[usize]) -> Vec<(Duration, RecordingEvent)> {
    let all = letters(text);
    places.iter().map(|&i| all[i].clone()).collect()
}

#[test]
fn window_without_bounds_is_the_journal() {
    assert_eq!(window("abcabc", None, None), letters("abcabc"));
    assert_eq!(window("", None, None), letters(""));
}

#[test]
fn window_opens_behind_the_first_after_event() {
    assert_eq!(window("xxaxbx", Some(b"a"), None), picked("xxaxbx", &[3, 4, 5]));
    assert_eq!(window("xxaxax", Some(b"a"), None), picked("xxaxax", &[3, 5]));
    assert_eq!(window("zzz", Some(b"a"), None), letters(""));
    assert_eq!(window("xxa", Some(b"a"), None), letters(""));
}

#[test]
fn window_closes_in_front_of_the_before_event() {
    assert_eq!(window("xxbxbx", None, Some(b"b")), picked("xxbxbx", &[0, 1]));
    assert_eq!(window("bxx", None, Some(b"b")), letters(""));
    assert_eq!(window("zzz", None, Some(b"b")), letters("zzz"));
}

#[test]
fn window_between_two_events_leaves_both_out() {
    assert_eq!(window("xbxaxyaxbxa", Some(b"a"), Some(b"b")), picked("xbxaxyaxbxa", &[4, 5, 7]));
    assert_eq!(window("xbxb", Some(b"a"), Some(b"b")), letters(""));
    assert_eq!(window("ab", Some(b"a"), Some(b"b")), letters(""));
}

#[test]
fn window_with_the_same_event_on_both_sides_never_closes() {
    assert_eq!(window("xaxaxax", Some(b"a"), Some(b"a")), picked("xaxaxax", &[2, 4, 6]));
}

#[test]
fn empty_recording_measures_nothing() {
    let recording = filter_only_after_and_before_events(Vec::new(), None, None);
    assert_eq!(recording, Vec::new());
    assert_eq!(
        measure_until_event(&recording, &output(b"X"), &output(b"Y")),
        Err(MeasureError::FromEventNotFound)
    );
}
