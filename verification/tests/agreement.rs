use std::io::BufRead;
use termrec::asciinema::split_lines;
use termrec::decimal::{read_decimal, write_decimal};
use termrec::duration::Duration;
use termrec::event::RecordingEvent;
use termrec::file_format::load_recording;
use termrec::measure::{delete_mosh_predict, frame_file_name};
use termrec::merge::sort_by_time;
use termrec::search::{delete_subslices, find_subslice};
use termrec::writer::save_recording_termrec;

/// A small generator of numbers that look random and are the same on every run.
struct Numbers(u64);

impl Numbers {
    fn next(&mut self) -> u64 {
        self.0 = self.0.wrapping_mul(6364136223846793005).wrapping_add(1442695040888963407);
        self.0 >> 33
    }

    fn below(&mut self, limit: u64) -> u64 {
        self.next() % limit
    }

    fn text(&mut self, alphabet: &[u8], longest: u64) -> Vec<u8> {
        let len = self.below(longest + 1);
        (0..len).map(|_| alphabet[self.below(alphabet.len() as u64) as usize]).collect()
    }
}

#[test]
fn numbers_are_read_as_the_standard_library_reads_them() {
    let mut numbers = Numbers(1);
    for _ in 0..20_000 {
        let text = numbers.text(b"0123456789+-: a", 6);
        let expected = std::str::from_utf8(&text).ok().and_then(|text| text.parse::<u64>().ok());
        assert_eq!(read_decimal(&text), expected, "{text:?}");
    }
    for _ in 0..2_000 {
        let text = numbers.text(b"0123456789", 24);
        let expected = std::str::from_utf8(&text).ok().and_then(|text| text.parse::<u64>().ok());
        assert_eq!(read_decimal(&text), expected, "{text:?}");
    }
}

#[test]
fn numbers_are_written_as_the_standard_library_writes_them() {
    let mut numbers = Numbers(2);
    for _ in 0..2_000 {
        let n = (numbers.next() as u128) << numbers.below(97);
        let mut written = Vec::new();
        write_decimal(&mut written, n);
        assert_eq!(written, n.to_string().into_bytes());
        assert_eq!(
            frame_file_name(Duration { micros: n }),
            format!("frame_{n}").into_bytes()
        );
    }
}

#[test]
fn lines_are_split_as_the_standard_library_splits_them() {
    let mut numbers = Numbers(3);
    for _ in 0..20_000 {
        let text = numbers.text(b"ab\n\n\r", 10);
        let expected: Vec<Vec<u8>> =
            text.as_slice().lines().map(|line| line.unwrap().into_bytes()).collect();
        let lines: Vec<Vec<u8>> = split_lines(&text).into_iter().map(<[u8]>::to_vec).collect();
        assert_eq!(lines, expected, "{text:?}");
    }
}

#[test]
fn search_finds_what_a_scan_of_all_places_finds() {
    let mut numbers = Numbers(4);
    for _ in 0..20_000 {
        let haystack = numbers.text(b"ab", 12);
        let mut needle = numbers.text(b"ab", 3);
        if needle.is_empty() {
            needle.push(b'a');
        }
        let expected = haystack.windows(needle.len()).position(|window| window == needle);
        assert_eq!(find_subslice(&haystack, &needle), expected, "{haystack:?} {needle:?}");
    }
}

#[test]
fn deletion_leaves_no_occurrence_of_the_last_pattern() {
    let mut numbers = Numbers(5);
    for _ in 0..5_000 {
        let data = numbers.text(b"abc", 16);
        let first = numbers.text(b"abc", 2);
        let second = numbers.text(b"abc", 2);
        if first.is_empty() || second.is_empty() {
            continue;
        }
        let stripped = delete_subslices(&data, &[&first, &second]);
        assert!(stripped.len() <= data.len());
        assert_eq!(find_subslice(&stripped, &second), None);
        if find_subslice(&data, &first).is_none() && find_subslice(&data, &second).is_none() {
            assert_eq!(stripped.as_ref(), data.as_slice());
        }
    }
}

#[test]
fn stripping_twice_differs_from_once_only_where_an_underline_is_left() {
    let mut numbers = Numbers(6);
    let pieces: [&[u8]; 6] = [b"\x1B[4m", b"\x1B[0m", b"\x1B[", b"4m", b"0m", b"x"];
    for _ in 0..5_000 {
        let mut frame = Vec::new();
        for _ in 0..numbers.below(8) {
            frame.extend_from_slice(pieces[numbers.below(6) as usize]);
        }
        let once = delete_mosh_predict(&frame);
        let twice = delete_mosh_predict(&once);
        assert_eq!(find_subslice(&once, b"\x1B[0m"), None);
        assert_eq!(twice == once, find_subslice(&once, b"\x1B[4m").is_none(), "{frame:?}");
    }
}

fn event(numbers: &mut Numbers) -> RecordingEvent {
    let data = numbers.text(b"ab:\\\n-0", 9);
    match numbers.below(5) {
        0 => RecordingEvent::Output(data),
        1 => RecordingEvent::InputRealized(data),
        2 => RecordingEvent::BarrierUnlocked(data),
        3 => RecordingEvent::Marker(data),
        _ => RecordingEvent::SleepFinished(Duration::from_micros(numbers.next())),
    }
}

#[test]
fn journals_are_read_back_as_they_were_written() {
    let mut numbers = Numbers(7);
    for _ in 0..2_000 {
        let journal: Vec<(Duration, RecordingEvent)> = (0..numbers.below(6))
            .map(|_| (Duration::from_micros(numbers.next() << numbers.below(32)), event(&mut numbers)))
            .collect();
        let file = save_recording_termrec(journal.clone()).unwrap();
        assert_eq!(load_recording(&file, &|_: &serde_json::Value| None), Ok(journal));
    }
}

#[test]
fn sort_agrees_with_the_stable_sort_of_the_standard_library() {
    let mut numbers = Numbers(8);
    for _ in 0..2_000 {
        let mut journal: Vec<(Duration, RecordingEvent)> = (0..numbers.below(12))
            .map(|i| {
                (Duration::from_micros(numbers.below(4)), RecordingEvent::Marker(vec![i as u8]))
            })
            .collect();
        let mut expected = journal.clone();
        expected.sort_by_key(|(timestamp, _event)| *timestamp);
        sort_by_time(&mut journal);
        assert_eq!(journal, expected);
    }
}
