//! Measuring the time from an event of a recording to the frame, or the
//! event, that answers it.

use crate::decimal::{decimal_digits, write_decimal};
use crate::duration::Duration;
use crate::event::{journal_view, same_bytes, EventView, JournalView, RecordingEvent};
use crate::search::{
    delete_all, delete_pattern, find_subslice, first_occurrence, lemma_delete_all_clean,
    lemma_delete_all_fixed, lemma_delete_all_shrinks,
};
use crate::window::{event_time, find_event_time, first_match, lemma_first_match};
use vstd::prelude::*;

verus! {

/// The escape sequence that turns underlining on: `ESC [ 4 m`.
pub const SGR_UNDERLINE: [u8; 4] = [0x1B, 0x5B, 0x34, 0x6D];

/// The escape sequence that resets the rendition: `ESC [ 0 m`.
pub const SGR_RESET: [u8; 4] = [0x1B, 0x5B, 0x30, 0x6D];

/// A frame without the marks of a predicted echo: every `ESC [ 4 m` is
/// deleted from it, then every `ESC [ 0 m` from what is left. The sequences
/// are deleted wherever they stand, also inside other escape sequences.
pub open spec fn mosh_predict_stripped(frame: Seq<u8>) -> Seq<u8> {
    delete_all(delete_all(frame, SGR_UNDERLINE@), SGR_RESET@)
}

/// Deletes the marks of a predicted echo from a frame.
pub fn delete_mosh_predict(data: &[u8]) -> (stripped: Vec<u8>)
    ensures
        stripped@ == mosh_predict_stripped(data@),
{
    let mut stripped: Vec<u8> = Vec::new();
    stripped.extend_from_slice(data);
    assert(stripped@ =~= data@);
    delete_pattern(&mut stripped, &SGR_UNDERLINE);
    delete_pattern(&mut stripped, &SGR_RESET);
    stripped
}

/// Stripping a frame a second time changes nothing exactly where the first
/// stripping has left no `ESC [ 4 m`. Deleting the resets can bring the
/// halves of one together, and only then does a second stripping go on.
pub proof fn lemma_strip_twice(frame: Seq<u8>)
    ensures
        mosh_predict_stripped(mosh_predict_stripped(frame)) == mosh_predict_stripped(frame)
            <==> first_occurrence(mosh_predict_stripped(frame), SGR_UNDERLINE@) is None,
        first_occurrence(mosh_predict_stripped(frame), SGR_RESET@) is None,
{
    let once = mosh_predict_stripped(frame);
    let underline = SGR_UNDERLINE@;
    let reset = SGR_RESET@;
    assert(underline.len() == 4 && reset.len() == 4);
    lemma_delete_all_clean(delete_all(frame, underline), reset);
    lemma_delete_all_fixed(once, underline);
    lemma_delete_all_fixed(once, reset);
    lemma_delete_all_shrinks(once, underline);
    lemma_delete_all_shrinks(delete_all(once, underline), reset);
}

/// What a frame is held against.
#[derive(Debug)]
pub enum FrameTarget {
    /// A reference frame, which the frame has to equal byte by byte.
    Frame(Vec<u8>),
    /// A text, which has to stand somewhere in the frame.
    Text(Vec<u8>),
}

/// The mathematical value of a [`FrameTarget`].
pub enum FrameTargetView {
    Frame(Seq<u8>),
    Text(Seq<u8>),
}

impl View for FrameTarget {
    type V = FrameTargetView;

    open spec fn view(&self) -> FrameTargetView {
        match self {
            FrameTarget::Frame(reference) => FrameTargetView::Frame(reference@),
            FrameTarget::Text(needle) => FrameTargetView::Text(needle@),
        }
    }
}

/// How frames are held against a target.
#[derive(Debug)]
pub struct FrameMatcher {
    /// What to look for.
    pub target: FrameTarget,
    /// Whether the marks of a predicted echo are deleted from a frame before
    /// it is looked at.
    pub delete_mosh_predict: bool,
}

/// What became of reading the frame file of one journal entry.
#[derive(Debug)]
pub enum FrameFile {
    /// No frame was captured at the time of the entry.
    Missing,
    /// The file is there and could not be read.
    Unreadable,
    /// The bytes of the frame.
    Contents(Vec<u8>),
}

/// The mathematical value of a [`FrameFile`].
pub enum FrameFileView {
    Missing,
    Unreadable,
    Contents(Seq<u8>),
}

impl View for FrameFile {
    type V = FrameFileView;

    open spec fn view(&self) -> FrameFileView {
        match self {
            FrameFile::Missing => FrameFileView::Missing,
            FrameFile::Unreadable => FrameFileView::Unreadable,
            FrameFile::Contents(bytes) => FrameFileView::Contents(bytes@),
        }
    }
}

/// The mathematical value of a list of frame files.
pub open spec fn frames_view(frames: Seq<FrameFile>) -> Seq<FrameFileView> {
    Seq::new(frames.len(), |i: int| frames[i]@)
}

/// Why no time could be measured.
#[derive(Clone, Copy, Debug, PartialEq, Eq, Structural)]
pub enum MeasureError {
    /// The event to measure from does not occur.
    FromEventNotFound,
    /// The event to measure up to does not occur at or after the first.
    ToEventNotFound,
    /// No frame matches.
    FrameNotFound,
    /// The frame file of the entry at `index` could not be read.
    FrameUnreadable { index: usize },
    /// What was looked for is timed before the event to measure from.
    TargetBeforeEvent { event: Duration, target: Duration },
}

/// The bytes of a frame that are looked at.
pub open spec fn frame_seen(strip: bool, frame: Seq<u8>) -> Seq<u8> {
    if strip {
        mosh_predict_stripped(frame)
    } else {
        frame
    }
}

/// Whether a frame matches a target.
pub open spec fn frame_matches(target: FrameTargetView, strip: bool, frame: Seq<u8>) -> bool {
    match target {
        FrameTargetView::Frame(reference) => reference == frame_seen(strip, frame),
        FrameTargetView::Text(needle) => first_occurrence(frame_seen(strip, frame), needle)
            is Some,
    }
}

/// Whether a frame can be searched for a target: an empty text can be
/// looked for only in a frame of which nothing is seen.
pub open spec fn searchable(target: FrameTargetView, strip: bool, frame: Seq<u8>) -> bool {
    target matches FrameTargetView::Text(needle) ==> needle.len() > 0 || frame_seen(
        strip,
        frame,
    ).len() == 0
}

impl FrameMatcher {
    /// Whether `frame` can be searched for the target, as `searchable` says.
    pub fn can_search(&self, frame: &[u8]) -> (can: bool)
        ensures
            can == searchable(self.target@, self.delete_mosh_predict, frame@),
    {
        match &self.target {
            FrameTarget::Frame(_) => true,
            FrameTarget::Text(needle) => {
                if needle.len() > 0 {
                    true
                } else if self.delete_mosh_predict {
                    delete_mosh_predict(frame).len() == 0
                } else {
                    frame.len() == 0
                }
            },
        }
    }

    /// Whether `frame` matches the target.
    pub fn matches(&self, frame: &[u8]) -> (matched: bool)
        requires
            searchable(self.target@, self.delete_mosh_predict, frame@),
        ensures
            matched == frame_matches(self.target@, self.delete_mosh_predict, frame@),
    {
        if self.delete_mosh_predict {
            let stripped: Vec<u8> = delete_mosh_predict(frame);
            match &self.target {
                FrameTarget::Frame(reference) => same_bytes(
                    reference.as_slice(),
                    stripped.as_slice(),
                ),
                FrameTarget::Text(needle) => find_subslice(
                    stripped.as_slice(),
                    needle.as_slice(),
                ).is_some(),
            }
        } else {
            match &self.target {
                FrameTarget::Frame(reference) => same_bytes(reference.as_slice(), frame),
                FrameTarget::Text(needle) => find_subslice(frame, needle.as_slice()).is_some(),
            }
        }
    }
}

/// Whether the scan for a frame ends at a frame file: it cannot be read, or
/// it holds a frame that matches.
pub open spec fn ends_scan(target: FrameTargetView, strip: bool, file: FrameFileView) -> bool {
    match file {
        FrameFileView::Missing => false,
        FrameFileView::Unreadable => true,
        FrameFileView::Contents(frame) => frame_matches(target, strip, frame),
    }
}

/// Whether none of the first `n` frame files ends the scan and either the
/// one at `n` does or the list ends there.
pub open spec fn is_scan_end(
    target: FrameTargetView,
    strip: bool,
    frames: Seq<FrameFileView>,
    n: int,
) -> bool {
    &&& 0 <= n <= frames.len()
    &&& forall|j: int| 0 <= j < n ==> !ends_scan(target, strip, #[trigger] frames[j])
    &&& n < frames.len() ==> ends_scan(target, strip, frames[n])
}

/// The index of the first frame file that ends the scan, or the length of
/// the list where none does.
pub open spec fn scan_end(target: FrameTargetView, strip: bool, frames: Seq<FrameFileView>) -> int {
    choose|n: int| is_scan_end(target, strip, frames, n)
}

/// `scan_end` is the one index that `is_scan_end` allows.
pub proof fn lemma_scan_end(
    target: FrameTargetView,
    strip: bool,
    frames: Seq<FrameFileView>,
    n: int,
)
    requires
        is_scan_end(target, strip, frames, n),
    ensures
        scan_end(target, strip, frames) == n,
{
    let chosen = scan_end(target, strip, frames);
    assert(is_scan_end(target, strip, frames, chosen));
    if chosen < n {
        assert(!ends_scan(target, strip, frames[chosen]));
    }
    if n < chosen {
        assert(!ends_scan(target, strip, frames[n]));
    }
}

/// Every list of frame files has a scan end.
pub proof fn lemma_scan_end_exists(target: FrameTargetView, strip: bool, frames: Seq<FrameFileView>)
    ensures
        is_scan_end(target, strip, frames, scan_end(target, strip, frames)),
{
    lemma_scan_end_from(target, strip, frames, 0);
}

proof fn lemma_scan_end_from(
    target: FrameTargetView,
    strip: bool,
    frames: Seq<FrameFileView>,
    clear: int,
)
    requires
        0 <= clear <= frames.len(),
        forall|j: int| 0 <= j < clear ==> !ends_scan(target, strip, #[trigger] frames[j]),
    ensures
        is_scan_end(target, strip, frames, scan_end(target, strip, frames)),
    decreases frames.len() - clear,
{
    if clear < frames.len() && !ends_scan(target, strip, frames[clear]) {
        lemma_scan_end_from(target, strip, frames, clear + 1);
    } else {
        assert(is_scan_end(target, strip, frames, clear));
    }
}

/// Whether every frame that the scan looks at can be searched: those up to
/// and with the one at which the scan ends.
pub open spec fn scannable(target: FrameTargetView, strip: bool, frames: Seq<FrameFileView>) -> bool {
    forall|i: int|
        0 <= i < frames.len() && i <= scan_end(target, strip, frames) ==> (
        #[trigger] frames[i] matches FrameFileView::Contents(frame) ==> searchable(
            target,
            strip,
            frame,
        ))
}

/// Whether every frame that a scan of `frames` looks at can be searched,
/// as `scannable` says.
pub fn can_scan(matcher: &FrameMatcher, frames: &[FrameFile]) -> (can: bool)
    ensures
        can == scannable(matcher.target@, matcher.delete_mosh_predict, frames_view(frames@)),
{
    let ghost target = matcher.target@;
    let ghost strip = matcher.delete_mosh_predict;
    let ghost files = frames_view(frames@);
    proof {
        lemma_scan_end_exists(target, strip, files);
    }
    let mut i: usize = 0;
    while i < frames.len()
        invariant
            i <= frames@.len(),
            target == matcher.target@,
            strip == matcher.delete_mosh_predict,
            files == frames_view(frames@),
            is_scan_end(target, strip, files, scan_end(target, strip, files)),
            forall|j: int| 0 <= j < i ==> !ends_scan(target, strip, #[trigger] files[j]),
            forall|j: int|
                0 <= j < i ==> (#[trigger] files[j] matches FrameFileView::Contents(frame)
                    ==> searchable(target, strip, frame)),
        decreases frames@.len() - i,
    {
        proof {
            if scan_end(target, strip, files) < i {
                assert(!ends_scan(target, strip, files[scan_end(target, strip, files)]));
            }
            assert(files[i as int] == frames@[i as int]@);
        }
        match &frames[i] {
            FrameFile::Missing => {},
            FrameFile::Unreadable => {
                proof {
                    lemma_scan_end(target, strip, files, i as int);
                }
                return true;
            },
            FrameFile::Contents(frame) => {
                if !matcher.can_search(frame.as_slice()) {
                    return false;
                }
                if matcher.matches(frame.as_slice()) {
                    proof {
                        lemma_scan_end(target, strip, files, i as int);
                    }
                    return true;
                }
            },
        }
        i = i + 1;
    }
    proof {
        lemma_scan_end(target, strip, files, i as int);
    }
    true
}

/// The time of the first frame that matches, where `frames[i]` is the frame
/// file of the journal entry `i`. The scan goes through the journal in
/// order, passes over entries without a frame, and fails at a frame file
/// that cannot be read.
pub open spec fn frame_time(
    target: FrameTargetView,
    strip: bool,
    journal: JournalView,
    frames: Seq<FrameFileView>,
) -> Result<Duration, MeasureError> {
    let at = scan_end(target, strip, frames);
    if at >= frames.len() {
        Err(MeasureError::FrameNotFound)
    } else if frames[at] is Unreadable {
        Err(MeasureError::FrameUnreadable { index: at as usize })
    } else {
        Ok(journal[at].0)
    }
}

/// Finds the time of the first frame that matches. `frames[i]` is what
/// reading the frame file of `recording[i]` gave.
pub fn find_timestamp_of_frame(
    matcher: &FrameMatcher,
    recording: &[(Duration, RecordingEvent)],
    frames: &[FrameFile],
) -> (time: Result<Duration, MeasureError>)
    requires
        frames@.len() == recording@.len(),
        scannable(matcher.target@, matcher.delete_mosh_predict, frames_view(frames@)),
    ensures
        time == frame_time(
            matcher.target@,
            matcher.delete_mosh_predict,
            journal_view(recording@),
            frames_view(frames@),
        ),
{
    let ghost target = matcher.target@;
    let ghost strip = matcher.delete_mosh_predict;
    let ghost files = frames_view(frames@);
    proof {
        lemma_scan_end_exists(target, strip, files);
    }
    let mut i: usize = 0;
    while i < frames.len()
        invariant
            i <= frames@.len(),
            frames@.len() == recording@.len(),
            target == matcher.target@,
            strip == matcher.delete_mosh_predict,
            files == frames_view(frames@),
            scannable(target, strip, files),
            is_scan_end(target, strip, files, scan_end(target, strip, files)),
            forall|j: int| 0 <= j < i ==> !ends_scan(target, strip, #[trigger] files[j]),
        decreases frames@.len() - i,
    {
        proof {
            if scan_end(target, strip, files) < i {
                assert(!ends_scan(target, strip, files[scan_end(target, strip, files)]));
            }
            assert(files[i as int] == frames@[i as int]@);
        }
        match &frames[i] {
            FrameFile::Missing => {},
            FrameFile::Unreadable => {
                proof {
                    lemma_scan_end(target, strip, files, i as int);
                }
                return Err(MeasureError::FrameUnreadable { index: i });
            },
            FrameFile::Contents(frame) => {
                if matcher.matches(frame.as_slice()) {
                    proof {
                        lemma_scan_end(target, strip, files, i as int);
                    }
                    return Ok(recording[i].0);
                }
            },
        }
        i = i + 1;
    }
    proof {
        lemma_scan_end(target, strip, files, i as int);
    }
    Err(MeasureError::FrameNotFound)
}

/// The time from the first occurrence of `from` to the first frame that
/// matches. A frame that is timed before the event is an error: it shows a
/// screen from before the event.
pub open spec fn measurement(
    target: FrameTargetView,
    strip: bool,
    from: EventView,
    journal: JournalView,
    frames: Seq<FrameFileView>,
) -> Result<Duration, MeasureError> {
    match event_time(journal, from) {
        None => Err(MeasureError::FromEventNotFound),
        Some(event) => match frame_time(target, strip, journal, frames) {
            Err(e) => Err(e),
            Ok(frame) => if frame.micros < event.micros {
                Err(MeasureError::TargetBeforeEvent { event, target: frame })
            } else {
                Ok(Duration { micros: (frame.micros - event.micros) as u128 })
            },
        },
    }
}

/// A measurement never runs backwards. Where a time is measured, the frame
/// is timed at or after the event and the time is their difference; and a
/// frame that is timed before the event is refused as such, whatever else
/// holds of the recording.
pub proof fn lemma_measurement_is_monotone(
    target: FrameTargetView,
    strip: bool,
    from: EventView,
    journal: JournalView,
    frames: Seq<FrameFileView>,
)
    ensures
        measurement(target, strip, from, journal, frames) matches Ok(delta) ==> {
            &&& event_time(journal, from) matches Some(event)
            &&& frame_time(target, strip, journal, frames) matches Ok(frame)
            &&& frame.micros >= event.micros
            &&& delta.micros == frame.micros - event.micros
        },
        (event_time(journal, from) matches Some(event) && (frame_time(
            target,
            strip,
            journal,
            frames,
        ) matches Ok(frame) && frame.micros < event.micros)) <==> measurement(
            target,
            strip,
            from,
            journal,
            frames,
        ) matches Err(MeasureError::TargetBeforeEvent { .. }),
{
}

/// Measures the time from the first occurrence of `from_event` to the first
/// frame that matches. `frames[i]` is what reading the frame file of
/// `recording[i]` gave.
pub fn measure(
    matcher: &FrameMatcher,
    from_event: &RecordingEvent,
    recording: &[(Duration, RecordingEvent)],
    frames: &[FrameFile],
) -> (delta: Result<Duration, MeasureError>)
    requires
        frames@.len() == recording@.len(),
        event_time(journal_view(recording@), from_event@) is Some ==> scannable(
            matcher.target@,
            matcher.delete_mosh_predict,
            frames_view(frames@),
        ),
    ensures
        delta == measurement(
            matcher.target@,
            matcher.delete_mosh_predict,
            from_event@,
            journal_view(recording@),
            frames_view(frames@),
        ),
{
    let timestamp_from: Duration = match find_event_time(from_event, recording) {
        Some(time) => time,
        None => {
            return Err(MeasureError::FromEventNotFound);
        },
    };
    let timestamp_to: Duration = match find_timestamp_of_frame(matcher, recording, frames) {
        Ok(time) => time,
        Err(e) => {
            return Err(e);
        },
    };
    match timestamp_to.checked_sub(timestamp_from) {
        Some(delta) => Ok(delta),
        None => Err(MeasureError::TargetBeforeEvent { event: timestamp_from, target: timestamp_to }),
    }
}

/// A time measured between two events.
#[derive(Clone, Copy, Debug, PartialEq, Eq, Structural)]
pub struct EventSpan {
    /// The time from the one event to the other.
    pub delta: Duration,
    /// Whether the event to measure from occurs again before the span ends.
    pub from_event_repeated: bool,
}

/// The time from the first occurrence of `from` to the first occurrence of
/// `to` at or after it.
pub open spec fn event_span(journal: JournalView, from: EventView, to: EventView) -> Result<
    EventSpan,
    MeasureError,
> {
    let start = first_match(journal, from);
    let end = start + first_match(journal.skip(start), to);
    if start >= journal.len() {
        Err(MeasureError::FromEventNotFound)
    } else if end >= journal.len() {
        Err(MeasureError::ToEventNotFound)
    } else if journal[end].0.micros < journal[start].0.micros {
        Err(MeasureError::TargetBeforeEvent { event: journal[start].0, target: journal[end].0 })
    } else {
        Ok(
            EventSpan {
                delta: Duration { micros: (journal[end].0.micros - journal[start].0.micros) as u128 },
                from_event_repeated: exists|k: int| start < k <= end && (#[trigger] journal[k]).1
                    == from,
            },
        )
    }
}

/// Measures the time from the first occurrence of `from_event` to the first
/// occurrence of `to_event` at or after it.
pub fn measure_until_event(
    recording: &[(Duration, RecordingEvent)],
    from_event: &RecordingEvent,
    to_event: &RecordingEvent,
) -> (span: Result<EventSpan, MeasureError>)
    ensures
        span == event_span(journal_view(recording@), from_event@, to_event@),
{
    let ghost journal = journal_view(recording@);
    let mut start: usize = 0;
    while start < recording.len() && !(recording[start].1 == *from_event)
        invariant
            start <= recording@.len(),
            forall|j: int| 0 <= j < start ==> (#[trigger] recording@[j]).1@ != from_event@,
        decreases recording@.len() - start,
    {
        start = start + 1;
    }
    proof {
        lemma_first_match(journal, from_event@, start as int);
    }
    if start == recording.len() {
        return Err(MeasureError::FromEventNotFound);
    }
    let mut end: usize = start;
    let mut repeated: bool = false;
    while end < recording.len() && !(recording[end].1 == *to_event)
        invariant
            start <= end <= recording@.len(),
            start < recording@.len(),
            journal == journal_view(recording@),
            forall|j: int| start <= j < end ==> (#[trigger] recording@[j]).1@ != to_event@,
            repeated == exists|k: int| start < k <= end && k < journal.len() && (
            #[trigger] journal[k]).1 == from_event@,
        decreases recording@.len() - end,
    {
        end = end + 1;
        if end < recording.len() && recording[end].1 == *from_event {
            repeated = true;
            assert(journal[end as int].1 == from_event@);
        }
    }
    proof {
        lemma_first_match(journal.skip(start as int), to_event@, end - start);
    }
    if end == recording.len() {
        return Err(MeasureError::ToEventNotFound);
    }
    match recording[end].0.checked_sub(recording[start].0) {
        Some(delta) => Ok(EventSpan { delta, from_event_repeated: repeated }),
        None => Err(
            MeasureError::TargetBeforeEvent { event: recording[start].0, target: recording[end].0 },
        ),
    }
}

/// The first bytes of the name of a frame file: `frame_`.
pub const FRAME_FILE_PREFIX: [u8; 6] = [0x66, 0x72, 0x61, 0x6D, 0x65, 0x5F];

/// The name of the file that holds the frame captured at `timestamp`:
/// `frame_` and the microseconds of the timestamp.
pub open spec fn frame_name(timestamp: Duration) -> Seq<u8> {
    FRAME_FILE_PREFIX@ + decimal_digits(timestamp.micros as nat)
}

/// The name of the file that holds the frame captured at `timestamp`.
pub fn frame_file_name(timestamp: Duration) -> (name: Vec<u8>)
    ensures
        name@ == frame_name(timestamp),
{
    let mut name: Vec<u8> = Vec::new();
    name.extend_from_slice(&FRAME_FILE_PREFIX);
    assert(name@ =~= FRAME_FILE_PREFIX@);
    write_decimal(&mut name, timestamp.micros);
    name
}

} // verus!
