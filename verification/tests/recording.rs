use termrec::duration::Duration;
use termrec::event::{InputEvent, RecordingEvent, SimulationEvent};
use termrec::file_format::{load_input, load_recording};
use termrec::writer::save_recording_termrec;
use termrec::merge::{merge_journals, sort_by_time};
use termrec::recorder::{DrainStep, ReadOutcome, Recorder, READ_BUFFER_SIZE};
use termrec::replay::{
    controlled_play_steps, transform_steps, CaptureStep, PlayCmd, PlaybackError, ReplayStep,
};
use termrec::simulator::{feed_barrier, Simulator, SimulatorStep};

fn us(micros: u64) -> Duration {
    Duration::from_micros(micros)
}

fn output(text: &[u8]) -> RecordingEvent {
    RecordingEvent::Output(text.to_vec())
}

fn marker(text: &[u8]) -> RecordingEvent {
    RecordingEvent::Marker(text.to_vec())
}

#[test]
fn sort_is_by_time_and_keeps_equal_times_in_order() {
    let mut journal = vec![
        (us(5), marker(b"a")),
        (us(1), marker(b"b")),
        (us(5), marker(b"c")),
        (us(3), marker(b"d")),
        (us(1), marker(b"e")),
        (us(5), marker(b"f")),
        (us(0), marker(b"g")),
    ];
    sort_by_time(&mut journal);
    assert_eq!(
        journal,
        vec![
            (us(0), marker(b"g")),
            (us(1), marker(b"b")),
            (us(1), marker(b"e")),
            (us(3), marker(b"d")),
            (us(5), marker(b"a")),
            (us(5), marker(b"c")),
            (us(5), marker(b"f")),
        ]
    );
}

#[test]
fn sort_leaves_a_sorted_journal_alone() {
    let mut journal = vec![(us(1), marker(b"a")), (us(1), marker(b"b")), (us(2), marker(b"c"))];
    let sorted = journal.clone();
    sort_by_time(&mut journal);
    assert_eq!(journal, sorted);
    let mut empty: Vec<(Duration, RecordingEvent)> = Vec::new();
    sort_by_time(&mut empty);
    assert_eq!(empty, Vec::new());
}

#[test]
fn merge_puts_the_recorder_first_among_equal_times() {
    let recorded = vec![(us(10), output(b"a")), (us(20), output(b"b")), (us(30), output(b"c"))];
    let simulated = vec![
        (us(20), RecordingEvent::BarrierUnlocked(b"b".to_vec())),
        (us(20), RecordingEvent::InputRealized(b"x".to_vec())),
        (us(40), RecordingEvent::SleepFinished(us(5))),
    ];
    assert_eq!(
        merge_journals(recorded, Some(simulated)),
        vec![
            (us(10), output(b"a")),
            (us(20), output(b"b")),
            (us(20), RecordingEvent::BarrierUnlocked(b"b".to_vec())),
            (us(20), RecordingEvent::InputRealized(b"x".to_vec())),
            (us(30), output(b"c")),
            (us(40), RecordingEvent::SleepFinished(us(5))),
        ]
    );
}

#[test]
fn merge_without_a_simulator_keeps_the_journal() {
    let recorded = vec![(us(20), output(b"b")), (us(10), output(b"a"))];
    assert_eq!(merge_journals(recorded.clone(), None), recorded);
    assert_eq!(
        merge_journals(recorded, Some(Vec::new())),
        vec![(us(10), output(b"a")), (us(20), output(b"b"))]
    );
}

#[test]
fn recorder_records_what_was_read() {
    let mut recorder = Recorder::begin(false);
    assert!(recorder.events.is_empty());
    assert_eq!(recorder.record(us(3), b"abc".to_vec()), None);
    let buffer = b"hello world";
    assert!(matches!(
        recorder.record_from_fd(ReadOutcome::Read(5), buffer, us(7)),
        DrainStep::Again(None)
    ));
    assert!(matches!(
        recorder.record_from_fd(ReadOutcome::Read(0), buffer, us(8)),
        DrainStep::Drained
    ));
    assert!(matches!(
        recorder.record_from_fd(ReadOutcome::WouldBlock, buffer, us(8)),
        DrainStep::Drained
    ));
    assert!(matches!(
        recorder.record_from_fd(ReadOutcome::Hangup, buffer, us(8)),
        DrainStep::Drained
    ));
    assert!(matches!(
        recorder.record_from_fd(ReadOutcome::Failed, buffer, us(8)),
        DrainStep::Failed
    ));
    assert_eq!(
        recorder.finish(),
        (vec![(us(3), output(b"abc")), (us(7), output(b"hello"))], false)
    );
}

#[test]
fn recorder_forwards_until_the_simulator_is_gone() {
    let mut recorder = Recorder::begin(true);
    assert_eq!(recorder.record(us(1), b"a".to_vec()), Some(b"a".to_vec()));
    assert!(matches!(
        recorder.record_from_fd(ReadOutcome::Read(2), b"bcd", us(2)),
        DrainStep::Again(Some(copy)) if copy == b"bc"
    ));
    recorder.forwarding_failed();
    assert_eq!(recorder.record(us(3), b"e".to_vec()), None);
    assert_eq!(
        recorder.finish(),
        (vec![(us(1), output(b"a")), (us(2), output(b"bc")), (us(3), output(b"e"))], false)
    );
    assert_eq!(Recorder::begin(true).finish(), (Vec::new(), true));
    assert_eq!(READ_BUFFER_SIZE, 2048 * 2048);
}

#[test]
fn barrier_collects_output_until_the_needle_is_seen() {
    let mut collected = Vec::new();
    assert!(!feed_barrier(&mut collected, b"Welcome\nPRO", b"PROMPT> "));
    assert_eq!(collected, b"Welcome\nPRO".to_vec());
    assert!(feed_barrier(&mut collected, b"MPT> ls", b"PROMPT> "));
    assert_eq!(collected, b"ls".to_vec());
    assert!(!feed_barrier(&mut collected, b"", b"PROMPT> "));
    assert!(feed_barrier(&mut collected, b" -l", b"ls -l"));
    assert_eq!(collected, Vec::<u8>::new());
    assert!(!feed_barrier(&mut collected, b"", b""));
}

#[test]
fn barrier_cuts_at_the_first_occurrence() {
    let mut collected = b"a$ b".to_vec();
    assert!(feed_barrier(&mut collected, b"$ c$ ", b"$ "));
    assert_eq!(collected, b"b$ c$ ".to_vec());
}

#[test]
fn simulator_waits_for_the_prompt_then_types() {
    let script = load_input(b"termrec:v1:inp:\\\nw:8:PROMPT> \\\ni:0:3:ls\n\\\n").unwrap();
    let mut recorder = Recorder::begin(true);
    let mut simulator = Simulator::new(script);
    let mut written: Vec<Vec<u8>> = Vec::new();

    assert_eq!(simulator.next_step(), SimulatorStep::Receive);
    let first = recorder.record(us(100), b"Welcome\n".to_vec()).unwrap();
    assert!(!simulator.output_received(&first));
    assert_eq!(simulator.next_step(), SimulatorStep::Receive);
    let second = recorder.record(us(200), b"PROMPT> ".to_vec()).unwrap();
    assert!(simulator.output_received(&second));
    assert_eq!(simulator.next_step(), SimulatorStep::Unlocked);
    simulator.barrier_unlocked(us(210));

    assert_eq!(simulator.next_step(), SimulatorStep::Write { delay: us(0), behind: us(0) });
    written.push(simulator.input_data().clone());
    simulator.input_written(us(230), us(20));
    assert_eq!(simulator.next_step(), SimulatorStep::Finished);

    recorder.record(us(300), b"ls\r\n".to_vec());
    let (recorded, notify) = recorder.finish();
    assert!(notify);
    assert_eq!(written, vec![b"ls\n".to_vec()]);
    assert_eq!(
        merge_journals(recorded, Some(simulator.finish())),
        vec![
            (us(100), output(b"Welcome\n")),
            (us(200), output(b"PROMPT> ")),
            (us(210), RecordingEvent::BarrierUnlocked(b"PROMPT> ".to_vec())),
            (us(230), RecordingEvent::InputRealized(b"ls\n".to_vec())),
            (us(300), output(b"ls\r\n")),
        ]
    );
}

#[test]
fn simulator_walks_through_every_kind_of_step() {
    let script = vec![
        SimulationEvent::Input(InputEvent { timestamp: us(50), data: b"a".to_vec() }),
        SimulationEvent::Marker(b"typed".to_vec()),
        SimulationEvent::Input(InputEvent { timestamp: us(60), data: b"b".to_vec() }),
        SimulationEvent::Sleep(us(1_000)),
        SimulationEvent::Input(InputEvent { timestamp: us(5), data: b"c".to_vec() }),
    ];
    let mut simulator = Simulator::new(script);
    assert_eq!(simulator.next_step(), SimulatorStep::Write { delay: us(50), behind: us(0) });
    assert_eq!(simulator.input_data(), &b"a".to_vec());
    simulator.input_written(us(1_052), us(52));
    assert_eq!(simulator.next_step(), SimulatorStep::Mark);
    simulator.marked(us(1_053));
    assert_eq!(simulator.next_step(), SimulatorStep::Write { delay: us(8), behind: us(0) });
    simulator.input_written(us(1_070), us(17));
    assert_eq!(simulator.next_step(), SimulatorStep::Sleep(us(1_000)));
    simulator.slept(us(2_075));
    assert_eq!(simulator.next_step(), SimulatorStep::Write { delay: us(5), behind: us(0) });
    simulator.input_written(us(2_081), us(6));
    assert_eq!(simulator.next_step(), SimulatorStep::Finished);
    assert_eq!(
        simulator.finish(),
        vec![
            (us(1_052), RecordingEvent::InputRealized(b"a".to_vec())),
            (us(1_053), marker(b"typed")),
            (us(1_070), RecordingEvent::InputRealized(b"b".to_vec())),
            (us(2_075), RecordingEvent::SleepFinished(us(1_000))),
            (us(2_081), RecordingEvent::InputRealized(b"c".to_vec())),
        ]
    );
}

#[test]
fn simulator_refuses_to_search_for_an_empty_needle() {
    let mut simulator = Simulator::new(vec![SimulationEvent::WaitBarrier(Vec::new())]);
    assert!(simulator.accepts(b""));
    assert!(!simulator.accepts(b"a"));
    assert!(!simulator.output_received(b""));
    let mut simulator = Simulator::new(vec![SimulationEvent::WaitBarrier(b"$".to_vec())]);
    assert!(simulator.accepts(b""));
    assert!(simulator.accepts(b"a"));
}

#[test]
fn simulator_counts_the_time_of_a_phase_by_what_steps_took() {
    let script = vec![
        SimulationEvent::Input(InputEvent { timestamp: us(10), data: b"a".to_vec() }),
        SimulationEvent::Input(InputEvent { timestamp: us(10), data: b"b".to_vec() }),
        SimulationEvent::Sleep(us(1)),
    ];
    let mut simulator = Simulator::new(script);
    assert_eq!(simulator.last_timestamp(), us(0));
    simulator.input_written(us(100), us(12));
    assert_eq!(simulator.last_timestamp(), us(12));
    simulator.input_written(us(100), us(3));
    assert_eq!(simulator.last_timestamp(), us(15));
    simulator.slept(us(120));
    assert_eq!(simulator.last_timestamp(), us(0));
}

#[test]
fn simulator_says_how_far_behind_an_input_is() {
    let script = vec![
        SimulationEvent::Input(InputEvent { timestamp: us(10), data: b"a".to_vec() }),
        SimulationEvent::Input(InputEvent { timestamp: us(20), data: b"b".to_vec() }),
    ];
    let mut simulator = Simulator::new(script);
    simulator.input_written(us(100), us(35));
    assert_eq!(simulator.next_step(), SimulatorStep::Write { delay: us(0), behind: us(15) });
}

#[test]
fn simulator_stops_when_the_recording_ends_at_a_barrier() {
    let script = vec![
        SimulationEvent::Marker(b"start".to_vec()),
        SimulationEvent::WaitBarrier(b"never".to_vec()),
        SimulationEvent::Input(InputEvent { timestamp: us(0), data: b"x".to_vec() }),
    ];
    let mut simulator = Simulator::new(script);
    simulator.marked(us(1));
    assert!(!simulator.output_received(b"something else"));
    simulator.output_ended();
    assert_eq!(simulator.next_step(), SimulatorStep::Finished);
    assert_eq!(simulator.finish(), vec![(us(1), marker(b"start"))]);
}

#[test]
fn simulator_keeps_output_behind_a_needle_for_the_next_barrier() {
    let script = vec![
        SimulationEvent::WaitBarrier(b"one".to_vec()),
        SimulationEvent::WaitBarrier(b"two".to_vec()),
    ];
    let mut simulator = Simulator::new(script);
    assert!(simulator.output_received(b"one tw"));
    simulator.barrier_unlocked(us(5));
    assert_eq!(simulator.next_step(), SimulatorStep::Receive);
    assert!(simulator.output_received(b"o"));
    simulator.barrier_unlocked(us(6));
    assert_eq!(simulator.next_step(), SimulatorStep::Finished);
}

#[test]
fn replay_sleeps_up_to_the_event() {
    let play = PlayCmd { max_accuracy_delta_us: 1000 };
    assert_eq!(play.delay_before(us(0), us(0)), Ok(us(0)));
    assert_eq!(play.delay_before(us(750), us(250)), Ok(us(500)));
    assert_eq!(PlayCmd::after_write(us(250), us(512)), us(762));
    assert_eq!(PlayCmd::DEFAULT_MAX_ACCURACY_DELTA_US, 1000);
}

#[test]
fn replay_tolerates_a_lag_up_to_the_limit() {
    let play = PlayCmd { max_accuracy_delta_us: 1000 };
    assert_eq!(play.delay_before(us(1_000), us(1_001)), Ok(us(0)));
    assert_eq!(play.delay_before(us(1_000), us(2_000)), Ok(us(0)));
    assert_eq!(
        play.delay_before(us(1_000), us(2_001)),
        Err(PlaybackError::TooSlow { max_delta: us(1000), actual_delta: us(1001) })
    );
}

#[test]
fn replay_gives_up_when_a_write_took_too_long() {
    let play = PlayCmd { max_accuracy_delta_us: 1000 };
    let file = b"termrec:v1:rec:\\\no:0:1:a\\\no:500:1:b\\\n";
    let journal = load_recording(file, &|_: &serde_json::Value| None).unwrap();
    let events = termrec::file_format::filter_output_events(journal);
    let mut last_timestamp = us(0);
    assert_eq!(play.delay_before(events[0].0, last_timestamp), Ok(us(0)));
    last_timestamp = PlayCmd::after_write(last_timestamp, us(2_000));
    assert_eq!(
        play.delay_before(events[1].0, last_timestamp),
        Err(PlaybackError::TooSlow { max_delta: us(1000), actual_delta: us(1500) })
    );
}

#[test]
fn replay_of_an_empty_recording_does_nothing() {
    let file = save_recording_termrec(Vec::new()).unwrap();
    let journal = load_recording(&file, &|_: &serde_json::Value| None).unwrap();
    let events = termrec::file_format::filter_output_events(journal);
    assert!(events.is_empty());
    assert_eq!(controlled_play_steps(events.len()), vec![ReplayStep::AwaitRequest]);
    assert_eq!(transform_steps(events.len()), vec![CaptureStep::Request]);
}

#[test]
fn replay_on_request_goes_event_by_event() {
    assert_eq!(
        controlled_play_steps(2),
        vec![
            ReplayStep::AwaitRequest,
            ReplayStep::Write(0),
            ReplayStep::SignalFinished,
            ReplayStep::AwaitRequest,
            ReplayStep::Write(1),
            ReplayStep::SignalFinished,
            ReplayStep::AwaitRequest,
        ]
    );
    assert_eq!(
        transform_steps(2),
        vec![
            CaptureStep::Request,
            CaptureStep::AwaitFinished,
            CaptureStep::Capture(0),
            CaptureStep::Request,
            CaptureStep::AwaitFinished,
            CaptureStep::Capture(1),
            CaptureStep::Request,
        ]
    );
}
