//! Input scripts and the order of their timestamps.
//!
//! A script is made of phases. A wait barrier and a sleep each end a phase;
//! the timestamp of an input counts from the start of its phase. Within a
//! phase the inputs have to be timed in the order in which they stand.

use crate::duration::Duration;
use crate::event::{script_view, ScriptEventView, SimulationEvent};
use crate::file_format::FormatError;
use vstd::prelude::*;

verus! {

/// The timestamp that the input at index `at` of a script must not be
/// timed before: that of the input before it in the same phase, or zero
/// where it is the first of its phase. Markers belong to no phase.
pub open spec fn phase_floor(script: Seq<ScriptEventView>, at: int) -> Duration
    decreases at,
{
    if at <= 0 || at > script.len() {
        Duration { micros: 0 }
    } else {
        match script[at - 1] {
            ScriptEventView::Input { timestamp, .. } => timestamp,
            ScriptEventView::WaitBarrier(_) => Duration { micros: 0 },
            ScriptEventView::Sleep(_) => Duration { micros: 0 },
            ScriptEventView::Marker(_) => phase_floor(script, at - 1),
        }
    }
}

/// Whether the event at index `at` is an input that is timed before the
/// input that precedes it in its phase.
pub open spec fn out_of_order(script: Seq<ScriptEventView>, at: int) -> bool {
    script[at] matches ScriptEventView::Input { timestamp, .. } && timestamp.micros < phase_floor(
        script,
        at,
    ).micros
}

/// Whether no input of the first `upto` events of a script is out of order.
pub open spec fn ordered_upto(script: Seq<ScriptEventView>, upto: int) -> bool {
    forall|at: int| 0 <= at < upto ==> !out_of_order(script, at)
}

/// Whether a script is valid: within each phase, the inputs are timed in
/// the order in which they stand.
pub open spec fn script_valid(script: Seq<ScriptEventView>) -> bool {
    ordered_upto(script, script.len() as int)
}

/// Checks that within each phase of a script no input is timed before the
/// input before it. The error names the first input that is.
pub fn validitate_simulation_events(events: &[SimulationEvent]) -> (checked: Result<
    (),
    FormatError,
>)
    ensures
        match checked {
            Ok(()) => script_valid(script_view(events@)),
            Err(e) => exists|at: int|
                0 <= at < events@.len() && ordered_upto(script_view(events@), at) && out_of_order(
                    script_view(events@),
                    at,
                ) && e == (FormatError::InvalidTimestamp { index: at as usize }),
        },
{
    let ghost script = script_view(events@);
    let mut last_timestamp: Duration = Duration::zero();
    let mut i: usize = 0;
    while i < events.len()
        invariant
            i <= events@.len(),
            script == script_view(events@),
            ordered_upto(script, i as int),
            last_timestamp == phase_floor(script, i as int),
        decreases events@.len() - i,
    {
        match &events[i] {
            SimulationEvent::Input(input) => {
                if input.timestamp.micros < last_timestamp.micros {
                    assert(out_of_order(script, i as int));
                    return Err(FormatError::InvalidTimestamp { index: i });
                }
                last_timestamp = input.timestamp;
            },
            SimulationEvent::WaitBarrier(_) => {
                last_timestamp = Duration::zero();
            },
            SimulationEvent::Sleep(_) => {
                last_timestamp = Duration::zero();
            },
            SimulationEvent::Marker(_) => {},
        }
        i = i + 1;
    }
    Ok(())
}

/// Whether no phase ends between the events at `first` and `second`: no
/// wait barrier and no sleep stands between them.
pub open spec fn same_phase(script: Seq<ScriptEventView>, first: int, second: int) -> bool {
    forall|k: int|
        first < k < second ==> !(#[trigger] script[k] is WaitBarrier) && !(script[k] is Sleep)
}

/// Whether the inputs of each phase are timed in the order in which they
/// stand.
pub open spec fn phases_ordered(script: Seq<ScriptEventView>) -> bool {
    forall|first: int, second: int|
        0 <= first < second < script.len() && same_phase(script, first, second) ==> (
        #[trigger] script[first] matches ScriptEventView::Input { timestamp: earlier, .. } ==> (
        #[trigger] script[second] matches ScriptEventView::Input { timestamp: later, .. }
            ==> earlier.micros <= later.micros))
}

/// In a valid script, the floor of a place is no less than the time of any
/// input that stands before it in the same phase.
proof fn lemma_floor_covers(script: Seq<ScriptEventView>, first: int, at: int)
    requires
        script_valid(script),
        0 <= first < at <= script.len(),
        script[first] is Input,
        same_phase(script, first, at),
    ensures
        script[first]->Input_timestamp.micros <= phase_floor(script, at).micros,
    decreases at - first,
{
    if at > first + 1 {
        assert(!(script[at - 1] is WaitBarrier) && !(script[at - 1] is Sleep));
        assert(same_phase(script, first, at - 1));
        lemma_floor_covers(script, first, at - 1);
        assert(!out_of_order(script, at - 1));
    }
}

/// The floor of a place is zero or the time of an input that stands before
/// it in the same phase.
proof fn lemma_floor_source(script: Seq<ScriptEventView>, at: int)
    requires
        0 <= at <= script.len(),
    ensures
        phase_floor(script, at).micros == 0 || exists|first: int|
            0 <= first < at && same_phase(script, first, at) && (
            #[trigger] script[first] matches ScriptEventView::Input { timestamp, .. } && timestamp
                == phase_floor(script, at)),
    decreases at,
{
    if at > 0 {
        match script[at - 1] {
            ScriptEventView::Input { timestamp, .. } => {
                assert(same_phase(script, at - 1, at));
            },
            ScriptEventView::Marker(_) => {
                lemma_floor_source(script, at - 1);
                if phase_floor(script, at).micros != 0 {
                    let first = choose|first: int|
                        0 <= first < at - 1 && same_phase(script, first, at - 1) && (
                        #[trigger] script[first] matches ScriptEventView::Input {
                            timestamp,
                            ..
                        } && timestamp == phase_floor(script, at - 1));
                    assert(same_phase(script, first, at));
                }
            },
            _ => {},
        }
    }
}

/// A script is valid exactly where, within each phase, the inputs are timed
/// in the order in which they stand. A wait barrier and a sleep end a
/// phase; a marker does not.
pub proof fn lemma_valid_script_phases(script: Seq<ScriptEventView>)
    ensures
        script_valid(script) <==> phases_ordered(script),
{
    if script_valid(script) {
        assert forall|first: int, second: int|
            0 <= first < second < script.len() && same_phase(script, first, second) implies (
        #[trigger] script[first] matches ScriptEventView::Input { timestamp: earlier, .. } ==> (
        #[trigger] script[second] matches ScriptEventView::Input { timestamp: later, .. }
            ==> earlier.micros <= later.micros)) by {
            if script[first] is Input && script[second] is Input {
                lemma_floor_covers(script, first, second);
                assert(!out_of_order(script, second));
            }
        }
    }
    if phases_ordered(script) {
        assert forall|at: int| 0 <= at < script.len() implies !out_of_order(script, at) by {
            lemma_floor_source(script, at);
        }
    }
}

} // verus!
