//! Finding events in a journal, and cutting a journal down to the stretch
//! between two events.

use crate::duration::Duration;
use crate::event::{journal_view, EventView, JournalView, RecordingEvent};
use vstd::prelude::*;

verus! {

/// Whether none of the first `n` entries of `journal` is `event` and either
/// the entry at `n` is `event` or the journal ends there.
pub open spec fn is_first_match(journal: JournalView, event: EventView, n: int) -> bool {
    &&& 0 <= n <= journal.len()
    &&& forall|j: int| 0 <= j < n ==> (#[trigger] journal[j]).1 != event
    &&& n < journal.len() ==> journal[n].1 == event
}

/// The index of the first entry of `journal` that is `event`, or the length
/// of the journal where no entry is.
pub open spec fn first_match(journal: JournalView, event: EventView) -> int {
    choose|n: int| is_first_match(journal, event, n)
}

/// `first_match` is the one index that `is_first_match` allows.
pub proof fn lemma_first_match(journal: JournalView, event: EventView, n: int)
    requires
        is_first_match(journal, event, n),
    ensures
        first_match(journal, event) == n,
{
    let chosen = first_match(journal, event);
    assert(is_first_match(journal, event, chosen));
    if chosen < n {
        assert(journal[chosen].1 != event);
    }
    if n < chosen {
        assert(journal[n].1 != event);
    }
}

/// Every journal has a first match, which may be its end.
pub proof fn lemma_first_match_exists(journal: JournalView, event: EventView)
    ensures
        is_first_match(journal, event, first_match(journal, event)),
{
    lemma_first_match_from(journal, event, 0);
}

proof fn lemma_first_match_from(journal: JournalView, event: EventView, clear: int)
    requires
        0 <= clear <= journal.len(),
        forall|j: int| 0 <= j < clear ==> (#[trigger] journal[j]).1 != event,
    ensures
        is_first_match(journal, event, first_match(journal, event)),
    decreases journal.len() - clear,
{
    if clear < journal.len() && journal[clear].1 != event {
        lemma_first_match_from(journal, event, clear + 1);
    } else {
        assert(is_first_match(journal, event, clear));
    }
}

/// The index of the first entry at or after `from` that is `event`, or the
/// length of the journal where none is.
fn find_event_from(journal: &[(Duration, RecordingEvent)], from: usize, event: &RecordingEvent) -> (at:
    usize)
    requires
        from <= journal@.len(),
    ensures
        from <= at <= journal@.len(),
        at - from == first_match(journal_view(journal@).skip(from as int), event@),
{
    let mut at: usize = from;
    while at < journal.len() && !(journal[at].1 == *event)
        invariant
            from <= at <= journal@.len(),
            forall|j: int| from <= j < at ==> (#[trigger] journal@[j]).1@ != event@,
        decreases journal@.len() - at,
    {
        at = at + 1;
    }
    proof {
        lemma_first_match(journal_view(journal@).skip(from as int), event@, at - from);
    }
    at
}

/// The time of the first entry of the journal that is `event`, if any is.
pub open spec fn event_time(journal: JournalView, event: EventView) -> Option<Duration> {
    let at = first_match(journal, event);
    if at < journal.len() {
        Some(journal[at].0)
    } else {
        None
    }
}

/// Finds the time at which `reference_event` first occurs in the recording.
pub fn find_event_time(
    reference_event: &RecordingEvent,
    recording: &[(Duration, RecordingEvent)],
) -> (time: Option<Duration>)
    ensures
        time == event_time(journal_view(recording@), reference_event@),
{
    let at: usize = find_event_from(recording, 0, reference_event);
    proof {
        assert(journal_view(recording@).skip(0) =~= journal_view(recording@));
    }
    if at < recording.len() {
        Some(recording[at].0)
    } else {
        None
    }
}

/// `journal` without the entries that are `event`.
pub open spec fn without_event(journal: JournalView, event: EventView) -> JournalView
    decreases journal.len(),
{
    if journal.len() == 0 {
        journal
    } else {
        let earlier = without_event(journal.drop_last(), event);
        if journal.last().1 == event {
            earlier
        } else {
            earlier.push(journal.last())
        }
    }
}

/// The index at which the window after `after` opens: behind the first
/// entry that is `after`, at the end where no entry is, and at the front
/// where no `after` is given.
pub open spec fn window_start(journal: JournalView, after: Option<EventView>) -> int {
    match after {
        None => 0,
        Some(event) => {
            let at = first_match(journal, event);
            if at < journal.len() {
                at + 1
            } else {
                at
            }
        },
    }
}

/// The index at which the window closes: at the first entry of the window
/// that is `before`, or at the end where none is. A `before` that is the
/// same event as `after` never closes the window.
pub open spec fn window_end(
    journal: JournalView,
    after: Option<EventView>,
    before: Option<EventView>,
) -> int {
    let start = window_start(journal, after);
    match before {
        None => journal.len() as int,
        Some(event) => if after == Some(event) {
            journal.len() as int
        } else {
            start + first_match(journal.skip(start), event)
        },
    }
}

/// The entries of `journal` between `after` and `before`: those behind the
/// first `after` and in front of the next `before`, without any entry that
/// is `after` itself.
pub open spec fn window(
    journal: JournalView,
    after: Option<EventView>,
    before: Option<EventView>,
) -> JournalView {
    let range = journal.subrange(
        window_start(journal, after),
        window_end(journal, after, before),
    );
    match after {
        None => range,
        Some(event) => without_event(range, event),
    }
}

/// The mathematical value of an event that may be absent.
pub open spec fn optional_event_view(event: Option<RecordingEvent>) -> Option<EventView> {
    match event {
        Some(e) => Some(e@),
        None => None,
    }
}

/// Cuts a journal down to the entries between two events.
///
/// Entries up to and with the first `after_event` are dropped, and so is
/// every later entry that is `after_event`. Reading stops in front of the
/// first `before_event` that follows. With neither event the journal comes
/// back as it is.
pub fn filter_only_after_and_before_events(
    events: Vec<(Duration, RecordingEvent)>,
    after_event: Option<RecordingEvent>,
    before_event: Option<RecordingEvent>,
) -> (kept: Vec<(Duration, RecordingEvent)>)
    ensures
        journal_view(kept@) == window(
            journal_view(events@),
            optional_event_view(after_event),
            optional_event_view(before_event),
        ),
{
    let ghost journal = journal_view(events@);
    let ghost after = optional_event_view(after_event);
    let ghost before = optional_event_view(before_event);
    if after_event.is_none() && before_event.is_none() {
        assert(journal.subrange(0, journal.len() as int) =~= journal);
        return events;
    }
    let start: usize = match &after_event {
        None => 0,
        Some(event) => {
            let at: usize = find_event_from(events.as_slice(), 0, event);
            assert(journal.skip(0) =~= journal);
            if at < events.len() {
                at + 1
            } else {
                at
            }
        },
    };
    assert(start == window_start(journal, after));
    let ghost end = window_end(journal, after, before);
    proof {
        match before {
            None => {},
            Some(event) => {
                lemma_first_match_exists(journal.skip(start as int), event);
            },
        }
    }
    let mut kept: Vec<(Duration, RecordingEvent)> = Vec::new();
    let mut i: usize = start;
    proof {
        assert(journal.subrange(start as int, start as int) =~= Seq::<(Duration, EventView)>::empty());
    }
    while i < events.len()
        invariant
            start <= i <= events@.len(),
            journal == journal_view(events@),
            after == optional_event_view(after_event),
            before == optional_event_view(before_event),
            start == window_start(journal, after),
            end == window_end(journal, after, before),
            i <= end <= journal.len(),
            before matches Some(e) ==> (after != before ==> is_first_match(
                journal.skip(start as int),
                e,
                end - start,
            )),
            end < journal.len() ==> before is Some && after != before,
            journal_view(kept@) == match after {
                None => journal.subrange(start as int, i as int),
                Some(event) => without_event(journal.subrange(start as int, i as int), event),
            },
        ensures
            start <= i <= events@.len(),
            i == end,
            journal_view(kept@) == match after {
                None => journal.subrange(start as int, i as int),
                Some(event) => without_event(journal.subrange(start as int, i as int), event),
            },
        decreases events@.len() - i,
    {
        let ghost before_kept = journal_view(kept@);
        let ghost shorter = journal.subrange(start as int, i as int);
        let ghost longer = journal.subrange(start as int, i + 1);
        proof {
            assert(longer.drop_last() =~= shorter);
            assert(longer.last() == journal[i as int]);
        }
        let is_after: bool = match &after_event {
            Some(event) => events[i].1 == *event,
            None => false,
        };
        if is_after {
            proof {
                if i == end {
                    assert(journal.skip(start as int)[i - start] == journal[i as int]);
                }
            }
            i = i + 1;
            continue ;
        }
        let is_before: bool = match &before_event {
            Some(event) => events[i].1 == *event,
            None => false,
        };
        if is_before {
            proof {
                if i < end {
                    assert(journal.skip(start as int)[i - start] == journal[i as int]);
                }
            }
            break ;
        }
        proof {
            if i == end {
                assert(journal.skip(start as int)[i - start] == journal[i as int]);
            }
        }
        let entry = (events[i].0, events[i].1.clone());
        kept.push(entry);
        proof {
            assert(journal_view(kept@) =~= before_kept.push(journal[i as int]));
        }
        i = i + 1;
    }
    kept
}

/// Whether `picked` names, in rising order, the places in `full` at which
/// the entries of `part` stand: `part` is `full` with entries left out.
pub open spec fn picks(part: JournalView, full: JournalView, picked: Seq<int>) -> bool {
    &&& picked.len() == part.len()
    &&& forall|k: int|
        0 <= k < picked.len() ==> 0 <= #[trigger] picked[k] < full.len() && full[picked[k]]
            == part[k]
    &&& forall|k: int, l: int| 0 <= k < l < picked.len() ==> picked[k] < picked[l]
}

/// Leaving an event out of a journal keeps the other entries in their
/// order, and leaves none that is the event.
pub proof fn lemma_without_event(journal: JournalView, event: EventView)
    ensures
        forall|k: int|
            0 <= k < without_event(journal, event).len() ==> (#[trigger] without_event(
                journal,
                event,
            )[k]).1 != event,
        exists|picked: Seq<int>| picks(without_event(journal, event), journal, picked),
    decreases journal.len(),
{
    let kept = without_event(journal, event);
    if journal.len() == 0 {
        assert(picks(kept, journal, Seq::<int>::empty()));
    } else {
        let shorter = journal.drop_last();
        lemma_without_event(shorter, event);
        let earlier = choose|picked: Seq<int>| picks(without_event(shorter, event), shorter, picked);
        if journal.last().1 == event {
            assert(picks(kept, journal, earlier));
        } else {
            let picked = earlier.push(journal.len() - 1);
            assert(picks(kept, journal, picked));
        }
    }
}

/// The window between two events leaves both events out and keeps the
/// order of the journal: its entries are entries of the journal, taken at
/// rising places, and none of them is `after` or `before`.
pub proof fn lemma_window_keeps_order(
    journal: JournalView,
    after: Option<EventView>,
    before: Option<EventView>,
)
    ensures
        forall|k: int|
            0 <= k < window(journal, after, before).len() ==> Some(
                (#[trigger] window(journal, after, before)[k]).1,
            ) != after && Some(window(journal, after, before)[k].1) != before,
        exists|picked: Seq<int>| picks(window(journal, after, before), journal, picked),
{
    let start = window_start(journal, after);
    let end = window_end(journal, after, before);
    let kept = window(journal, after, before);
    match after {
        None => {},
        Some(event) => {
            lemma_first_match_exists(journal, event);
        },
    }
    match before {
        None => {},
        Some(event) => {
            lemma_first_match_exists(journal.skip(start), event);
        },
    }
    let range = journal.subrange(start, end);
    let inner = match after {
        None => Seq::new(range.len(), |k: int| k),
        Some(event) => {
            lemma_without_event(range, event);
            choose|picked: Seq<int>| picks(without_event(range, event), range, picked)
        },
    };
    assert(picks(kept, range, inner));
    let picked = Seq::new(inner.len(), |k: int| inner[k] + start);
    assert(picks(kept, journal, picked));
    assert forall|k: int| 0 <= k < kept.len() implies Some((#[trigger] kept[k]).1) != after && Some(
        kept[k].1,
    ) != before by {
        assert(kept[k] == range[inner[k]]);
        assert(range[inner[k]] == journal[inner[k] + start]);
        match before {
            None => {},
            Some(event) => {
                if after != before {
                    assert(journal.skip(start)[inner[k]] == journal[inner[k] + start]);
                }
            },
        }
    }
}

} // verus!
