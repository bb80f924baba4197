//! Bringing the events of a recording into the order of their timestamps.
//!
//! The recorder and the input simulator each keep their own list of events.
//! When the recording ends the two lists are put one after the other and
//! sorted by timestamp. The sort is stable: events with the same timestamp
//! stay in the order in which they stood.

use crate::duration::Duration;
use crate::event::{journal_view, RecordingEvent};
use vstd::prelude::*;

verus! {

/// The entries that are timed at `time`, in the order in which they stand.
pub open spec fn at_time<T>(entries: Seq<(Duration, T)>, time: Duration) -> Seq<(Duration, T)>
    decreases entries.len(),
{
    if entries.len() == 0 {
        entries
    } else {
        let earlier = at_time(entries.drop_last(), time);
        if entries.last().0 == time {
            earlier.push(entries.last())
        } else {
            earlier
        }
    }
}

/// Whether no entry is timed before an entry that stands in front of it.
pub open spec fn sorted_by_time<T>(entries: Seq<(Duration, T)>) -> bool {
    forall|i: int, j: int|
        0 <= i <= j < entries.len() ==> (#[trigger] entries[i]).0.micros <= (
        #[trigger] entries[j]).0.micros
}

/// Whether `sorted` is `entries` sorted by time with the order of equal
/// times kept: it is sorted, and for every time it holds the same entries
/// of that time, in the same order, as `entries` does.
pub open spec fn is_stable_sort_of<T>(sorted: Seq<(Duration, T)>, entries: Seq<(Duration, T)>) -> bool {
    &&& sorted_by_time(sorted)
    &&& sorted.len() == entries.len()
    &&& forall|time: Duration| #[trigger] at_time(sorted, time) == at_time(entries, time)
}

/// The entries of a time in two lists in a row are those in the one
/// followed by those in the other.
pub proof fn lemma_at_time_concat<T>(
    front: Seq<(Duration, T)>,
    back: Seq<(Duration, T)>,
    time: Duration,
)
    ensures
        at_time(front + back, time) == at_time(front, time) + at_time(back, time),
    decreases back.len(),
{
    if back.len() == 0 {
        assert(front + back =~= front);
        assert(at_time(front, time) + at_time(back, time) =~= at_time(front, time));
    } else {
        lemma_at_time_concat(front, back.drop_last(), time);
        assert((front + back).drop_last() =~= front + back.drop_last());
        assert((front + back).last() == back.last());
        assert(at_time(front + back, time) =~= at_time(front, time) + at_time(back, time));
    }
}

/// A list holds no entries of a time at which none of its entries is timed.
pub proof fn lemma_at_time_absent<T>(entries: Seq<(Duration, T)>, time: Duration)
    requires
        forall|i: int| 0 <= i < entries.len() ==> (#[trigger] entries[i]).0 != time,
    ensures
        at_time(entries, time).len() == 0,
    decreases entries.len(),
{
    if entries.len() > 0 {
        let shorter = entries.drop_last();
        assert forall|i: int| 0 <= i < shorter.len() implies (#[trigger] shorter[i]).0 != time by {
            assert(shorter[i] == entries[i]);
        }
        lemma_at_time_absent(shorter, time);
    }
}

/// The entries of a time in a list of one entry.
pub proof fn lemma_at_time_single<T>(entry: (Duration, T), time: Duration)
    ensures
        at_time(seq![entry], time) == if entry.0 == time {
            seq![entry]
        } else {
            Seq::<(Duration, T)>::empty()
        },
{
    let single = seq![entry];
    assert(single.drop_last() =~= Seq::<(Duration, T)>::empty());
    assert(at_time(single.drop_last(), time).len() == 0);
    assert(single.last() == entry);
    if entry.0 == time {
        assert(at_time(single, time) =~= seq![entry]);
    } else {
        assert(at_time(single, time) =~= Seq::<(Duration, T)>::empty());
    }
}

/// Taking the entries of a time and taking the values of the events can be
/// done in either order.
pub proof fn lemma_at_time_view(entries: Seq<(Duration, RecordingEvent)>, time: Duration)
    ensures
        journal_view(at_time(entries, time)) == at_time(journal_view(entries), time),
    decreases entries.len(),
{
    if entries.len() == 0 {
        assert(journal_view(at_time(entries, time)) =~= at_time(journal_view(entries), time));
    } else {
        lemma_at_time_view(entries.drop_last(), time);
        assert(journal_view(entries).drop_last() =~= journal_view(entries.drop_last()));
        assert(journal_view(entries).last() == (entries.last().0, entries.last().1@));
        assert(journal_view(at_time(entries, time)) =~= at_time(journal_view(entries), time));
    }
}

/// A journal has one stable sort only.
pub proof fn lemma_stable_sort_unique<T>(
    one: Seq<(Duration, T)>,
    other: Seq<(Duration, T)>,
    entries: Seq<(Duration, T)>,
)
    requires
        is_stable_sort_of(one, entries),
        is_stable_sort_of(other, entries),
    ensures
        one == other,
{
    lemma_sorted_alike(one, other);
}

/// Two sorted lists that hold, for every time, the same entries in the
/// same order are the same list.
proof fn lemma_sorted_alike<T>(one: Seq<(Duration, T)>, other: Seq<(Duration, T)>)
    requires
        sorted_by_time(one),
        sorted_by_time(other),
        one.len() == other.len(),
        forall|time: Duration| #[trigger] at_time(one, time) == at_time(other, time),
    ensures
        one == other,
    decreases one.len(),
{
    if one.len() == 0 {
        assert(one =~= other);
    } else {
        lemma_first_of_its_time(one);
        lemma_first_of_its_time(other);
        let a = one[0];
        let b = other[0];
        assert(at_time(one, a.0) == at_time(other, a.0));
        assert(at_time(one, b.0) == at_time(other, b.0));
        lemma_at_time_stands(other, a.0, 0);
        lemma_at_time_stands(one, b.0, 0);
        assert(a.0 == b.0);
        assert(a == b);
        let rest_one = one.skip(1);
        let rest_other = other.skip(1);
        assert(one =~= seq![a] + rest_one);
        assert(other =~= seq![b] + rest_other);
        assert forall|time: Duration| #[trigger]
            at_time(rest_one, time) == at_time(rest_other, time) by {
            lemma_at_time_concat(seq![a], rest_one, time);
            lemma_at_time_concat(seq![b], rest_other, time);
            lemma_at_time_single(a, time);
            assert(at_time(one, time) == at_time(other, time));
            let head = at_time(seq![a], time);
            assert(at_time(rest_one, time) =~= at_time(one, time).skip(head.len() as int));
            assert(at_time(rest_other, time) =~= at_time(other, time).skip(head.len() as int));
        }
        assert(sorted_by_time(rest_one)) by {
            assert forall|i: int, j: int| 0 <= i <= j < rest_one.len() implies (
            #[trigger] rest_one[i]).0.micros <= (#[trigger] rest_one[j]).0.micros by {
                assert(rest_one[i] == one[i + 1] && rest_one[j] == one[j + 1]);
            }
        }
        assert(sorted_by_time(rest_other)) by {
            assert forall|i: int, j: int| 0 <= i <= j < rest_other.len() implies (
            #[trigger] rest_other[i]).0.micros <= (#[trigger] rest_other[j]).0.micros by {
                assert(rest_other[i] == other[i + 1] && rest_other[j] == other[j + 1]);
            }
        }
        lemma_sorted_alike(rest_one, rest_other);
    }
}

/// The first entry of a list is the first of the entries of its time.
proof fn lemma_first_of_its_time<T>(entries: Seq<(Duration, T)>)
    requires
        entries.len() > 0,
    ensures
        at_time(entries, entries[0].0).len() > 0,
        at_time(entries, entries[0].0)[0] == entries[0],
{
    let first = entries[0];
    let rest = entries.skip(1);
    assert(entries =~= seq![first] + rest);
    lemma_at_time_concat(seq![first], rest, first.0);
    lemma_at_time_single(first, first.0);
}

/// Every entry among those of a time stands in the list, at or after the
/// place that its place among them says, and is timed at that time.
proof fn lemma_at_time_stands<T>(entries: Seq<(Duration, T)>, time: Duration, k: int)
    requires
        0 <= k < at_time(entries, time).len(),
    ensures
        exists|i: int|
            k <= i < entries.len() && entries[i] == at_time(entries, time)[k] && (
            #[trigger] entries[i]).0 == time,
    decreases entries.len(),
{
    if entries.len() > 0 {
        let shorter = entries.drop_last();
        if k < at_time(shorter, time).len() {
            lemma_at_time_stands(shorter, time, k);
            let i = choose|i: int|
                k <= i < shorter.len() && shorter[i] == at_time(shorter, time)[k] && (
                #[trigger] shorter[i]).0 == time;
            assert(entries[i] == shorter[i]);
        } else {
            lemma_at_time_len(shorter, time);
            assert(entries[entries.len() - 1].0 == time);
        }
    }
}

/// A list holds no more entries of a time than it holds entries.
proof fn lemma_at_time_len<T>(entries: Seq<(Duration, T)>, time: Duration)
    ensures
        at_time(entries, time).len() <= entries.len(),
    decreases entries.len(),
{
    if entries.len() > 0 {
        lemma_at_time_len(entries.drop_last(), time);
    }
}

/// Sorts a journal by timestamp and keeps the order of equal timestamps.
pub fn sort_by_time(events: &mut Vec<(Duration, RecordingEvent)>)
    ensures
        is_stable_sort_of(journal_view(final(events)@), journal_view(old(events)@)),
        is_stable_sort_of(final(events)@, old(events)@),
{
    let ghost unsorted = events@;
    let mut i: usize = 0;
    proof {
        assert(events@.take(0) =~= unsorted.take(0));
    }
    while i < events.len()
        invariant
            i <= events@.len(),
            events@.len() == unsorted.len(),
            sorted_by_time(events@.take(i as int)),
            events@.skip(i as int) == unsorted.skip(i as int),
            forall|time: Duration| #[trigger]
                at_time(events@.take(i as int), time) == at_time(unsorted.take(i as int), time),
        decreases events@.len() - i,
    {
        let ghost before = events@;
        let ghost prefix = before.take(i as int);
        let moved: Duration = events[i].0;
        let mut place: usize = i;
        while place > 0 && events[place - 1].0.micros > moved.micros
            invariant
                place <= i < events@.len(),
                events@ == before,
                moved == before[i as int].0,
                forall|k: int| place <= k < i ==> (#[trigger] before[k]).0.micros > moved.micros,
            decreases place,
        {
            place = place - 1;
        }
        if place < i {
            let entry = events.remove(i);
            events.insert(place, entry);
        }
        proof {
            let entry = before[i as int];
            let front = prefix.take(place as int);
            let back = prefix.skip(place as int);
            let after = events@;
            assert(after =~= before.remove(i as int).insert(place as int, entry));
            assert(entry == unsorted.skip(i as int)[0]);
            assert(prefix =~= front + back);
            assert(after.take(i + 1) =~= front + seq![entry] + back);
            let tail = after.skip(i + 1);
            assert(tail =~= unsorted.skip(i + 1)) by {
                assert forall|k: int| 0 <= k < tail.len() implies #[trigger] tail[k]
                    == unsorted.skip(i + 1)[k] by {
                    assert(after[i + 1 + k] == before[i + 1 + k]);
                    assert(before.skip(i as int)[k + 1] == unsorted.skip(i as int)[k + 1]);
                }
            }
            assert(unsorted.take(i + 1) =~= unsorted.take(i as int).push(entry));
            assert(sorted_by_time(after.take(i + 1))) by {
                let longer = after.take(i + 1);
                assert forall|a: int, b: int| 0 <= a <= b < longer.len() implies (
                #[trigger] longer[a]).0.micros <= (#[trigger] longer[b]).0.micros by {
                    if place > 0 {
                        assert(prefix[place - 1] == before[place - 1]);
                    }
                    if a < place {
                        assert(longer[a] == prefix[a]);
                        if b < place {
                            assert(longer[b] == prefix[b]);
                        } else if b == place {
                            assert(prefix[a].0.micros <= prefix[place - 1].0.micros);
                        } else {
                            assert(longer[b] == prefix[b - 1]);
                        }
                    } else if a == place {
                        if b > place {
                            assert(longer[b] == prefix[b - 1]);
                            assert(prefix[b - 1] == before[b - 1]);
                        }
                    } else {
                        assert(longer[a] == prefix[a - 1]);
                        assert(longer[b] == prefix[b - 1]);
                    }
                }
            }
            assert forall|time: Duration| #[trigger]
                at_time(after.take(i + 1), time) == at_time(unsorted.take(i + 1), time) by {
                lemma_at_time_concat(front + seq![entry], back, time);
                lemma_at_time_concat(front, seq![entry], time);
                lemma_at_time_concat(front, back, time);
                lemma_at_time_concat(unsorted.take(i as int), seq![entry], time);
                lemma_at_time_single(entry, time);
                assert(at_time(prefix, time) == at_time(unsorted.take(i as int), time));
                assert(unsorted.take(i as int).push(entry) =~= unsorted.take(i as int) + seq![
                    entry,
                ]);
                if entry.0 == time {
                    assert forall|k: int| 0 <= k < back.len() implies (#[trigger] back[k]).0
                        != time by {
                        assert(back[k] == before[place + k]);
                    }
                    lemma_at_time_absent(back, time);
                    assert(at_time(front, time) + at_time(back, time) =~= at_time(front, time));
                    assert(at_time(front, time) + seq![entry] + at_time(back, time) =~= at_time(
                        front,
                        time,
                    ) + seq![entry]);
                } else {
                    assert(at_time(front, time) + Seq::<(Duration, RecordingEvent)>::empty()
                        =~= at_time(front, time));
                    assert(at_time(unsorted.take(i as int), time) + Seq::<
                        (Duration, RecordingEvent),
                    >::empty() =~= at_time(unsorted.take(i as int), time));
                }
            }
        }
        i = i + 1;
    }
    proof {
        assert(events@.take(i as int) =~= events@);
        assert(unsorted.take(i as int) =~= unsorted);
        let sorted = journal_view(events@);
        let mixed = journal_view(unsorted);
        assert forall|time: Duration| #[trigger]
            at_time(sorted, time) == at_time(mixed, time) by {
            assert(at_time(events@, time) == at_time(unsorted, time));
            lemma_at_time_view(events@, time);
            lemma_at_time_view(unsorted, time);
        }
    }
}

/// Closes a recording: puts what the simulator recorded, where one ran,
/// behind what the recorder recorded and sorts the whole by timestamp,
/// keeping the order of equal timestamps. Without a simulator the
/// recorder's events are the journal as they stand.
pub fn merge_journals(
    recorded: Vec<(Duration, RecordingEvent)>,
    simulated: Option<Vec<(Duration, RecordingEvent)>>,
) -> (journal: Vec<(Duration, RecordingEvent)>)
    ensures
        match simulated {
            Some(input) => is_stable_sort_of(
                journal_view(journal@),
                journal_view(recorded@ + input@),
            ),
            None => journal@ == recorded@,
        },
{
    match simulated {
        Some(input) => {
            let mut journal = recorded;
            let mut input = input;
            journal.append(&mut input);
            sort_by_time(&mut journal);
            journal
        },
        None => recorded,
    }
}

} // verus!
