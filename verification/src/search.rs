//! Searching for, and deleting, byte patterns.

use std::borrow::Cow;
use vstd::prelude::*;

verus! {

/// Whether `needle` stands in `haystack` at index `at`. An occurrence starts at
/// a byte of the haystack, so an empty haystack holds none.
pub open spec fn occurs_at(haystack: Seq<u8>, needle: Seq<u8>, at: int) -> bool {
    &&& 0 <= at < haystack.len()
    &&& at + needle.len() <= haystack.len()
    &&& haystack.subrange(at, at + needle.len()) == needle
}

/// Whether `at` is the leftmost index at which `needle` stands in `haystack`.
pub open spec fn is_first_occurrence(haystack: Seq<u8>, needle: Seq<u8>, at: int) -> bool {
    &&& occurs_at(haystack, needle, at)
    &&& forall|earlier: int| 0 <= earlier < at ==> !occurs_at(haystack, needle, earlier)
}

/// The leftmost index at which `needle` stands in `haystack`, if it stands
/// there at all.
pub open spec fn first_occurrence(haystack: Seq<u8>, needle: Seq<u8>) -> Option<int> {
    if exists|at: int| is_first_occurrence(haystack, needle, at) {
        Some(choose|at: int| is_first_occurrence(haystack, needle, at))
    } else {
        None
    }
}

/// A needle that occurs anywhere has a leftmost occurrence at or before it.
pub proof fn lemma_leftmost_exists(haystack: Seq<u8>, needle: Seq<u8>, at: int)
    requires
        occurs_at(haystack, needle, at),
    ensures
        exists|first: int| is_first_occurrence(haystack, needle, first) && first <= at,
    decreases at,
{
    if exists|earlier: int| 0 <= earlier < at && occurs_at(haystack, needle, earlier) {
        let earlier = choose|earlier: int| 0 <= earlier < at && occurs_at(haystack, needle, earlier);
        lemma_leftmost_exists(haystack, needle, earlier);
    } else {
        assert(is_first_occurrence(haystack, needle, at));
    }
}

/// `first_occurrence` is the leftmost occurrence, and `None` exactly where
/// the needle does not occur.
pub proof fn lemma_first_occurrence(haystack: Seq<u8>, needle: Seq<u8>)
    ensures
        match first_occurrence(haystack, needle) {
            Some(at) => is_first_occurrence(haystack, needle, at),
            None => forall|at: int| !occurs_at(haystack, needle, at),
        },
{
    if first_occurrence(haystack, needle) is None {
        assert forall|at: int| !occurs_at(haystack, needle, at) by {
            if occurs_at(haystack, needle, at) {
                lemma_leftmost_exists(haystack, needle, at);
            }
        }
    }
}

/// Any leftmost occurrence is the one `first_occurrence` names.
pub proof fn lemma_first_occurrence_is(haystack: Seq<u8>, needle: Seq<u8>, at: int)
    requires
        is_first_occurrence(haystack, needle, at),
    ensures
        first_occurrence(haystack, needle) == Some(at),
{
    let chosen = choose|i: int| is_first_occurrence(haystack, needle, i);
    assert(is_first_occurrence(haystack, needle, chosen));
    if chosen < at {
        assert(!occurs_at(haystack, needle, chosen));
    }
    if at < chosen {
        assert(!occurs_at(haystack, needle, at));
    }
}

/// Whether `needle` stands in `haystack` at `at`, for an index at which it fits.
fn matches_at(haystack: &[u8], needle: &[u8], at: usize) -> (matches: bool)
    requires
        at < haystack.len(),
        at + needle.len() <= haystack.len(),
    ensures
        matches == occurs_at(haystack@, needle@, at as int),
{
    let mut k: usize = 0;
    while k < needle.len()
        invariant
            at + needle.len() <= haystack.len(),
            k <= needle.len(),
            forall|j: int| 0 <= j < k ==> haystack@[at + j] == needle@[j],
        decreases needle.len() - k,
    {
        if haystack[at + k] != needle[k] {
            assert(haystack@.subrange(at as int, at + needle.len())[k as int] != needle@[k as int]);
            return false;
        }
        k = k + 1;
    }
    assert(haystack@.subrange(at as int, at + needle.len()) =~= needle@);
    true
}

/// Finds the leftmost place at which `needle` stands in `haystack`.
///
/// An empty haystack holds nothing. Searching a haystack that has bytes for an
/// empty needle is not meaningful and is left out.
pub fn find_subslice(haystack: &[u8], needle: &[u8]) -> (found: Option<usize>)
    requires
        haystack@.len() == 0 || needle@.len() > 0,
    ensures
        match found {
            Some(at) => first_occurrence(haystack@, needle@) == Some(at as int)
                && is_first_occurrence(haystack@, needle@, at as int),
            None => first_occurrence(haystack@, needle@) is None && forall|at: int|
                !occurs_at(haystack@, needle@, at),
        },
{
    proof {
        lemma_first_occurrence(haystack@, needle@);
    }
    if haystack.len() == 0 || needle.len() > haystack.len() {
        return None;
    }
    let last: usize = haystack.len() - needle.len();
    let mut at: usize = 0;
    while at <= last
        invariant
            needle.len() > 0,
            needle.len() <= haystack.len(),
            last == haystack.len() - needle.len(),
            at <= last + 1,
            forall|earlier: int| 0 <= earlier < at ==> !occurs_at(haystack@, needle@, earlier),
        decreases last + 1 - at,
    {
        if matches_at(haystack, needle, at) {
            proof {
                lemma_first_occurrence_is(haystack@, needle@, at as int);
            }
            return Some(at);
        }
        at = at + 1;
    }
    None
}

/// `data` without the bytes from `start` up to `end`.
pub open spec fn without_range(data: Seq<u8>, start: int, end: int) -> Seq<u8> {
    data.subrange(0, start) + data.subrange(end, data.len() as int)
}

/// `data` after the leftmost occurrence of `pattern` has been cut out, again
/// and again, until none is left. Each search starts over at the front, so an
/// occurrence that a cut brings together is cut as well. An empty pattern
/// deletes nothing.
pub open spec fn delete_all(data: Seq<u8>, pattern: Seq<u8>) -> Seq<u8>
    decreases data.len(),
{
    if pattern.len() == 0 {
        data
    } else {
        match first_occurrence(data, pattern) {
            Some(at) => {
                proof {
                    lemma_first_occurrence(data, pattern);
                }
                delete_all(without_range(data, at, at + pattern.len()), pattern)
            },
            None => data,
        }
    }
}

/// Deleting a pattern never makes the data longer, and makes it shorter
/// where the pattern occurs.
pub proof fn lemma_delete_all_shrinks(data: Seq<u8>, pattern: Seq<u8>)
    ensures
        delete_all(data, pattern).len() <= data.len(),
        pattern.len() > 0 && first_occurrence(data, pattern) is Some ==> delete_all(
            data,
            pattern,
        ).len() < data.len(),
    decreases data.len(),
{
    lemma_first_occurrence(data, pattern);
    match first_occurrence(data, pattern) {
        Some(at) => {
            if pattern.len() > 0 {
                lemma_delete_all_shrinks(without_range(data, at, at + pattern.len()), pattern);
            }
        },
        None => {},
    }
}

/// What is left after a pattern has been deleted holds the pattern nowhere.
pub proof fn lemma_delete_all_clean(data: Seq<u8>, pattern: Seq<u8>)
    requires
        pattern.len() > 0,
    ensures
        first_occurrence(delete_all(data, pattern), pattern) is None,
    decreases data.len(),
{
    lemma_first_occurrence(data, pattern);
    match first_occurrence(data, pattern) {
        Some(at) => {
            lemma_delete_all_clean(without_range(data, at, at + pattern.len()), pattern);
        },
        None => {},
    }
}

/// Deleting a pattern leaves the data as it is exactly where the pattern
/// does not occur in it.
pub proof fn lemma_delete_all_fixed(data: Seq<u8>, pattern: Seq<u8>)
    requires
        pattern.len() > 0,
    ensures
        delete_all(data, pattern) == data <==> first_occurrence(data, pattern) is None,
{
    lemma_delete_all_shrinks(data, pattern);
}

/// `data` after each of `patterns` in turn has been deleted from it with
/// [`delete_all`].
pub open spec fn delete_each(data: Seq<u8>, patterns: Seq<Seq<u8>>) -> Seq<u8>
    decreases patterns.len(),
{
    if patterns.len() == 0 {
        data
    } else {
        delete_all(delete_each(data, patterns.drop_last()), patterns.last())
    }
}

/// The byte strings that a slice of slices holds.
pub open spec fn patterns_view(patterns: Seq<&[u8]>) -> Seq<Seq<u8>> {
    Seq::new(patterns.len(), |i: int| patterns[i]@)
}

/// Whether every search that deleting `patterns` from `data` makes is
/// meaningful: a pattern may be empty only where nothing is left to search.
pub open spec fn deletable(data: Seq<u8>, patterns: Seq<Seq<u8>>) -> bool {
    forall|i: int|
        0 <= i < patterns.len() ==> (#[trigger] patterns[i]).len() > 0 || delete_each(
            data,
            patterns.take(i),
        ).len() == 0
}

/// Cuts the bytes from `start` up to `end` out of `data`.
pub fn remove_range(data: &mut Vec<u8>, start: usize, end: usize)
    requires
        start <= end <= old(data)@.len(),
    ensures
        final(data)@ == without_range(old(data)@, start as int, end as int),
{
    let cut: usize = end - start;
    let len: usize = data.len();
    let mut k: usize = end;
    while k < len
        invariant
            start <= end <= k <= len,
            cut == end - start,
            len == old(data)@.len(),
            data@.len() == len,
            forall|j: int| 0 <= j < start ==> data@[j] == old(data)@[j],
            forall|j: int| start <= j < k - cut ==> data@[j] == old(data)@[j + cut],
            forall|j: int| k <= j < len ==> data@[j] == old(data)@[j],
        decreases len - k,
    {
        let byte: u8 = data[k];
        data.set(k - cut, byte);
        k = k + 1;
    }
    data.truncate(len - cut);
    assert(data@ =~= without_range(old(data)@, start as int, end as int));
}

/// Deletes every occurrence of `pattern` from `data`, as [`delete_all`] says.
pub fn delete_pattern(data: &mut Vec<u8>, pattern: &[u8])
    requires
        old(data)@.len() == 0 || pattern@.len() > 0,
    ensures
        final(data)@ == delete_all(old(data)@, pattern@),
{
    loop
        invariant
            data@.len() == 0 || pattern@.len() > 0,
            delete_all(data@, pattern@) == delete_all(old(data)@, pattern@),
        ensures
            data@ == delete_all(old(data)@, pattern@),
        decreases data@.len(),
    {
        let len: usize = data.len();
        match find_subslice(data.as_slice(), pattern) {
            Some(at) => {
                proof {
                    lemma_first_occurrence(data@, pattern@);
                    assert(at + pattern@.len() <= len);
                }
                remove_range(data, at, at + pattern.len());
            },
            None => {
                break ;
            },
        }
    }
}

/// Deletes from `data` every occurrence of each of `delete_sequences`: the
/// first sequence is deleted until none of it is left, then the second from
/// what remains, and so on. With no sequences the data comes back as it is.
pub fn delete_subslices<'a>(data: &'a [u8], delete_sequences: &[&[u8]]) -> (stripped: Cow<
    'a,
    [u8],
>)
    requires
        deletable(data@, patterns_view(delete_sequences@)),
    ensures
        stripped@ == delete_each(data@, patterns_view(delete_sequences@)),
{
    if delete_sequences.len() == 0 {
        return Cow::Borrowed(data);
    }
    let mut rest: Vec<u8> = Vec::new();
    rest.extend_from_slice(data);
    let ghost patterns = patterns_view(delete_sequences@);
    let mut i: usize = 0;
    while i < delete_sequences.len()
        invariant
            i <= delete_sequences.len(),
            patterns == patterns_view(delete_sequences@),
            deletable(data@, patterns),
            rest@ == delete_each(data@, patterns.take(i as int)),
        decreases delete_sequences.len() - i,
    {
        proof {
            assert(patterns.take(i + 1).drop_last() =~= patterns.take(i as int));
            assert(patterns.take(i + 1).last() == patterns[i as int]);
        }
        delete_pattern(&mut rest, delete_sequences[i]);
        i = i + 1;
    }
    proof {
        assert(patterns.take(i as int) =~= patterns);
    }
    Cow::Owned(rest)
}

} // verus!
