//! The fields that the records of a termrec file are made of.
//!
//! A numeric field is a decimal number followed by `:`. A data field is a
//! numeric field that gives a length, followed by that many raw bytes.

use crate::decimal::{parse_decimal, read_decimal};
use crate::duration::Duration;
use vstd::prelude::*;
use vstd::slice::{slice_subrange, slice_to_vec};

verus! {

/// The byte `:`, which ends a numeric field.
pub const COLON: u8 = 0x3A;

/// The byte that ends a line.
pub const NEWLINE: u8 = 0x0A;

/// Why a field could not be read.
#[derive(Clone, Copy, Debug, PartialEq, Eq, Structural)]
pub enum FieldError {
    /// The input ends where the field should begin.
    UnexpectedEof,
    /// No number stands before the `:`, or the input ends before a `:` comes.
    ExpectedSeparator,
    /// The text before the `:` is no decimal number that a `u64` holds.
    InvalidNumber,
    /// Fewer bytes follow a length than the length announces.
    TruncatedData,
}

/// Whether the first `n` bytes of `input` are free of `stop` and either
/// `stop` follows them or the input ends with them.
pub open spec fn is_run_before(input: Seq<u8>, stop: u8, n: int) -> bool {
    &&& 0 <= n <= input.len()
    &&& forall|j: int| 0 <= j < n ==> input[j] != stop
    &&& n < input.len() ==> input[n] == stop
}

/// The number of bytes of `input` that stand before the first `stop`, or the
/// length of the input where it holds no `stop`.
pub open spec fn run_before(input: Seq<u8>, stop: u8) -> int {
    choose|n: int| is_run_before(input, stop, n)
}

/// `run_before` is the one number that `is_run_before` allows.
pub proof fn lemma_run_before(input: Seq<u8>, stop: u8, n: int)
    requires
        is_run_before(input, stop, n),
    ensures
        run_before(input, stop) == n,
{
    let chosen = run_before(input, stop);
    assert(is_run_before(input, stop, chosen));
    if chosen < n {
        assert(input[chosen] != stop);
    }
    if n < chosen {
        assert(input[n] != stop);
    }
}

/// The index of the first `stop` at or after `from`, or the length of
/// `bytes` where none comes.
pub fn scan_until(bytes: &[u8], from: usize, stop: u8) -> (end: usize)
    requires
        from <= bytes@.len(),
    ensures
        from <= end <= bytes@.len(),
        end - from == run_before(bytes@.skip(from as int), stop),
{
    let mut end: usize = from;
    while end < bytes.len() && bytes[end] != stop
        invariant
            from <= end <= bytes@.len(),
            forall|j: int| from <= j < end ==> bytes@[j] != stop,
        decreases bytes@.len() - end,
    {
        end = end + 1;
    }
    proof {
        lemma_run_before(bytes@.skip(from as int), stop, end - from);
    }
    end
}

/// A numeric field at the front of `input`: its value and the number of
/// bytes it takes, the `:` included.
pub open spec fn num_field(input: Seq<u8>) -> Result<(u64, int), FieldError> {
    let n = run_before(input, COLON);
    if input.len() == 0 {
        Err(FieldError::UnexpectedEof)
    } else if n == 0 || n == input.len() {
        Err(FieldError::ExpectedSeparator)
    } else {
        match parse_decimal(input.subrange(0, n)) {
            Some(value) => Ok((value, n + 1)),
            None => Err(FieldError::InvalidNumber),
        }
    }
}

/// A numeric field at the front of `input`, read as a count of microseconds.
pub open spec fn duration_field(input: Seq<u8>) -> Result<(Duration, int), FieldError> {
    match num_field(input) {
        Ok((micros, used)) => Ok((Duration { micros: micros as u128 }, used)),
        Err(e) => Err(e),
    }
}

/// A data field at the front of `input`: its bytes and the number of bytes
/// that the whole field takes.
pub open spec fn data_field(input: Seq<u8>) -> Result<(Seq<u8>, int), FieldError> {
    match num_field(input) {
        Ok((len, used)) => if used + len <= input.len() {
            Ok((input.subrange(used, used + len), used + len))
        } else {
            Err(FieldError::TruncatedData)
        },
        Err(e) => Err(e),
    }
}

/// The number of bytes that the rest of a comment line takes: up to and
/// with the next line end, or all of `input` where no line end comes.
pub open spec fn comment_len(input: Seq<u8>) -> int {
    let n = run_before(input, NEWLINE);
    if n < input.len() {
        n + 1
    } else {
        n
    }
}

/// A field that was read leaves off inside the input, after at least
/// two bytes.
pub proof fn lemma_num_field_bounds(input: Seq<u8>)
    ensures
        num_field(input) matches Ok((_, used)) ==> 2 <= used <= input.len(),
        duration_field(input) matches Ok((_, used)) ==> 2 <= used <= input.len(),
        data_field(input) matches Ok((data, used)) ==> 2 <= used <= input.len() && data.len()
            <= used - 2,
        0 <= comment_len(input) <= input.len(),
{
    assert(is_run_before(input, COLON, run_before(input, COLON))) by {
        lemma_run_exists(input, COLON);
    }
    assert(is_run_before(input, NEWLINE, run_before(input, NEWLINE))) by {
        lemma_run_exists(input, NEWLINE);
    }
}

/// Every input has a run before `stop`.
pub proof fn lemma_run_exists(input: Seq<u8>, stop: u8)
    ensures
        is_run_before(input, stop, run_before(input, stop)),
{
    lemma_run_exists_from(input, stop, 0);
}

proof fn lemma_run_exists_from(input: Seq<u8>, stop: u8, clear: int)
    requires
        0 <= clear <= input.len(),
        forall|j: int| 0 <= j < clear ==> input[j] != stop,
    ensures
        is_run_before(input, stop, run_before(input, stop)),
    decreases input.len() - clear,
{
    if clear < input.len() && input[clear] != stop {
        lemma_run_exists_from(input, stop, clear + 1);
    } else {
        assert(is_run_before(input, stop, clear));
    }
}

/// Reads the numeric field that starts at `from`. Gives its value and the
/// index after its `:`.
pub fn read_num(bytes: &[u8], from: usize) -> (field: Result<(u64, usize), FieldError>)
    requires
        from <= bytes@.len(),
    ensures
        match field {
            Ok((value, next)) => num_field(bytes@.skip(from as int)) == Ok::<
                (u64, int),
                FieldError,
            >((value, next - from)) && from + 2 <= next <= bytes@.len(),
            Err(e) => num_field(bytes@.skip(from as int)) == Err::<(u64, int), FieldError>(e),
        },
{
    proof {
        lemma_num_field_bounds(bytes@.skip(from as int));
    }
    if from == bytes.len() {
        return Err(FieldError::UnexpectedEof);
    }
    let end: usize = scan_until(bytes, from, COLON);
    if end == from || end == bytes.len() {
        return Err(FieldError::ExpectedSeparator);
    }
    proof {
        assert(bytes@.skip(from as int).subrange(0, end - from) =~= bytes@.subrange(
            from as int,
            end as int,
        ));
    }
    match read_decimal(slice_subrange(bytes, from, end)) {
        Some(value) => Ok((value, end + 1)),
        None => Err(FieldError::InvalidNumber),
    }
}

/// Reads the numeric field that starts at `from` as a count of microseconds.
pub fn read_duration(bytes: &[u8], from: usize) -> (field: Result<(Duration, usize), FieldError>)
    requires
        from <= bytes@.len(),
    ensures
        match field {
            Ok((duration, next)) => duration_field(bytes@.skip(from as int)) == Ok::<
                (Duration, int),
                FieldError,
            >((duration, next - from)) && from + 2 <= next <= bytes@.len(),
            Err(e) => duration_field(bytes@.skip(from as int)) == Err::<(Duration, int), FieldError>(
                e,
            ),
        },
{
    match read_num(bytes, from) {
        Ok((micros, next)) => Ok((Duration::from_micros(micros), next)),
        Err(e) => Err(e),
    }
}

/// Reads the data field that starts at `from`. Gives a copy of its bytes and
/// the index after them.
pub fn read_data(bytes: &[u8], from: usize) -> (field: Result<(Vec<u8>, usize), FieldError>)
    requires
        from <= bytes@.len(),
    ensures
        match field {
            Ok((data, next)) => data_field(bytes@.skip(from as int)) == Ok::<
                (Seq<u8>, int),
                FieldError,
            >((data@, next - from)) && from + 2 <= next <= bytes@.len(),
            Err(e) => data_field(bytes@.skip(from as int)) == Err::<(Seq<u8>, int), FieldError>(e),
        },
{
    match read_num(bytes, from) {
        Ok((len, start)) => {
            if len > (bytes.len() - start) as u64 {
                Err(FieldError::TruncatedData)
            } else {
                let end: usize = start + len as usize;
                proof {
                    assert(bytes@.skip(from as int).subrange(start - from, end - from)
                        =~= bytes@.subrange(start as int, end as int));
                }
                Ok((slice_to_vec(slice_subrange(bytes, start, end)), end))
            }
        },
        Err(e) => Err(e),
    }
}

/// Skips the rest of a comment line that starts at `from`. Gives the index
/// after its line end.
pub fn read_line_comment(bytes: &[u8], from: usize) -> (next: usize)
    requires
        from <= bytes@.len(),
    ensures
        from <= next <= bytes@.len(),
        next - from == comment_len(bytes@.skip(from as int)),
{
    let end: usize = scan_until(bytes, from, NEWLINE);
    if end < bytes.len() {
        end + 1
    } else {
        end
    }
}

} // verus!
