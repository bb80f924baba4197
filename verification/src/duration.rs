//! Time spans with microsecond resolution.

use vstd::prelude::*;

verus! {

/// A non-negative span of time, counted in whole microseconds.
///
/// Timestamps of a journal are durations since the start of the recording.
#[derive(Clone, Copy, Debug, PartialEq, Eq, PartialOrd, Ord, Hash, Structural)]
pub struct Duration {
    pub micros: u128,
}

/// Microseconds in one second.
pub const MICROS_PER_SEC: u128 = 1_000_000;

impl Duration {
    /// The empty span.
    pub fn zero() -> (d: Duration)
        ensures
            d.micros == 0,
    {
        Duration { micros: 0 }
    }

    /// The span of `micros` microseconds.
    pub fn from_micros(micros: u64) -> (d: Duration)
        ensures
            d.micros == micros,
    {
        Duration { micros: micros as u128 }
    }

    /// The span of `secs` seconds.
    pub fn from_secs(secs: u64) -> (d: Duration)
        ensures
            d.micros == secs * MICROS_PER_SEC,
    {
        assert(secs * MICROS_PER_SEC <= u64::MAX * MICROS_PER_SEC) by (nonlinear_arith)
            requires
                secs <= u64::MAX,
        ;
        Duration { micros: (secs as u128) * MICROS_PER_SEC }
    }

    /// The number of whole microseconds in the span.
    pub fn as_micros(&self) -> (micros: u128)
        ensures
            micros == self.micros,
    {
        self.micros
    }

    /// `self - earlier`, or `None` where `earlier` is the longer span.
    pub fn checked_sub(&self, earlier: Duration) -> (diff: Option<Duration>)
        ensures
            match diff {
                Some(d) => self.micros >= earlier.micros && d.micros == self.micros - earlier.micros,
                None => self.micros < earlier.micros,
            },
    {
        if self.micros >= earlier.micros {
            Some(Duration { micros: self.micros - earlier.micros })
        } else {
            None
        }
    }

    /// `self + more`, or `None` where the sum cannot be held.
    pub fn checked_add(&self, more: Duration) -> (sum: Option<Duration>)
        ensures
            match sum {
                Some(d) => d.micros == self.micros + more.micros,
                None => self.micros + more.micros > u128::MAX,
            },
    {
        match self.micros.checked_add(more.micros) {
            Some(micros) => Some(Duration { micros }),
            None => None,
        }
    }
}

} // verus!
