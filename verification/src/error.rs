//! The kinds of error that the library tells apart.

use crate::file_format::{EventArgError, FormatError};
use crate::measure::MeasureError;
use crate::replay::PlaybackError;
use vstd::prelude::*;

verus! {

/// What went wrong, in broad terms.
#[derive(Clone, Copy, Debug, PartialEq, Eq, Structural)]
pub enum ErrorKind {
    /// A journal or a script is not what its format asks for: a bad tag, a
    /// bad length, an early end or a number out of range.
    MalformedJournal,
    /// An input script was given where a recording is needed, or a
    /// recording where an input script is.
    WrongFileKind,
    /// A file could not be read.
    Io,
    /// A replay ran too late, or a timestamp is too large to be written.
    Timing,
    /// An event or a frame that was looked for is not there.
    NotFound,
    /// What was found cannot be: a frame shows the answer to an event
    /// before the event.
    LogicViolation,
    /// An argument was given in a form that cannot be used.
    Config,
}

/// The kind of an error of reading or writing a file.
pub open spec fn format_error_kind(error: FormatError) -> ErrorKind {
    match error {
        FormatError::WrongFileKind => ErrorKind::WrongFileKind,
        FormatError::TimestampTooLarge { .. } => ErrorKind::Timing,
        _ => ErrorKind::MalformedJournal,
    }
}

/// The kind of an error of a measurement.
pub open spec fn measure_error_kind(error: MeasureError) -> ErrorKind {
    match error {
        MeasureError::FrameUnreadable { .. } => ErrorKind::Io,
        MeasureError::TargetBeforeEvent { .. } => ErrorKind::LogicViolation,
        _ => ErrorKind::NotFound,
    }
}

impl FormatError {
    /// The kind of the error. A timestamp that is too large is a matter of
    /// timing and the wrong kind of file is a kind of its own; all else is
    /// a malformed journal.
    pub fn kind(&self) -> (kind: ErrorKind)
        ensures
            kind == format_error_kind(*self),
    {
        match self {
            FormatError::WrongFileKind => ErrorKind::WrongFileKind,
            FormatError::TimestampTooLarge { .. } => ErrorKind::Timing,
            _ => ErrorKind::MalformedJournal,
        }
    }
}

impl MeasureError {
    /// The kind of the error. A frame that cannot be read is an error of
    /// input and output and a target before its event a violation of logic;
    /// all else is something not found.
    pub fn kind(&self) -> (kind: ErrorKind)
        ensures
            kind == measure_error_kind(*self),
    {
        match self {
            MeasureError::FrameUnreadable { .. } => ErrorKind::Io,
            MeasureError::TargetBeforeEvent { .. } => ErrorKind::LogicViolation,
            _ => ErrorKind::NotFound,
        }
    }
}

impl PlaybackError {
    /// The kind of the error, which is one of timing.
    pub fn kind(&self) -> (kind: ErrorKind)
        ensures
            kind == ErrorKind::Timing,
    {
        ErrorKind::Timing
    }
}

impl EventArgError {
    /// The kind of the error, which is one of configuration.
    pub fn kind(&self) -> (kind: ErrorKind)
        ensures
            kind == ErrorKind::Config,
    {
        ErrorKind::Config
    }
}

} // verus!
