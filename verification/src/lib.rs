//! Recording, replaying and timing of interactive terminal sessions.
//!
//! A child program runs under a pseudo-terminal. What it prints is written
//! into a journal with the time of each read, and a script of keystrokes
//! can be played against it in step with what it has printed. The journal
//! can be replayed at its own pace or one event at a time, and the time
//! from an event to the screen that answers it can be measured.
//!
//! This crate holds the rules of all that, on plain values: the journal and
//! its file formats, the input simulation, the timing of a replay and the
//! measurement. Reading files, driving the terminal, sleeping and reading
//! the clock are left to the caller.
//!
//! - [`duration`], [`event`]: timestamps, and the events of journals and
//!   scripts.
//! - [`file_format`], [`records`], [`fields`], [`decimal`], [`script`],
//!   [`writer`], [`asciinema`]: reading and writing files. [`roundtrip`]
//!   shows that what is written is read back unchanged.
//! - [`recorder`], [`simulator`], [`merge`]: making a recording.
//! - [`replay`]: replaying one.
//! - [`window`], [`measure`], [`search`]: measuring.
//! - [`error`]: the kinds of error.

pub mod asciinema;
pub mod decimal;
pub mod duration;
pub mod error;
pub mod event;
pub mod fields;
pub mod file_format;
pub mod measure;
pub mod merge;
pub mod recorder;
pub mod records;
pub mod replay;
pub mod roundtrip;
pub mod script;
pub mod search;
pub mod simulator;
pub mod window;
pub mod writer;
