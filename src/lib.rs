//! A daily task and time tracker: a per-item status state machine with an
//! append-only transition history from which elapsed time is derived, a
//! human-readable daily file format, day rollover, and global life modes.

use vstd::prelude::*;

/// The day's lists, selection and undo stack.
pub mod board;
/// Timestamps, and the calendar text of them.
pub mod clock;
/// The daily file format: writing and reading records.
pub mod codec;
/// Durations written as decimal hours.
pub mod hours;
/// Items, their time tracking and their status transitions.
pub mod item;
/// The older three-file layout and its import.
pub mod legacy;
/// What is loaded at startup, and the day rollover.
pub mod migration;
/// Global modes and the items they pause.
pub mod modes;
/// Status, schedule and mode enumerations.
pub mod status;
/// Text helpers over characters.
pub mod text;
/// Derived views: flattened rows, totals, badges and paths.
pub mod views;

verus! {
}
