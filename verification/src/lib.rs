//! Finds the best meeting times in a shared availability grid.
//!
//! The grid arrives as two quoted strings: the attendees' names and, for each
//! quarter-hour slot, a record of who marked it. The library turns them into
//! time slots, merges neighbouring slots with the same attendance, picks the
//! slots that suit a list of required people (or, without one, the slots with
//! the most people), and renders the outcome as text.

pub mod text;
pub mod fetch_availability;
pub mod optimal;
pub mod output;
