//! Core of a persistent countdown timer for a command-line tool: the timer
//! state record with its time arithmetic, and the human-facing duration
//! parsing and formatting.
//!
//! The surrounding binary is expected to load the record, mutate it through
//! the state-transition operations, render times with the codec, and write
//! the record back; file handling itself lives outside this crate.

pub mod text;
pub mod timer_info;
pub mod utils;
