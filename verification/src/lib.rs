//! A time tracker for the working day.
//!
//! The day is written down as a plain-text log with one line for each
//! event: an activity begins, the activity that is going on turns out to
//! have been another one, or to have begun at another time. The library
//! reads such lines (`log_parser`), folds them into the summary of the day
//! (`collector`), and spreads the time of activities that are not shown by
//! themselves over the others (`distribution`). What the commands of the
//! program compute beyond that is in `subcommands`.
//!
//! Contracts are stated over what the values hold: texts as sequences of
//! characters (`text`), times as seconds since midnight and durations as
//! seconds (`time`), and maps from names to values (`name_map`).

pub mod collector;
pub mod configfile;
pub mod distribution;
pub mod error;
pub mod log_parser;
pub mod name_map;
pub mod subcommands;
pub mod text;
pub mod time;
pub mod utils;
