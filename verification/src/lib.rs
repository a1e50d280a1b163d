//! A journal entry as plain text: a label, observations, tasks, events and
//! notes in one small format that people edit by hand.
//!
//! `grammar` says what the format is, `entry` holds an entry in memory and
//! writes it, `parser` reads one, and `laws` proves that what is written is
//! read back. `timestamp` is the time of an event, `tasks` the order and
//! the numbering of tasks, `files` the way from the bytes of a file to an
//! entry, `salvage` what of any text can stand in an entry, and `text` the
//! searches in character sequences that all of them are written in.

pub mod entry;
pub mod files;
pub mod grammar;
pub mod laws;
pub mod parser;
pub mod salvage;
pub mod tasks;
pub mod text;
pub mod timestamp;
