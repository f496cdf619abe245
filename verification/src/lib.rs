//! Reads a log that was rotated into several files as one timeline.
//!
//! The work is done in stages, each in a module of its own:
//!
//! - `segments` puts the files of a log in order, oldest first, and leaves
//!   out those that are too old;
//! - `assemble` joins what the files hold into one buffer, unpacking the
//!   compressed ones;
//! - `lines` splits the buffer into lines of text;
//! - `filter` decides which records are shown, given what the queries of the
//!   caller answered for each;
//! - `record`, `render` and `output` read a line as a record and show it.
//!
//! `calendar`, `date_time` and `unformatted_datetime` hold the date-time value
//! and its two written forms, `style` the colours of a terminal, `text` what
//! all of them need of characters and digits, and `built` what the program
//! says of itself.
//!
//! Nothing here touches a file, a clock or the terminal: the caller reads the
//! files and runs the queries, and hands over plain values.

pub mod assemble;
pub mod built;
pub mod calendar;
pub mod date_time;
pub mod filter;
pub mod lines;
pub mod output;
pub mod record;
pub mod render;
pub mod segments;
pub mod style;
pub mod text;
pub mod unformatted_datetime;
