//! Converts a clock time between two UTC offsets and reports whether the
//! result falls on the previous, the same or the next day.
pub mod convert;
pub mod digits;
pub mod format;
pub mod offset;
pub mod time;

pub use convert::{convert, Config, Day, Output};
pub use offset::{parse_offset, Offset};
pub use time::{Argument, ParseError, Time};
