//! Reading a time-tracking database: intervals of time, the entries that
//! carry them, and the ordered collection built from the database's files.

pub mod calendar;
pub mod clock;
pub mod data;
pub mod editor;
pub mod entry;
pub mod error;
pub mod parser;
pub mod range;
pub mod text;
pub mod time;
pub mod work;
