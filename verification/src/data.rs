//! The values that are fetched from the database, under one roof.

pub use crate::entry::TimeEntry;
pub use crate::range::Range;
pub use crate::work::Work;
