//! The ways in which building or reading an interval can fail.

use vstd::prelude::*;

verus! {

/// Why a value was refused although its text, if it had one, was well
/// formed.
#[derive(Clone, Copy, Debug, PartialEq, Eq, Structural, Hash)]
pub enum Invalid {
    /// The interval would end less than one second after it begins.
    TooShort,
    /// An open interval was read whose beginning is not yet one second in
    /// the past.
    NotBegun,
    /// A wall-clock time of the local calendar has no single moment in UTC:
    /// the clocks skipped it or showed it twice.
    LocalTime,
    /// A date or a moment lies outside the span that the library handles.
    OutOfRange,
}

/// An error of the library.
#[derive(Debug, PartialEq, Eq)]
pub enum Error {
    /// A value breaks a rule of the type it was meant for.
    Validation(Invalid),
    /// A text does not follow the grammar. `text` is the text that was
    /// refused, `file` the name of the database file it stood in, if any.
    Parse { file: Option<String>, text: String },
    /// The operation is not available.
    Unsupported,
}

impl Error {
    /// Whether the error is a parse error that names `text`, and `file`
    /// where one is given.
    pub open spec fn is_parse_of(self, file: Option<Seq<char>>, text: Seq<char>) -> bool {
        match self {
            Error::Parse { file: f, text: t } => {
                &&& t@ == text
                &&& match file {
                    Some(name) => f matches Some(n) && n@ == name,
                    None => f is None,
                }
            },
            _ => false,
        }
    }

    /// A parse error for `text`, which stood in no file.
    pub fn parse(text: &str) -> (e: Error)
        ensures
            e.is_parse_of(None, text@),
    {
        Error::Parse { file: None, text: text.to_owned() }
    }

    /// A parse error for the line `text` of the file `file`.
    pub fn parse_in(file: &str, text: &str) -> (e: Error)
        ensures
            e.is_parse_of(Some(file@), text@),
    {
        Error::Parse { file: Some(file.to_owned()), text: text.to_owned() }
    }
}

} // verus!
