//! The failures that the library reports.
use vstd::prelude::*;

verus! {

/// Why a record, or a file of records, could not be turned into films.
///
/// The first four kinds are about the text of one record; the others are
/// met by programs that read and write files of records.
#[derive(Debug, Clone, PartialEq, Eq)]
pub enum FilmParserError {
    /// The record is empty or holds only spaces.
    EmptyInput,
    /// The record does not follow the record grammar: a field out of order,
    /// repeated or with an unknown label, or a list without brackets.
    SyntaxError,
    /// The year is present but is not a run of digits that fits in a `u32`.
    InvalidYear,
    /// The record is well formed but a field is absent or empty, or the year
    /// is zero.
    MissingFields,
    /// The named file does not exist.
    NoFileFound(String),
    /// The named file could not be read.
    FileReadingError(String),
    /// The named file could not be opened.
    FileOpeningError(String),
    /// The named file could not be created.
    FileCreatingError(String),
    /// The named file could not be written.
    FileWritingError(String),
}

} // verus!
