//! The ways in which the library's operations fail.
use vstd::prelude::*;

verus! {

/// An error of the task-list manager.
#[derive(Debug)]
pub enum Error {
    /// The bookkeeping log's length is not a whole number of records
    InvalidBookkeepingFile,
    /// The last record of the bookkeeping log is not a date line
    MalformedLogRecord,
    /// A date could not be read
    Chrono(chrono::format::ParseError),
    /// A date whose year has more than four digits cannot name a file
    DateOutOfRange,
}

} // verus!
