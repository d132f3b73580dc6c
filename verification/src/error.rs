//! Why a record, or a whole fetch, is turned down.

use vstd::prelude::*;

verus! {

/// A field of a raw record that does not hold what its type asks for.
#[derive(Clone, Copy, Debug, PartialEq, Eq, Structural)]
pub enum ParseError {
    /// The case number is not an unsigned base-ten number of 32 bits.
    CaseNumber,
    /// The report date is not a calendar date written `DD/MM/YYYY`.
    ReportDate,
}

/// Why a fetch left the collection as it was.
#[derive(Clone, Copy, Debug, PartialEq, Eq, Structural)]
pub enum FetchError {
    /// The data source could not be reached, or answered with a failure.
    Network,
    /// The body is not a list of records of the expected shape.
    Decode,
    /// A record of the body was turned down.
    Parse(ParseError),
}

} // verus!
