//! Daily COVID-19 case summaries.
//!
//! The data source sends one raw record for each case. A record is read into
//! a typed [`Entry`] or turned down ([`entry`]); a fetch fills the collection
//! with the cases of all its records or leaves it as it was ([`cases`]). The
//! cases of one day are the run of cases of that date in which the collection
//! ends, and their summary counts them run by run, by gender, under a header
//! that names the day and above their total ([`summary`]).
//!
//! The request to the data source and the sending of the summary are left to
//! the program that uses this library: it hands over what the request came
//! to, as a [`Response`], and takes back the text to send.

pub mod cases;
pub mod date;
pub mod entry;
pub mod error;
pub mod summary;
pub mod text;

pub use cases::{Cases, Response};
pub use date::CalendarDate;
pub use entry::{Entry, Gender, RawEntry};
pub use error::{FetchError, ParseError};
