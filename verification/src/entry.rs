//! Case records: what the data source sends for one case, and what is kept
//! of it.

use crate::date::{lemma_date_is_its_numbers, report_date, string_to_date, CalendarDate, Ymd};
use crate::error::ParseError;
use crate::text::{from_str, numeral_u32};
use vstd::prelude::*;
use vstd::string::*;

verus! {

/// The gender recorded for a case.
#[derive(Clone, Copy, Debug, PartialEq, Eq, Structural)]
pub enum Gender {
    Male,
    Female,
}

/// The gender that a code stands for: the code `M` alone is male. Every
/// other code is read as female: the empty code, `m`, `F`, a name, a typing
/// error. No code is turned down.
pub open spec fn gender_of(code: Seq<char>) -> Gender {
    if code == seq!['M'] {
        Gender::Male
    } else {
        Gender::Female
    }
}

/// The name under which a summary counts a gender.
pub open spec fn gender_name(gender: Gender) -> Seq<char> {
    match gender {
        Gender::Male => seq!['M', 'a', 'l', 'e'],
        Gender::Female => seq!['F', 'e', 'm', 'a', 'l', 'e'],
    }
}

/// Reads a gender code. The reading loses what the code was: whatever is not
/// `M` comes out as female.
pub fn gender_from_str(s: &str) -> (gender: Gender)
    ensures
        gender == gender_of(s@),
{
    if s.unicode_len() == 1 && s.get_char(0) == 'M' {
        assert(s@ =~= seq!['M']);
        Gender::Male
    } else {
        Gender::Female
    }
}

impl Gender {
    /// The name under which a summary counts this gender.
    pub fn name(&self) -> (res: &'static str)
        ensures
            res@ == gender_name(*self),
    {
        proof {
            reveal_strlit("Male");
            reveal_strlit("Female");
        }
        match self {
            Gender::Male => "Male",
            Gender::Female => "Female",
        }
    }
}

/// One case as the data source sends it: the case number and the report date
/// still as text, the gender as a code.
#[derive(Debug)]
pub struct RawEntry {
    pub case_no: String,
    pub age: u32,
    pub gender: String,
    pub report_date: String,
}

/// One case.
#[derive(Clone, Copy, Debug, PartialEq, Eq, Structural)]
pub struct Entry {
    pub case_no: u32,
    pub age: u32,
    pub gender: Gender,
    pub date: CalendarDate,
}

/// A case with its date as plain numbers.
pub struct EntryView {
    pub case_no: u32,
    pub age: u32,
    pub gender: Gender,
    pub date: Ymd,
}

impl View for Entry {
    type V = EntryView;

    open spec fn view(&self) -> EntryView {
        EntryView { case_no: self.case_no, age: self.age, gender: self.gender, date: self.date@ }
    }
}

/// The cases of a sequence, each with its date as plain numbers.
pub open spec fn entry_views(entries: Seq<Entry>) -> Seq<EntryView> {
    entries.map_values(|e: Entry| e@)
}

/// A case is what its view shows: two cases with the same view are the same
/// case.
pub proof fn lemma_entry_is_its_view(a: Entry, b: Entry)
    ensures
        a@ == b@ <==> a == b,
{
    lemma_date_is_its_numbers(a.date, b.date);
}

/// The case that a raw record stands for, or the first of its fields that
/// cannot be read: the case number is looked at before the report date. The
/// age is taken as it is, and the gender code is never at fault.
pub open spec fn record_of(raw: RawEntry) -> Result<EntryView, ParseError> {
    match numeral_u32(raw.case_no@) {
        None => Err(ParseError::CaseNumber),
        Some(case_no) => match report_date(raw.report_date@) {
            None => Err(ParseError::ReportDate),
            Some(date) => Ok(
                EntryView { case_no, age: raw.age, gender: gender_of(raw.gender@), date },
            ),
        },
    }
}

impl Entry {
    /// Reads one raw record. The record is read whole or not at all.
    pub fn parse(raw: &RawEntry) -> (res: Result<Entry, ParseError>)
        ensures
            match res {
                Ok(entry) => record_of(*raw) == Ok::<EntryView, ParseError>(entry@),
                Err(e) => record_of(*raw) == Err::<EntryView, ParseError>(e),
            },
    {
        let case_no: u32 = match from_str(raw.case_no.as_str()) {
            Some(n) => n,
            None => {
                return Err(ParseError::CaseNumber);
            },
        };
        let date = match string_to_date(raw.report_date.as_str()) {
            Ok(date) => date,
            Err(e) => {
                return Err(e);
            },
        };
        Ok(Entry { case_no, age: raw.age, gender: gender_from_str(raw.gender.as_str()), date })
    }
}

} // verus!
