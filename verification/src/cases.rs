//! The collection of cases: how a fetch fills it, and which of its cases are
//! those of one day.

use crate::date::{CalendarDate, Ymd};
use crate::entry::{entry_views, record_of, Entry, EntryView, RawEntry};
use crate::error::{FetchError, ParseError};
use crate::summary::{summarise, summary_text};
use vstd::prelude::*;
use vstd::string::*;

verus! {

/// The cases selected for a day: the run of cases dated that day in which
/// the collection ends, the last case first.
///
/// The run ends at the first case, counted from the end, that has another
/// date, whatever stands before it. So a day whose cases are not the last of
/// the collection has no case selected, and of a day whose cases stand in
/// two places only those of the last place are selected.
pub open spec fn selected(entries: Seq<EntryView>, date: Ymd) -> Seq<EntryView>
    decreases entries.len(),
{
    if entries.len() > 0 && entries.last().date == date {
        seq![entries.last()] + selected(entries.drop_last(), date)
    } else {
        Seq::empty()
    }
}

/// What a request to the data source came to.
#[derive(Debug)]
pub enum Response {
    /// The request failed on the way, or the source answered with a failure.
    Unreachable,
    /// A body came, and it is not a list of raw records.
    Malformed,
    /// The raw records of the body, in its order.
    Records(Vec<RawEntry>),
}

/// The cases that raw records stand for, in their order, or what is wrong
/// with the first record that cannot be read. One such record spoils them
/// all, whatever the others hold.
pub open spec fn records_of(rows: Seq<RawEntry>) -> Result<Seq<EntryView>, ParseError>
    decreases rows.len(),
{
    if rows.len() == 0 {
        Ok(Seq::empty())
    } else {
        match records_of(rows.drop_last()) {
            Err(e) => Err(e),
            Ok(before) => match record_of(rows.last()) {
                Err(e) => Err(e),
                Ok(entry) => Ok(before.push(entry)),
            },
        }
    }
}

/// The cases that a response brings, or why it brings none.
pub open spec fn fetched(response: Response) -> Result<Seq<EntryView>, FetchError> {
    match response {
        Response::Unreachable => Err(FetchError::Network),
        Response::Malformed => Err(FetchError::Decode),
        Response::Records(rows) => match records_of(rows@) {
            Ok(entries) => Ok(entries),
            Err(e) => Err(FetchError::Parse(e)),
        },
    }
}

/// Once a record cannot be read, the records after it change nothing.
proof fn lemma_bad_record_stays(rows: Seq<RawEntry>, k: int)
    requires
        0 <= k <= rows.len(),
        records_of(rows.take(k)) is Err,
    ensures
        records_of(rows) == records_of(rows.take(k)),
    decreases rows.len() - k,
{
    if k == rows.len() {
        assert(rows.take(k) == rows);
    } else {
        assert(rows.take(k + 1).drop_last() == rows.take(k));
        lemma_bad_record_stays(rows, k + 1);
    }
}

/// Reads raw records into cases: all of them, or none.
pub fn parse_records(rows: &Vec<RawEntry>) -> (res: Result<Vec<Entry>, ParseError>)
    ensures
        match res {
            Ok(entries) => records_of(rows@) == Ok::<Seq<EntryView>, ParseError>(
                entry_views(entries@),
            ),
            Err(e) => records_of(rows@) == Err::<Seq<EntryView>, ParseError>(e),
        },
{
    let mut entries: Vec<Entry> = Vec::new();
    let mut i: usize = 0;
    assert(rows@.take(0) == Seq::<RawEntry>::empty());
    assert(entry_views(entries@) == Seq::<EntryView>::empty());
    while i < rows.len()
        invariant
            i <= rows.len(),
            records_of(rows@.take(i as int)) == Ok::<Seq<EntryView>, ParseError>(
                entry_views(entries@),
            ),
        decreases rows.len() - i,
    {
        let ghost before = entry_views(entries@);
        assert(rows@.take(i + 1).drop_last() == rows@.take(i as int));
        assert(rows@.take(i + 1).last() == rows@[i as int]);
        match Entry::parse(&rows[i]) {
            Ok(entry) => {
                entries.push(entry);
                assert(entry_views(entries@) == before.push(entry@));
            },
            Err(e) => {
                proof {
                    lemma_bad_record_stays(rows@, i + 1);
                }
                return Err(e);
            },
        }
        i += 1;
    }
    assert(rows@.take(i as int) == rows@);
    Ok(entries)
}

/// The cases of a data source, as they were last fetched.
#[derive(Debug)]
pub struct Cases {
    pub url: String,
    pub entries: Vec<Entry>,
}

impl Cases {
    /// A collection for the data source at `url`, empty until the first fetch.
    pub fn new(url: &str) -> (cases: Cases)
        ensures
            cases.url@ == url@,
            cases.entries@ == Seq::<Entry>::empty(),
    {
        Cases { url: String::from_str(url), entries: Vec::new() }
    }

    /// Takes in what a request to the data source came to.
    ///
    /// Where the response brings records and every one of them can be read,
    /// their cases take the place of the collection. In every other case the
    /// fetch fails and the collection stays as it was: the source was not
    /// reached, the body was malformed, or one record cannot be read.
    pub fn fetch(&mut self, response: Response) -> (res: Result<(), FetchError>)
        ensures
            final(self).url == old(self).url,
            match fetched(response) {
                Ok(entries) => res is Ok && entry_views(final(self).entries@) == entries,
                Err(e) => res == Err::<(), FetchError>(e) && final(self).entries == old(
                    self,
                ).entries,
            },
    {
        match response {
            Response::Unreachable => Err(FetchError::Network),
            Response::Malformed => Err(FetchError::Decode),
            Response::Records(rows) => match parse_records(&rows) {
                Ok(entries) => {
                    self.entries = entries;
                    Ok(())
                },
                Err(e) => Err(FetchError::Parse(e)),
            },
        }
    }

    /// The cases selected for `date`, the last of the collection first.
    pub fn date_cases(&self, date: &CalendarDate) -> (res: Vec<Entry>)
        ensures
            entry_views(res@) == selected(entry_views(self.entries@), date@),
    {
        let mut c: Vec<Entry> = Vec::new();
        let mut i: usize = self.entries.len();
        let ghost all = entry_views(self.entries@);
        assert(all.take(i as int) == all);
        while i > 0
            invariant
                i <= self.entries.len(),
                all == entry_views(self.entries@),
                selected(all, date@) == entry_views(c@) + selected(all.take(i as int), date@),
            decreases i,
        {
            let en = &self.entries[i - 1];
            assert(all.take(i as int).last() == en@);
            assert(all.take(i as int).drop_last() == all.take(i - 1));
            if !en.date.same_day(date) {
                return c;
            }
            let ghost before = entry_views(c@);
            c.push(*en);
            assert(entry_views(c@) == before + seq![en@]);
            i -= 1;
        }
        c
    }

    /// The summary of the cases selected for `date`, as the text of a message.
    pub fn show_date_cases(&self, date: &CalendarDate) -> (msg: String)
        ensures
            msg@ == summary_text(date@, selected(entry_views(self.entries@), date@)),
    {
        let date_cases = self.date_cases(date);
        summarise(date, &date_cases)
    }

    /// One run from the response to the message: takes in the response, and
    /// makes the summary for `date` from the cases it brought.
    ///
    /// There is a message to send only where the fetch succeeded. After a
    /// fetch that failed nothing is summarised: not what the collection held
    /// before, and not the records that could be read.
    pub fn report(&mut self, response: Response, date: &CalendarDate) -> (res: Result<
        String,
        FetchError,
    >)
        ensures
            final(self).url == old(self).url,
            match fetched(response) {
                Ok(entries) => {
                    &&& entry_views(final(self).entries@) == entries
                    &&& res matches Ok(msg)
                    &&& msg@ == summary_text(date@, selected(entries, date@))
                },
                Err(e) => {
                    &&& final(self).entries == old(self).entries
                    &&& res matches Err(err)
                    &&& err == e
                },
            },
            response is Unreachable ==> res == Err::<String, FetchError>(FetchError::Network),
            response is Malformed ==> res == Err::<String, FetchError>(FetchError::Decode),
    {
        match self.fetch(response) {
            Ok(()) => Ok(self.show_date_cases(date)),
            Err(e) => Err(e),
        }
    }
}

/// The cases selected for a day are the end of the collection, read
/// backwards: each of them is dated that day, and the case before them, if
/// there is one, is not.
pub proof fn lemma_selected_is_last_run(entries: Seq<EntryView>, date: Ymd)
    ensures
        selected(entries, date).len() <= entries.len(),
        forall|i: int|
            0 <= i < selected(entries, date).len() ==> #[trigger] selected(entries, date)[i]
                == entries[entries.len() - 1 - i] && selected(entries, date)[i].date == date,
        selected(entries, date).len() < entries.len() ==> entries[entries.len() - 1 - selected(
            entries,
            date,
        ).len()].date != date,
    decreases entries.len(),
{
    if entries.len() > 0 && entries.last().date == date {
        lemma_selected_is_last_run(entries.drop_last(), date);
        let rest = selected(entries.drop_last(), date);
        assert forall|i: int| 0 <= i < selected(entries, date).len() implies #[trigger] selected(
            entries,
            date,
        )[i] == entries[entries.len() - 1 - i] && selected(entries, date)[i].date == date by {
            if i > 0 {
                assert(selected(entries, date)[i] == rest[i - 1]);
            }
        }
    }
}

/// A day other than that of the last case has no case selected, wherever in
/// the collection its cases stand.
pub proof fn lemma_selected_stops_at_once(entries: Seq<EntryView>, date: Ymd)
    requires
        entries.len() > 0,
        entries.last().date != date,
    ensures
        selected(entries, date) == Seq::<EntryView>::empty(),
{
}

/// Raw records are read all or not at all: they give cases exactly where
/// every one of them can be read, and then one case for each record, in the
/// order of the records; otherwise they give what is wrong with the first
/// record that cannot be read.
pub proof fn lemma_records_all_or_nothing(rows: Seq<RawEntry>)
    ensures
        records_of(rows) is Ok <==> forall|i: int|
            0 <= i < rows.len() ==> record_of(#[trigger] rows[i]) is Ok,
        records_of(rows) matches Ok(entries) ==> entries.len() == rows.len() && forall|i: int|
            0 <= i < rows.len() ==> record_of(rows[i]) == Ok::<EntryView, ParseError>(
                #[trigger] entries[i],
            ),
        records_of(rows) matches Err(e) ==> exists|i: int|
            0 <= i < rows.len() && record_of(#[trigger] rows[i]) == Err::<EntryView, ParseError>(e)
                && forall|j: int| 0 <= j < i ==> record_of(#[trigger] rows[j]) is Ok,
    decreases rows.len(),
{
    if rows.len() > 0 {
        let front = rows.drop_last();
        lemma_records_all_or_nothing(front);
        match records_of(front) {
            Ok(before) => {
                match record_of(rows.last()) {
                    Ok(entry) => {
                        assert forall|i: int| 0 <= i < rows.len() implies record_of(
                            #[trigger] rows[i],
                        ) is Ok by {
                            if i < front.len() {
                                assert(front[i] == rows[i]);
                            }
                        }
                    },
                    Err(e) => {
                        let i = rows.len() - 1;
                        assert(record_of(rows[i]) == Err::<EntryView, ParseError>(e));
                        assert forall|j: int| 0 <= j < i implies record_of(
                            #[trigger] rows[j],
                        ) is Ok by {
                            assert(front[j] == rows[j]);
                        }
                    },
                }
            },
            Err(e) => {
                let i = choose|i: int|
                    0 <= i < front.len() && record_of(#[trigger] front[i]) == Err::<
                        EntryView,
                        ParseError,
                    >(e) && forall|j: int| 0 <= j < i ==> record_of(#[trigger] front[j]) is Ok;
                assert(front[i] == rows[i]);
                assert forall|j: int| 0 <= j < i implies record_of(#[trigger] rows[j]) is Ok by {
                    assert(front[j] == rows[j]);
                }
            },
        }
    }
}

} // verus!
