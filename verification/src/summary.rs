//! The summary of a day's cases: their runs by gender, and the text that
//! counts them.

use crate::date::{label_text, CalendarDate, Ymd};
use crate::entry::{entry_views, gender_name, Entry, EntryView, Gender};
use crate::text::{
    all_digits, append_decimal, decimal_text, decimal_value, lemma_decimal_text_reads_back,
};
use vstd::prelude::*;
use vstd::string::*;

verus! {

/// The runs of a sequence of cases: each stretch of neighbours of one gender,
/// with the number of cases in it, in the order in which they stand.
///
/// Only neighbours are counted together. Where cases of one gender stand in
/// two places, with a case of the other gender between them, they make two
/// runs under the same name, and their numbers are not added up.
pub open spec fn gender_runs(entries: Seq<EntryView>) -> Seq<(Gender, nat)>
    decreases entries.len(),
{
    if entries.len() == 0 {
        Seq::empty()
    } else {
        let before = gender_runs(entries.drop_last());
        let gender = entries.last().gender;
        if before.len() > 0 && before.last().0 == gender {
            before.drop_last().push((gender, before.last().1 + 1))
        } else {
            before.push((gender, 1))
        }
    }
}

/// Runs with their lengths as mathematical numbers.
pub open spec fn run_views(runs: Seq<(Gender, usize)>) -> Seq<(Gender, nat)> {
    runs.map_values(|run: (Gender, usize)| (run.0, run.1 as nat))
}

/// The first line of a summary: what is counted, and for which day.
pub open spec fn header_text(date: Ymd) -> Seq<char> {
    "HK Covid-19 cases ("@ + label_text(date) + ")\n"@
}

/// The line of one run: the name of the gender, and the length of the run.
pub open spec fn run_line(run: (Gender, nat)) -> Seq<char> {
    gender_name(run.0) + ":\t"@ + decimal_text(run.1) + "\n"@
}

/// The lines of the runs, one after the other.
pub open spec fn run_lines(runs: Seq<(Gender, nat)>) -> Seq<char>
    decreases runs.len(),
{
    if runs.len() == 0 {
        Seq::empty()
    } else {
        run_lines(runs.drop_last()) + run_line(runs.last())
    }
}

/// The last line of a summary: the number of cases. It ends the text, with
/// no line break after it.
pub open spec fn total_line(count: nat) -> Seq<char> {
    "Total:\t"@ + decimal_text(count)
}

/// The summary of the cases selected for a day: the header, a line for each
/// run of one gender, and the number of all the cases, which is counted from
/// the cases themselves and not added up from the lines above it.
pub open spec fn summary_text(date: Ymd, cases: Seq<EntryView>) -> Seq<char> {
    header_text(date) + run_lines(gender_runs(cases)) + total_line(cases.len())
}

/// No run is longer than the sequence it was taken from.
proof fn lemma_last_run_fits(entries: Seq<EntryView>)
    ensures
        gender_runs(entries).len() > 0 ==> gender_runs(entries).last().1 <= entries.len(),
    decreases entries.len(),
{
    if entries.len() > 0 {
        lemma_last_run_fits(entries.drop_last());
    }
}

/// The runs of `cases`, in their order.
pub fn group_by_gender(cases: &Vec<Entry>) -> (runs: Vec<(Gender, usize)>)
    ensures
        run_views(runs@) == gender_runs(entry_views(cases@)),
{
    let mut runs: Vec<(Gender, usize)> = Vec::new();
    let ghost all = entry_views(cases@);
    let mut i: usize = 0;
    assert(all.take(0) == Seq::<EntryView>::empty());
    while i < cases.len()
        invariant
            i <= cases.len(),
            all == entry_views(cases@),
            run_views(runs@) == gender_runs(all.take(i as int)),
        decreases cases.len() - i,
    {
        let gender: Gender = cases[i].gender;
        let ghost before = run_views(runs@);
        proof {
            assert(all.take(i + 1).drop_last() == all.take(i as int));
            assert(all.take(i + 1).last() == cases[i as int]@);
            lemma_last_run_fits(all.take(i as int));
        }
        let n: usize = runs.len();
        if n > 0 && runs[n - 1].0 == gender {
            let count: usize = runs[n - 1].1;
            assert(before.last() == (gender, count as nat));
            runs.set(n - 1, (gender, count + 1));
            assert(run_views(runs@) == before.drop_last().push((gender, (count + 1) as nat)));
        } else {
            runs.push((gender, 1));
            assert(run_views(runs@) == before.push((gender, 1nat)));
        }
        i += 1;
    }
    assert(all.take(i as int) == all);
    runs
}

/// The summary of `cases` for the day `date`, as the text of a message.
pub fn summarise(date: &CalendarDate, cases: &Vec<Entry>) -> (msg: String)
    ensures
        msg@ == summary_text(date@, entry_views(cases@)),
{
    let runs = group_by_gender(cases);
    let mut msg = String::from_str("HK Covid-19 cases (");
    msg.append(date.label().as_str());
    msg.append(")\n");
    let mut i: usize = 0;
    assert(run_views(runs@).take(0) == Seq::<(Gender, nat)>::empty());
    while i < runs.len()
        invariant
            i <= runs.len(),
            msg@ == header_text(date@) + run_lines(run_views(runs@).take(i as int)),
        decreases runs.len() - i,
    {
        let ghost start = msg@;
        let gender: Gender = runs[i].0;
        let count: usize = runs[i].1;
        msg.append(gender.name());
        msg.append(":\t");
        append_decimal(&mut msg, count);
        msg.append("\n");
        proof {
            let done = run_views(runs@).take(i + 1);
            assert(done.drop_last() == run_views(runs@).take(i as int));
            assert(done.last() == (gender, count as nat));
            assert(msg@ == start + run_line((gender, count as nat)));
        }
        i += 1;
    }
    assert(run_views(runs@).take(i as int) == run_views(runs@));
    msg.append("Total:\t");
    append_decimal(&mut msg, cases.len());
    msg
}

/// The genders that runs stand for: each run written out case by case.
pub open spec fn spelled_out(runs: Seq<(Gender, nat)>) -> Seq<Gender>
    decreases runs.len(),
{
    if runs.len() == 0 {
        Seq::empty()
    } else {
        spelled_out(runs.drop_last()) + Seq::new(runs.last().1, |i: int| runs.last().0)
    }
}

/// The runs of a sequence of cases are its run-length encoding: written out,
/// they give the genders of the cases in their order; no run is empty; and
/// two runs that follow each other are of different genders.
pub proof fn lemma_runs_encode_genders(cases: Seq<EntryView>)
    ensures
        spelled_out(gender_runs(cases)) == cases.map_values(|e: EntryView| e.gender),
        forall|i: int| 0 <= i < gender_runs(cases).len() ==> (#[trigger] gender_runs(cases)[i]).1 >= 1,
        forall|i: int|
            0 < i < gender_runs(cases).len() ==> gender_runs(cases)[i - 1].0 != (
            #[trigger] gender_runs(cases)[i]).0,
    decreases cases.len(),
{
    let genders = cases.map_values(|e: EntryView| e.gender);
    if cases.len() == 0 {
        assert(spelled_out(gender_runs(cases)) == genders);
    } else {
        lemma_runs_encode_genders(cases.drop_last());
        let before = gender_runs(cases.drop_last());
        let gender = cases.last().gender;
        let runs = gender_runs(cases);
        let genders_before = cases.drop_last().map_values(|e: EntryView| e.gender);
        assert(genders == genders_before.push(gender));
        if before.len() > 0 && before.last().0 == gender {
            let count = before.last().1;
            assert(runs.drop_last() == before.drop_last());
            assert(Seq::new((count + 1) as nat, |i: int| gender) == Seq::new(
                count,
                |i: int| gender,
            ).push(gender));
            assert(spelled_out(runs) == spelled_out(before).push(gender));
        } else {
            assert(runs.drop_last() == before);
            assert(Seq::new(1nat, |i: int| gender) == seq![gender]);
            assert(spelled_out(runs) == spelled_out(before).push(gender));
        }
    }
}

/// The number of cases in runs: the sum of their lengths.
pub open spec fn cases_in(runs: Seq<(Gender, nat)>) -> nat
    decreases runs.len(),
{
    if runs.len() == 0 {
        0
    } else {
        cases_in(runs.drop_last()) + runs.last().1
    }
}

/// The runs count every case once: their lengths add up to the number of
/// the cases, also where one gender has several runs.
pub proof fn lemma_runs_count_every_case(cases: Seq<EntryView>)
    ensures
        cases_in(gender_runs(cases)) == cases.len(),
    decreases cases.len(),
{
    if cases.len() > 0 {
        lemma_runs_count_every_case(cases.drop_last());
        let before = gender_runs(cases.drop_last());
        let runs = gender_runs(cases);
        if before.len() > 0 && before.last().0 == cases.last().gender {
            assert(runs.drop_last() == before.drop_last());
        } else {
            assert(runs.drop_last() == before);
        }
    }
}

/// The lines of the runs are empty or end with a line break.
proof fn lemma_run_lines_end_with_break(runs: Seq<(Gender, nat)>)
    ensures
        runs.len() > 0 ==> run_lines(runs).len() > 0 && run_lines(runs).last() == '\n',
{
    reveal_strlit("\n");
}

/// A summary ends with its total, on a line of its own: the text above it
/// ends with a line break, the total line holds none, and the digits that
/// follow `Total:` and the tabulator spell the number of the cases that were
/// summarised, however many lines the runs took above it.
pub proof fn lemma_summary_ends_with_total(date: Ymd, cases: Seq<EntryView>)
    ensures
        summary_text(date, cases) == (header_text(date) + run_lines(gender_runs(cases)))
            + total_line(cases.len()),
        (header_text(date) + run_lines(gender_runs(cases))).last() == '\n',
        !total_line(cases.len()).contains('\n'),
        total_line(cases.len()) == "Total:\t"@ + decimal_text(cases.len()),
        all_digits(decimal_text(cases.len())),
        decimal_value(decimal_text(cases.len())) == cases.len(),
{
    reveal_strlit(")\n");
    reveal_strlit("Total:\t");
    lemma_run_lines_end_with_break(gender_runs(cases));
    lemma_decimal_text_reads_back(cases.len());
    let total = total_line(cases.len());
    let digits = decimal_text(cases.len());
    assert forall|i: int| 0 <= i < total.len() implies total[i] != '\n' by {
        if i >= 7 {
            assert(total[i] == digits[i - 7]);
        }
    }
}

} // verus!
