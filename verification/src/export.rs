//! Results as comma-separated values.
use vstd::prelude::*;
use crate::checkpoint::{CheckpointState, DomainStatus, WordResult};
use crate::checkpoint::{ResultsView, WordResultView};
use crate::text::{same_text, to_lowercase};
use crate::text::lowercase;

verus! {

/// Which results are exported.
#[derive(Debug, Clone, Copy, PartialEq, Eq, Structural)]
pub enum ExportFilter {
    All,
    Available,
    Taken,
    Error,
}

/// A text that names no filter.
#[derive(Debug)]
pub struct FilterError {
    pub given: String,
}

impl FilterError {
    /// The message for the user.
    pub open spec fn text(self) -> Seq<char> {
        "Invalid filter: "@ + self.given@ + ". Use: all, available, taken, error"@
    }

    /// The message for the user.
    pub fn message(&self) -> (r: String)
        ensures
            r@ == self.text(),
    {
        "Invalid filter: ".to_owned().concat(self.given.as_str()).concat(
            ". Use: all, available, taken, error",
        )
    }
}

/// The filter that a text names, in capitals or not.
pub open spec fn filter_named(s: Seq<char>) -> Option<ExportFilter> {
    let name = lowercase(s);
    if name == "all"@ {
        Some(ExportFilter::All)
    } else if name == "available"@ {
        Some(ExportFilter::Available)
    } else if name == "taken"@ {
        Some(ExportFilter::Taken)
    } else if name == "error"@ {
        Some(ExportFilter::Error)
    } else {
        None
    }
}

impl ExportFilter {
    /// The filter that `s` names, in capitals or not.
    pub fn from_str(s: &str) -> (r: Result<ExportFilter, FilterError>)
        ensures
            r is Ok <==> filter_named(s@) is Some,
            r matches Ok(f) ==> filter_named(s@) == Some(f),
            r matches Err(e) ==> e.given@ == s@,
    {
        let name = to_lowercase(s);
        if same_text(name.as_str(), "all") {
            Ok(ExportFilter::All)
        } else if same_text(name.as_str(), "available") {
            Ok(ExportFilter::Available)
        } else if same_text(name.as_str(), "taken") {
            Ok(ExportFilter::Taken)
        } else if same_text(name.as_str(), "error") {
            Ok(ExportFilter::Error)
        } else {
            Err(FilterError { given: s.to_owned() })
        }
    }

    /// A status passes the filter.
    pub open spec fn passes(self, status: Option<DomainStatus>) -> bool {
        match self {
            ExportFilter::All => true,
            ExportFilter::Available => status == Some(DomainStatus::Available),
            ExportFilter::Taken => status == Some(DomainStatus::Taken),
            ExportFilter::Error => status == Some(DomainStatus::Error),
        }
    }

    /// Whether a status passes the filter.
    pub fn matches(&self, status: Option<DomainStatus>) -> (r: bool)
        ensures
            r == self.passes(status),
    {
        match (*self, status) {
            (ExportFilter::All, _) => true,
            (ExportFilter::Available, Some(DomainStatus::Available)) => true,
            (ExportFilter::Taken, Some(DomainStatus::Taken)) => true,
            (ExportFilter::Error, Some(DomainStatus::Error)) => true,
            _ => false,
        }
    }

    /// A result is exported if its status under `.eth` or under `.box` passes.
    pub open spec fn keeps(self, result: WordResultView) -> bool {
        self.passes(result.eth_status) || self.passes(result.box_status)
    }
}

/// The names of the columns.
pub const CSV_HEADER: &'static str = "word,eth_domain,eth_status,box_domain,box_status\n";

/// A status in a word.
pub open spec fn status_word(status: Option<DomainStatus>) -> Seq<char> {
    match status {
        Some(s) => s.text(),
        None => "pending"@,
    }
}

/// A status in a word.
fn status_name(status: Option<DomainStatus>) -> (r: &'static str)
    ensures
        r@ == status_word(status),
{
    match status {
        Some(s) => s.as_str(),
        None => "pending",
    }
}

/// The line for a word.
pub open spec fn csv_row(word: Seq<char>, result: WordResultView) -> Seq<char> {
    word + ","@ + word + ".eth,"@ + status_word(result.eth_status) + ","@ + word + ".box,"@
        + status_word(result.box_status) + "\n"@
}

/// The line for a word.
fn csv_line(word: &str, result: &WordResult) -> (r: String)
    ensures
        r@ == csv_row(word@, result@),
{
    word.to_owned().concat(",").concat(word).concat(".eth,").concat(
        status_name(result.eth_status),
    ).concat(",").concat(word).concat(".box,").concat(status_name(result.box_status)).concat("\n")
}

/// The results that are exported, in order.
pub open spec fn kept(results: ResultsView, filter: ExportFilter) -> ResultsView
    decreases results.len(),
{
    if results.len() == 0 {
        Seq::empty()
    } else if filter.keeps(results.last().1) {
        kept(results.drop_last(), filter).push(results.last())
    } else {
        kept(results.drop_last(), filter)
    }
}

/// The lines for results, one below the other.
pub open spec fn csv_rows(results: ResultsView) -> Seq<char>
    decreases results.len(),
{
    if results.len() == 0 {
        Seq::empty()
    } else {
        csv_rows(results.drop_last()) + csv_row(results.last().0, results.last().1)
    }
}

/// What is written to the export file.
#[derive(Debug)]
pub struct Export {
    pub text: String,
    /// How many results it holds.
    pub count: usize,
}

/// The results that pass the filter, as comma-separated values. They stand in
/// the order in which their words were first recorded.
pub fn export_results(state: &CheckpointState, filter: ExportFilter) -> (r: Export)
    requires
        state.wf(),
    ensures
        r.text@ == CSV_HEADER@ + csv_rows(kept(state@.results, filter)),
        r.count == kept(state@.results, filter).len(),
{
    let ghost results = state.results@;
    let mut text = CSV_HEADER.to_owned();
    let mut count: usize = 0;
    let n: usize = state.results.len();
    let mut i: usize = 0;
    assert(results.take(0) =~= Seq::empty());
    assert(text@ =~= CSV_HEADER@ + csv_rows(kept(results.take(0), filter)));
    while i < n
        invariant
            i <= n,
            n == results.len(),
            results == state.results@,
            count == kept(results.take(i as int), filter).len(),
            count <= i,
            text@ == CSV_HEADER@ + csv_rows(kept(results.take(i as int), filter)),
        decreases n - i,
    {
        let word = state.results.word_at(i);
        let result = state.results.value_at(i);
        let ghost before = kept(results.take(i as int), filter);
        proof {
            assert(results.take(i + 1).drop_last() =~= results.take(i as int));
            assert(results.take(i + 1).last() == (word@, result@));
        }
        if filter.matches(result.eth_status) || filter.matches(result.box_status) {
            let line = csv_line(word, result);
            text.append(line.as_str());
            count = count + 1;
            assert(before.push((word@, result@)).drop_last() =~= before);
            assert(text@ =~= CSV_HEADER@ + csv_rows(before.push((word@, result@))));
        }
        i = i + 1;
    }
    assert(results.take(i as int) =~= results);
    Export { text, count }
}

/// Without a filter every result is exported.
pub proof fn all_are_exported(results: ResultsView)
    ensures
        kept(results, ExportFilter::All) == results,
    decreases results.len(),
{
    if results.len() > 0 {
        all_are_exported(results.drop_last());
        assert(results.drop_last().push(results.last()) =~= results);
    } else {
        assert(results =~= Seq::empty());
    }
}

/// A result is exported exactly if it is there and passes the filter.
pub proof fn exported_iff_kept(
    results: ResultsView,
    filter: ExportFilter,
    entry: (Seq<char>, WordResultView),
)
    ensures
        kept(results, filter).contains(entry) <==> results.contains(entry) && filter.keeps(entry.1),
    decreases results.len(),
{
    if results.len() > 0 {
        let before = results.drop_last();
        exported_iff_kept(before, filter, entry);
        let k = kept(results, filter);
        let kb = kept(before, filter);
        if results.contains(entry) && filter.keeps(entry.1) {
            let i = choose|i: int| 0 <= i < results.len() && results[i] == entry;
            if i < before.len() {
                assert(before[i] == entry);
                let j = choose|j: int| 0 <= j < kb.len() && kb[j] == entry;
                assert(k[j] == entry);
            } else {
                assert(k[k.len() - 1] == entry);
            }
        }
        if k.contains(entry) {
            let j = choose|j: int| 0 <= j < k.len() && k[j] == entry;
            if j < kb.len() {
                assert(kb[j] == entry);
                let i = choose|i: int| 0 <= i < before.len() && before[i] == entry;
                assert(results[i] == entry);
            } else {
                assert(results[results.len() - 1] == entry);
            }
        }
    }
}

/// Results are exported one by one and in order. The filter for all leaves none
/// out; any other keeps a result exactly if the word has the status that the filter
/// names under `.eth` or under `.box`, whatever it has under the other.
pub proof fn exported_one_by_one(
    a: ResultsView,
    b: ResultsView,
    word: Seq<char>,
    result: WordResultView,
    filter: ExportFilter,
)
    ensures
        kept(a + b, filter) == kept(a, filter) + kept(b, filter),
        csv_rows(a + b) == csv_rows(a) + csv_rows(b),
        csv_rows(Seq::empty()) == Seq::<char>::empty(),
        csv_rows(seq![(word, result)]) == csv_row(word, result),
        kept(seq![(word, result)], filter) == if {
            ||| filter == ExportFilter::All
            ||| filter == ExportFilter::Available && (result.eth_status == Some(
                DomainStatus::Available,
            ) || result.box_status == Some(DomainStatus::Available))
            ||| filter == ExportFilter::Taken && (result.eth_status == Some(DomainStatus::Taken)
                || result.box_status == Some(DomainStatus::Taken))
            ||| filter == ExportFilter::Error && (result.eth_status == Some(DomainStatus::Error)
                || result.box_status == Some(DomainStatus::Error))
        } {
            seq![(word, result)]
        } else {
            Seq::empty()
        },
    decreases b.len(),
{
    let one = seq![(word, result)];
    assert(one.drop_last() =~= Seq::empty());
    assert(kept(one.drop_last(), filter) =~= Seq::empty());
    assert(csv_rows(one.drop_last()) =~= Seq::<char>::empty());
    assert(csv_rows(one) =~= csv_row(word, result));
    assert(kept(one, filter) =~= if filter.keeps(result) {
        one
    } else {
        Seq::empty()
    });
    if b.len() == 0 {
        assert(a + b =~= a);
        assert(kept(a, filter) + kept(b, filter) =~= kept(a, filter));
        assert(csv_rows(a) + csv_rows(b) =~= csv_rows(a));
    } else {
        exported_one_by_one(a, b.drop_last(), word, result, filter);
        assert((a + b).drop_last() =~= a + b.drop_last());
        assert((a + b).last() == b.last());
        assert(kept(a + b, filter) =~= kept(a, filter) + kept(b, filter));
        assert(csv_rows(a + b) =~= csv_rows(a) + csv_rows(b));
    }
}

/// An entry of the results is exported under a filter other than the one for all
/// exactly if one of its two statuses, under `.eth` or under `.box`, is the one that
/// the filter names.
pub proof fn exported_by_status(
    results: ResultsView,
    entry: (Seq<char>, WordResultView),
    status: DomainStatus,
)
    requires
        results.contains(entry),
    ensures
        kept(results, ExportFilter::All).contains(entry),
        kept(results, ExportFilter::Available).contains(entry) <==> entry.1.eth_status == Some(
            DomainStatus::Available,
        ) || entry.1.box_status == Some(DomainStatus::Available),
        kept(results, ExportFilter::Taken).contains(entry) <==> entry.1.eth_status == Some(
            DomainStatus::Taken,
        ) || entry.1.box_status == Some(DomainStatus::Taken),
        kept(results, ExportFilter::Error).contains(entry) <==> entry.1.eth_status == Some(
            DomainStatus::Error,
        ) || entry.1.box_status == Some(DomainStatus::Error),
        ExportFilter::All.passes(Some(status)) && ExportFilter::All.passes(None),
        ExportFilter::Available.passes(Some(status)) <==> status == DomainStatus::Available,
        ExportFilter::Taken.passes(Some(status)) <==> status == DomainStatus::Taken,
        ExportFilter::Error.passes(Some(status)) <==> status == DomainStatus::Error,
        !ExportFilter::Available.passes(None) && !ExportFilter::Taken.passes(None)
            && !ExportFilter::Error.passes(None),
{
    exported_iff_kept(results, ExportFilter::All, entry);
    exported_iff_kept(results, ExportFilter::Available, entry);
    exported_iff_kept(results, ExportFilter::Taken, entry);
    exported_iff_kept(results, ExportFilter::Error, entry);
}

/// A line of the export holds the word, its name and its status under `.eth`, and
/// its name and its status under `.box`, with a comma between each two and a line
/// feed behind them. A word without a status is pending.
pub proof fn lines_of_the_export(word: Seq<char>, result: WordResultView, given: FilterError)
    ensures
        csv_row(word, result) == word + ","@ + word + ".eth,"@ + (match result.eth_status {
            Some(DomainStatus::Available) => "available"@,
            Some(DomainStatus::Taken) => "taken"@,
            Some(DomainStatus::Error) => "error"@,
            None => "pending"@,
        }) + ","@ + word + ".box,"@ + (match result.box_status {
            Some(DomainStatus::Available) => "available"@,
            Some(DomainStatus::Taken) => "taken"@,
            Some(DomainStatus::Error) => "error"@,
            None => "pending"@,
        }) + "\n"@,
        CSV_HEADER@ == "word,eth_domain,eth_status,box_domain,box_status\n"@,
        given.text() == "Invalid filter: "@ + given.given@
            + ". Use: all, available, taken, error"@,
{
}

/// A filter is named by its own name and by no other, in capitals or not: what a
/// text names depends on its lower-case form alone.
pub proof fn names_of_filters(s: Seq<char>, t: Seq<char>)
    ensures
        filter_named(s) == Some(ExportFilter::All) <==> lowercase(s) == "all"@,
        filter_named(s) == Some(ExportFilter::Available) <==> lowercase(s) == "available"@,
        filter_named(s) == Some(ExportFilter::Taken) <==> lowercase(s) == "taken"@,
        filter_named(s) == Some(ExportFilter::Error) <==> lowercase(s) == "error"@,
        lowercase(s) == lowercase(t) ==> filter_named(s) == filter_named(t),
{
    reveal_strlit("all");
    reveal_strlit("available");
    reveal_strlit("taken");
    reveal_strlit("error");
    assert("all"@.len() == 3 && "available"@.len() == 9 && "taken"@.len() == 5);
    assert("taken"@[0] == 't' && "error"@[0] == 'e' && "error"@.len() == 5);
}

} // verus!
