//! What the user is shown of a run.
use vstd::prelude::*;
use vstd::utf8::encode_utf8;
use crate::checkpoint::{CheckpointState, CheckpointStats, DomainStatus, DomainType};
use crate::checkpoint::{ResultsView, WordResultView, count};
use crate::order::sorted;
use crate::order::{in_order, in_order_is_unique};
use crate::text::{decimal_text, pad_right};
use crate::text::{decimal, padded, texts};
use crate::timestamp::REPORT_FORMAT;
use crate::timestamp::formatted_instant;
use crate::word_map::{distinct_words, has_word, lookup, place_of};

verus! {

/// The counts of one domain.
pub open spec fn domain_section(name: Seq<char>, available: nat, taken: nat, error: nat) -> Seq<
    char,
> {
    "\n."@ + name + " domains:\n"@ + "  Available: "@ + decimal(available) + "\n"@
        + "  Taken:     "@ + decimal(taken) + "\n"@ + "  Errors:    "@ + decimal(error) + "\n"@
}

/// A status report: progress, the counts of the domains that are checked, the
/// length of the retry queue if there is one, and when the run was started and
/// updated. The percentage is left out where there are no words.
pub open spec fn status_text(
    stats: CheckpointStats,
    check_eth: bool,
    check_box: bool,
    percent: Seq<char>,
    started: Seq<char>,
    updated: Seq<char>,
) -> Seq<char> {
    "\n=== ENS Domain Checker Status ===\n\n"@ + "Progress: "@ + decimal(
        stats.checked_words as nat,
    ) + "/"@ + decimal(stats.total_words as nat) + " words checked\n"@ + (if stats.total_words > 0 {
        "         "@ + percent + "% complete\n"@
    } else {
        Seq::empty()
    }) + (if check_eth {
        domain_section(
            "eth"@,
            stats.eth_available as nat,
            stats.eth_taken as nat,
            stats.eth_error as nat,
        )
    } else {
        Seq::empty()
    }) + (if check_box {
        domain_section(
            "box"@,
            stats.box_available as nat,
            stats.box_taken as nat,
            stats.box_error as nat,
        )
    } else {
        Seq::empty()
    }) + (if stats.retry_queue_size > 0 {
        "\nRetry queue: "@ + decimal(stats.retry_queue_size as nat) + " items pending\n"@
    } else {
        Seq::empty()
    }) + "\nStarted:  "@ + started + "\n"@ + "Updated:  "@ + updated + "\n\n"@
}

/// Appends a number in decimal.
fn append_number(out: &mut String, n: usize)
    ensures
        final(out)@ == old(out)@ + decimal(n as nat),
{
    let number = decimal_text(n as u64);
    out.append(number.as_str());
}

/// The counts of one domain.
fn domain_report(name: &str, available: usize, taken: usize, error: usize) -> (r: String)
    ensures
        r@ == domain_section(name@, available as nat, taken as nat, error as nat),
{
    let mut out = "\n.".to_owned();
    out.append(name);
    out.append(" domains:\n");
    out.append("  Available: ");
    append_number(&mut out, available);
    out.append("\n");
    out.append("  Taken:     ");
    append_number(&mut out, taken);
    out.append("\n");
    out.append("  Errors:    ");
    append_number(&mut out, error);
    out.append("\n");
    out
}

/// A status report, given the percentage and the two instants as text.
pub fn status_report(
    stats: &CheckpointStats,
    check_eth: bool,
    check_box: bool,
    percent: &str,
    started: &str,
    updated: &str,
) -> (r: String)
    ensures
        r@ == status_text(*stats, check_eth, check_box, percent@, started@, updated@),
{
    let mut out = "\n=== ENS Domain Checker Status ===\n\n".to_owned();
    out.append("Progress: ");
    append_number(&mut out, stats.checked_words);
    out.append("/");
    append_number(&mut out, stats.total_words);
    out.append(" words checked\n");
    let complete = if stats.total_words > 0 {
        "         ".to_owned().concat(percent).concat("% complete\n")
    } else {
        String::new()
    };
    out.append(complete.as_str());
    let eth = if check_eth {
        domain_report("eth", stats.eth_available, stats.eth_taken, stats.eth_error)
    } else {
        String::new()
    };
    out.append(eth.as_str());
    let box_domain = if check_box {
        domain_report("box", stats.box_available, stats.box_taken, stats.box_error)
    } else {
        String::new()
    };
    out.append(box_domain.as_str());
    let mut queue = String::new();
    if stats.retry_queue_size > 0 {
        let number = decimal_text(stats.retry_queue_size as u64);
        queue = "\nRetry queue: ".to_owned().concat(number.as_str()).concat(" items pending\n");
    }
    out.append(queue.as_str());
    out.append("\nStarted:  ");
    out.append(started);
    out.append("\n");
    out.append("Updated:  ");
    out.append(updated);
    out.append("\n\n");
    out
}

/// The status report of a state, given the percentage of checked words as text.
pub fn print_status(state: &CheckpointState, percent: &str) -> (r: String)
    requires
        state.wf(),
    ensures
        exists|stats: CheckpointStats|
            {
                &&& #[trigger] stats.counts(state@)
                &&& r@ == status_text(
                    stats,
                    state@.check_eth,
                    state@.check_box,
                    percent@,
                    formatted_instant(
                        state@.started_at@.0,
                        state@.started_at@.1,
                        REPORT_FORMAT@,
                    ),
                    formatted_instant(
                        state@.last_updated@.0,
                        state@.last_updated@.1,
                        REPORT_FORMAT@,
                    ),
                )
            },
{
    let stats = state.get_stats();
    let started = stats.started_at.report_text();
    let updated = stats.last_updated.report_text();
    status_report(
        &stats,
        state.check_eth,
        state.check_box,
        percent,
        started.as_str(),
        updated.as_str(),
    )
}

/// Terminal colours.
pub const GREEN: &'static str = "\u{1b}[92m";

pub const CYAN: &'static str = "\u{1b}[96m";

pub const YELLOW: &'static str = "\u{1b}[93m";

pub const BOLD: &'static str = "\u{1b}[1m";

pub const RESET: &'static str = "\u{1b}[0m";

/// How many characters a line of the terminal holds.
pub const TERM_WIDTH: u128 = 100;

/// The cells one behind the other.
pub open spec fn in_a_row(cells: Seq<Seq<char>>) -> Seq<char>
    decreases cells.len(),
{
    if cells.len() == 0 {
        Seq::empty()
    } else {
        in_a_row(cells.drop_last()) + cells.last()
    }
}

/// The cells in rows of `columns`, each row indented.
pub open spec fn in_rows(cells: Seq<Seq<char>>, columns: nat) -> Seq<char>
    decreases cells.len(),
{
    if cells.len() == 0 || columns == 0 {
        Seq::empty()
    } else if cells.len() <= columns {
        "  "@ + in_a_row(cells) + "\n"@
    } else {
        "  "@ + in_a_row(cells.take(columns as int)) + "\n"@ + in_rows(
            cells.skip(columns as int),
            columns,
        )
    }
}

/// The cells in rows of `columns`, each row indented.
fn lay_out(cells: &Vec<String>, columns: usize) -> (r: String)
    requires
        columns > 0,
    ensures
        r@ == in_rows(texts(cells@), columns as nat),
{
    let ghost all = texts(cells@);
    let mut out = String::new();
    let mut start: usize = 0;
    assert(all.skip(0) =~= all);
    assert(out@ + in_rows(all, columns as nat) =~= in_rows(all, columns as nat));
    while start < cells.len()
        invariant
            start <= cells.len(),
            all == texts(cells@),
            columns > 0,
            in_rows(all, columns as nat) == out@ + in_rows(all.skip(start as int), columns as nat),
        decreases cells.len() - start,
    {
        let ghost before = out@;
        let ghost rest = all.skip(start as int);
        let end: usize = if cells.len() - start <= columns {
            cells.len()
        } else {
            start + columns
        };
        out.append("  ");
        let mut i: usize = start;
        assert(out@ =~= before + "  "@ + in_a_row(all.subrange(start as int, start as int)));
        while i < end
            invariant
                start <= i <= end <= cells.len(),
                all == texts(cells@),
                out@ == before + "  "@ + in_a_row(all.subrange(start as int, i as int)),
            decreases end - i,
        {
            out.append(cells[i].as_str());
            proof {
                let row = all.subrange(start as int, i + 1);
                assert(row.drop_last() =~= all.subrange(start as int, i as int));
                assert(row.last() == cells@[i as int]@);
                assert(out@ =~= before + "  "@ + in_a_row(row));
            }
            i = i + 1;
        }
        out.append("\n");
        proof {
            let row = all.subrange(start as int, end as int);
            if rest.len() <= columns {
                assert(row =~= rest);
                assert(all.skip(end as int) =~= Seq::<Seq<char>>::empty());
            } else {
                assert(row =~= rest.take(columns as int));
                assert(rest.skip(columns as int) =~= all.skip(end as int));
            }
            assert(in_rows(all, columns as nat) =~= out@ + in_rows(
                all.skip(end as int),
                columns as nat,
            ));
        }
        start = end;
    }
    assert(all.skip(start as int) =~= Seq::<Seq<char>>::empty());
    assert(out@ =~= in_rows(all, columns as nat));
    out
}

/// The length in bytes of the longest word; ten if there are no words.
pub open spec fn longest(words: Seq<Seq<char>>) -> nat
    decreases words.len(),
{
    if words.len() == 0 {
        10
    } else {
        let n = encode_utf8(words.last()).len();
        if words.len() == 1 {
            n
        } else {
            let before = longest(words.drop_last());
            if n < before {
                before
            } else {
                n
            }
        }
    }
}

/// The length in bytes of the longest word; ten if there are no words.
fn longest_word(words: &Vec<String>) -> (r: usize)
    ensures
        r == longest(texts(words@)),
{
    let ghost all = texts(words@);
    let mut max: usize = 10;
    let mut i: usize = 0;
    assert(all.take(0) =~= Seq::<Seq<char>>::empty());
    while i < words.len()
        invariant
            i <= words.len(),
            all == texts(words@),
            max == longest(all.take(i as int)),
        decreases words.len() - i,
    {
        let n: usize = words[i].as_str().as_bytes().len();
        proof {
            assert(all.take(i + 1).drop_last() =~= all.take(i as int));
            assert(all.take(i + 1).last() == words@[i as int]@);
        }
        if i == 0 || n >= max {
            max = n;
        }
        i = i + 1;
    }
    assert(all.take(i as int) =~= all);
    max
}

/// How many columns of that width fit on a line: at least one.
pub open spec fn columns_of(width: nat) -> nat
    recommends
        width > 0,
{
    if TERM_WIDTH as nat / width == 0 {
        1
    } else {
        TERM_WIDTH as nat / width
    }
}

/// How many columns of that width fit on a line: at least one.
fn count_columns(width: u128) -> (r: usize)
    requires
        width > 0,
    ensures
        r == columns_of(width as nat),
        r > 0,
{
    let n: u128 = TERM_WIDTH / width;
    assert(n <= 100) by (nonlinear_arith)
        requires
            n == 100u128 / width,
            width > 0,
    ;
    if n == 0 {
        1
    } else {
        n as usize
    }
}

/// A domain as it stands in a column.
pub open spec fn word_cell(word: Seq<char>, suffix: Seq<char>, color: Seq<char>, width: nat) -> Seq<
    char,
> {
    color + padded(word + "."@ + suffix, width) + RESET@
}

/// A domain as it stands in a column.
fn make_word_cell(word: &str, suffix: &str, color: &str, width: u128) -> (r: String)
    ensures
        r@ == word_cell(word@, suffix@, color@, width as nat),
{
    let entry = word.to_owned().concat(".").concat(suffix);
    let cell = pad_right(entry.as_str(), width);
    color.to_owned().concat(cell.as_str()).concat(RESET)
}

/// The words under one domain, in columns.
pub open spec fn word_columns(words: Seq<Seq<char>>, suffix: Seq<char>, color: Seq<char>) -> Seq<
    char,
> {
    let width = longest(words) + encode_utf8(suffix).len() + 4;
    in_rows(
        Seq::new(words.len(), |i: int| word_cell(words[i], suffix, color, width)),
        columns_of(width),
    )
}

/// The words under one domain, in columns.
pub fn print_word_columns(words: &Vec<String>, suffix: &str, color: &str) -> (r: String)
    ensures
        r@ == word_columns(texts(words@), suffix@, color@),
{
    let max_word_len: usize = longest_word(words);
    let suffix_len: usize = suffix.as_bytes().len();
    let col_width: u128 = max_word_len as u128 + suffix_len as u128 + 4;
    let columns: usize = count_columns(col_width);
    let mut cells: Vec<String> = Vec::new();
    let mut i: usize = 0;
    while i < words.len()
        invariant
            i <= words.len(),
            cells.len() == i,
            forall|k: int|
                0 <= k < i ==> (#[trigger] cells@[k])@ == word_cell(
                    texts(words@)[k],
                    suffix@,
                    color@,
                    col_width as nat,
                ),
        decreases words.len() - i,
    {
        cells.push(make_word_cell(words[i].as_str(), suffix, color, col_width));
        i = i + 1;
    }
    proof {
        let ws = texts(words@);
        assert(texts(cells@) =~= Seq::new(
            ws.len(),
            |i: int| word_cell(ws[i], suffix@, color@, col_width as nat),
        ));
    }
    lay_out(&cells, columns)
}

/// A word under both domains as it stands in a column.
pub open spec fn both_cell(word: Seq<char>, color: Seq<char>, width: nat) -> Seq<char> {
    word_cell(word, "eth"@, color, width) + "  "@ + word_cell(word, "box"@, color, width) + "   "@
}

/// The words under both domains, in columns.
pub open spec fn both_columns(words: Seq<Seq<char>>, color: Seq<char>) -> Seq<char> {
    let max = longest(words);
    in_rows(
        Seq::new(words.len(), |i: int| both_cell(words[i], color, max + 4)),
        columns_of((max + 5) * 2 + 2),
    )
}

/// The words under both domains, in columns.
pub fn print_both_columns(words: &Vec<String>, color: &str) -> (r: String)
    ensures
        r@ == both_columns(texts(words@), color@),
{
    let max_word_len: usize = longest_word(words);
    let width: u128 = max_word_len as u128 + 4;
    let entry_width: u128 = (max_word_len as u128 + 5) * 2 + 2;
    let columns: usize = count_columns(entry_width);
    let mut cells: Vec<String> = Vec::new();
    let mut i: usize = 0;
    while i < words.len()
        invariant
            i <= words.len(),
            cells.len() == i,
            forall|k: int|
                0 <= k < i ==> (#[trigger] cells@[k])@ == both_cell(
                    texts(words@)[k],
                    color@,
                    width as nat,
                ),
        decreases words.len() - i,
    {
        let eth = make_word_cell(words[i].as_str(), "eth", color, width);
        let box_domain = make_word_cell(words[i].as_str(), "box", color, width);
        cells.push(eth.concat("  ").concat(box_domain.as_str()).concat("   "));
        i = i + 1;
    }
    proof {
        let ws = texts(words@);
        assert(texts(cells@) =~= Seq::new(
            ws.len(),
            |i: int| both_cell(ws[i], color@, width as nat),
        ));
    }
    lay_out(&cells, columns)
}

/// A word is available under each of the domains.
pub open spec fn available_under(
    result: WordResultView,
    eth: bool,
    box_domain: bool,
) -> bool {
    &&& eth ==> result.eth_status == Some(DomainStatus::Available)
    &&& box_domain ==> result.box_status == Some(DomainStatus::Available)
}

/// The words that are available under `.eth`, under `.box`, or under both.
pub open spec fn available(results: ResultsView, eth: bool, box_domain: bool) -> Seq<Seq<char>>
    decreases results.len(),
{
    if results.len() == 0 {
        Seq::empty()
    } else if available_under(results.last().1, eth, box_domain) {
        available(results.drop_last(), eth, box_domain).push(results.last().0)
    } else {
        available(results.drop_last(), eth, box_domain)
    }
}

/// The words that are available under `.eth`, under `.box`, or under both, in
/// alphabetical order.
fn collect_available(state: &CheckpointState, eth: bool, box_domain: bool) -> (r: Vec<String>)
    requires
        state.wf(),
    ensures
        texts(r@) == in_order(available(state@.results, eth, box_domain)),
{
    let ghost results = state.results@;
    let mut found: Vec<String> = Vec::new();
    let n: usize = state.results.len();
    let mut i: usize = 0;
    assert(results.take(0) =~= Seq::empty());
    assert(texts(found@) =~= Seq::empty());
    while i < n
        invariant
            i <= n,
            n == results.len(),
            results == state.results@,
            texts(found@) == available(results.take(i as int), eth, box_domain),
        decreases n - i,
    {
        let result = state.results.value_at(i);
        let eth_avail = match result.eth_status {
            Some(s) => s == DomainStatus::Available,
            None => false,
        };
        let box_avail = match result.box_status {
            Some(s) => s == DomainStatus::Available,
            None => false,
        };
        let ghost before = texts(found@);
        proof {
            assert(results.take(i + 1).drop_last() =~= results.take(i as int));
            assert(results.take(i + 1).last() == results[i as int]);
        }
        if (!eth || eth_avail) && (!box_domain || box_avail) {
            found.push(state.results.word_at(i).to_owned());
            assert(texts(found@) =~= before.push(results[i as int].0));
        }
        i = i + 1;
    }
    assert(results.take(i as int) =~= results);
    sorted(&found)
}

/// The list of the words that are available under both domains.
pub open spec fn both_listing(both: Seq<Seq<char>>) -> Seq<char> {
    "\n"@ + BOLD@ + CYAN@ + "═══ Available on BOTH .eth AND .box ═══"@
        + RESET@ + "\n\n"@ + (if both.len() == 0 {
        "  "@ + YELLOW@ + "No domains available on both"@ + RESET@ + "\n"@
    } else {
        both_columns(both, GREEN@) + "\n"@ + BOLD@ + "Total: "@ + decimal(both.len())
            + " domains"@ + RESET@ + "\n"@
    }) + "\n"@
}

/// The list of the words that are available under one domain.
pub open spec fn domain_listing(words: Seq<Seq<char>>, suffix: Seq<char>) -> Seq<char> {
    "\n"@ + BOLD@ + CYAN@ + "═══ Available ."@ + suffix + " Domains ("@ + decimal(
        words.len(),
    ) + ") ═══"@ + RESET@ + "\n\n"@ + (if words.len() == 0 {
        "  "@ + YELLOW@ + "None available"@ + RESET@ + "\n"@
    } else {
        word_columns(words, suffix, GREEN@)
    })
}

/// A line of the summary.
pub open spec fn summary_line(label: Seq<char>, n: nat) -> Seq<char> {
    "  "@ + label + " available: "@ + GREEN@ + decimal(n) + RESET@ + "\n"@
}

/// What is shown of these lists of available words: the words under both
/// domains if only those are asked for; otherwise the words under the domains
/// that are asked for, under each if none is, and how many there are.
pub open spec fn listing(
    eth: Seq<Seq<char>>,
    box_domain: Seq<Seq<char>>,
    both: Seq<Seq<char>>,
    both_only: bool,
    show_eth: bool,
    show_box: bool,
) -> Seq<char> {
    if both_only {
        both_listing(both)
    } else {
        (if show_eth || !show_box {
            domain_listing(eth, "eth"@)
        } else {
            Seq::empty()
        }) + (if show_box || !show_eth {
            domain_listing(box_domain, "box"@)
        } else {
            Seq::empty()
        }) + "\n"@ + BOLD@ + "═══ Summary ═══"@ + RESET@ + "\n"@
            + summary_line(".eth"@, eth.len()) + summary_line(".box"@, box_domain.len())
            + summary_line("Both"@, both.len()) + "\n"@
    }
}

/// The list of the words that are available under both domains.
fn list_both(both: &Vec<String>) -> (r: String)
    ensures
        r@ == both_listing(texts(both@)),
{
    let mut out = "\n".to_owned();
    out.append(BOLD);
    out.append(CYAN);
    out.append("═══ Available on BOTH .eth AND .box ═══");
    out.append(RESET);
    out.append("\n\n");
    let body = if both.len() == 0 {
        "  ".to_owned().concat(YELLOW).concat("No domains available on both").concat(RESET).concat(
            "\n",
        )
    } else {
        let columns = print_both_columns(both, GREEN);
        let number = decimal_text(both.len() as u64);
        columns.concat("\n").concat(BOLD).concat("Total: ").concat(number.as_str()).concat(
            " domains",
        ).concat(RESET).concat("\n")
    };
    out.append(body.as_str());
    out.append("\n");
    out
}

/// The list of the words that are available under one domain.
fn list_domain(words: &Vec<String>, suffix: &str) -> (r: String)
    ensures
        r@ == domain_listing(texts(words@), suffix@),
{
    let mut out = "\n".to_owned();
    out.append(BOLD);
    out.append(CYAN);
    out.append("═══ Available .");
    out.append(suffix);
    out.append(" Domains (");
    append_number(&mut out, words.len());
    out.append(") ═══");
    out.append(RESET);
    out.append("\n\n");
    let body = if words.len() == 0 {
        "  ".to_owned().concat(YELLOW).concat("None available").concat(RESET).concat("\n")
    } else {
        print_word_columns(words, suffix, GREEN)
    };
    out.append(body.as_str());
    out
}

/// A line of the summary.
fn summarize(label: &str, n: usize) -> (r: String)
    ensures
        r@ == summary_line(label@, n as nat),
{
    let number = decimal_text(n as u64);
    "  ".to_owned().concat(label).concat(" available: ").concat(GREEN).concat(
        number.as_str(),
    ).concat(RESET).concat("\n")
}

/// The available words of a state, in alphabetical order, as they are shown.
pub fn print_results(
    state: &CheckpointState,
    both_only: bool,
    show_eth: bool,
    show_box: bool,
) -> (r: String)
    requires
        state.wf(),
    ensures
        r@ == listing(
            in_order(available(state@.results, true, false)),
            in_order(available(state@.results, false, true)),
            in_order(available(state@.results, true, true)),
            both_only,
            show_eth,
            show_box,
        ),
{
    let eth_available = collect_available(state, true, false);
    let box_available = collect_available(state, false, true);
    let both_available = collect_available(state, true, true);
    assert(texts(eth_available@).len() == eth_available.len());
    assert(texts(box_available@).len() == box_available.len());
    assert(texts(both_available@).len() == both_available.len());
    if both_only {
        return list_both(&both_available);
    }
    let mut out = if show_eth || !show_box {
        list_domain(&eth_available, "eth")
    } else {
        String::new()
    };
    let second = if show_box || !show_eth {
        list_domain(&box_available, "box")
    } else {
        String::new()
    };
    out.append(second.as_str());
    out.append("\n");
    out.append(BOLD);
    out.append("═══ Summary ═══");
    out.append(RESET);
    out.append("\n");
    let eth_line = summarize(".eth", eth_available.len());
    out.append(eth_line.as_str());
    let box_line = summarize(".box", box_available.len());
    out.append(box_line.as_str());
    let both_line = summarize("Both", both_available.len());
    out.append(both_line.as_str());
    out.append("\n");
    out
}

/// As many words are shown as available under a domain as are counted there,
/// and those under both are among them.
pub proof fn listed_are_counted(results: ResultsView)
    ensures
        available(results, true, false).len() == count(
            results,
            DomainType::Eth,
            DomainStatus::Available,
        ),
        available(results, false, true).len() == count(
            results,
            DomainType::Box,
            DomainStatus::Available,
        ),
        available(results, true, true).len() <= available(results, true, false).len(),
        available(results, true, true).len() <= available(results, false, true).len(),
    decreases results.len(),
{
    if results.len() > 0 {
        listed_are_counted(results.drop_last());
    }
}

/// A word is shown exactly if it has a result that makes it available under
/// each of the domains in question.
pub proof fn listed_iff_available(
    results: ResultsView,
    eth: bool,
    box_domain: bool,
    word: Seq<char>,
)
    requires
        distinct_words(results),
    ensures
        in_order(available(results, eth, box_domain)).contains(word) <==> has_word(results, word)
            && available_under(lookup(results, word)->Some_0, eth, box_domain),
{
    let found = available(results, eth, box_domain);
    in_order_is_unique(found, found);
    found.to_multiset_ensures();
    in_order(found).to_multiset_ensures();
    assert(found.contains(word) <==> found.to_multiset().count(word) > 0);
    assert(in_order(found).contains(word) <==> in_order(found).to_multiset().count(word) > 0);
    available_finds(results, eth, box_domain, word);
}

proof fn available_finds(results: ResultsView, eth: bool, box_domain: bool, word: Seq<char>)
    requires
        distinct_words(results),
    ensures
        available(results, eth, box_domain).contains(word) <==> has_word(results, word)
            && available_under(lookup(results, word)->Some_0, eth, box_domain),
    decreases results.len(),
{
    if results.len() > 0 {
        let before = results.drop_last();
        let last = results.last();
        let a = available(results, eth, box_domain);
        let ab = available(before, eth, box_domain);
        assert forall|i: int, j: int| 0 <= i < j < before.len() implies (#[trigger] before[i]).0
            != (#[trigger] before[j]).0 by {
            assert(results[i].0 != results[j].0);
        }
        available_finds(before, eth, box_domain, word);
        assert(results[results.len() - 1] == last);
        if last.0 == word {
            assert(place_of(results, word) == results.len() - 1);
            if has_word(before, word) {
                let p = place_of(before, word);
                assert(results[p].0 == word);
            }
            if available_under(last.1, eth, box_domain) {
                assert(a[a.len() - 1] == word);
            }
        } else {
            if has_word(before, word) {
                let p = place_of(before, word);
                assert(results[p].0 == word);
            }
            if has_word(results, word) {
                let p = place_of(results, word);
                assert(before[p].0 == word);
            }
            if ab.contains(word) {
                let k = choose|k: int| 0 <= k < ab.len() && ab[k] == word;
                assert(a[k] == word);
            }
            if a.contains(word) {
                let k = choose|k: int| 0 <= k < a.len() && a[k] == word;
                assert(ab[k] == word);
            }
        }
    }
}

/// What the report says of a domain: how many words are available, taken and in
/// error there, each on a line of its own.
pub proof fn section_of_a_domain(name: Seq<char>, available: nat, taken: nat, error: nat)
    ensures
        domain_section(name, available, taken, error) == "\n."@ + name + " domains:\n"@
            + "  Available: "@ + decimal(available) + "\n"@ + "  Taken:     "@ + decimal(taken)
            + "\n"@ + "  Errors:    "@ + decimal(error) + "\n"@,
{
}

/// The report gives the progress; the percentage exactly if there are words; the
/// counts under `.eth` and under `.box` exactly if words are looked up there; the
/// length of the retry queue exactly if something is queued; and the two instants.
pub proof fn parts_of_a_report(
    stats: CheckpointStats,
    check_eth: bool,
    check_box: bool,
    percent: Seq<char>,
    started: Seq<char>,
    updated: Seq<char>,
)
    ensures
        ({
            let head = "\n=== ENS Domain Checker Status ===\n\n"@ + "Progress: "@ + decimal(
                stats.checked_words as nat,
            ) + "/"@ + decimal(stats.total_words as nat) + " words checked\n"@;
            let complete = "         "@ + percent + "% complete\n"@;
            let eth = domain_section(
                "eth"@,
                stats.eth_available as nat,
                stats.eth_taken as nat,
                stats.eth_error as nat,
            );
            let box_domain = domain_section(
                "box"@,
                stats.box_available as nat,
                stats.box_taken as nat,
                stats.box_error as nat,
            );
            let queue = "\nRetry queue: "@ + decimal(stats.retry_queue_size as nat)
                + " items pending\n"@;
            let none = Seq::<char>::empty();
            status_text(stats, check_eth, check_box, percent, started, updated) == head + (
            if stats.total_words == 0 {
                none
            } else {
                complete
            }) + (if check_eth {
                eth
            } else {
                none
            }) + (if check_box {
                box_domain
            } else {
                none
            }) + (if stats.retry_queue_size == 0 {
                none
            } else {
                queue
            }) + "\nStarted:  "@ + started + "\n"@ + "Updated:  "@ + updated + "\n\n"@
        }),
{
}

/// Cells stand one behind the other in their row. A row holds as many cells as there
/// are columns, and the last row what is left; each is indented and ends the line.
pub proof fn cells_fill_rows(a: Seq<Seq<char>>, b: Seq<Seq<char>>, cell: Seq<char>, columns: nat)
    requires
        columns > 0,
    ensures
        in_a_row(Seq::empty()) == Seq::<char>::empty(),
        in_a_row(seq![cell]) == cell,
        in_a_row(a + b) == in_a_row(a) + in_a_row(b),
        in_rows(Seq::empty(), columns) == Seq::<char>::empty(),
        0 < a.len() <= columns ==> in_rows(a, columns) == "  "@ + in_a_row(a) + "\n"@,
        a.len() == columns ==> in_rows(a + b, columns) == in_rows(a, columns) + in_rows(b, columns),
    decreases b.len(),
{
    assert(seq![cell].drop_last() =~= Seq::<Seq<char>>::empty());
    assert(in_a_row(seq![cell].drop_last()) =~= Seq::<char>::empty());
    assert(in_a_row(seq![cell]) =~= cell);
    if b.len() == 0 {
        assert(a + b =~= a);
        assert(in_a_row(a) + in_a_row(b) =~= in_a_row(a));
        assert(in_rows(a, columns) + in_rows(b, columns) =~= in_rows(a, columns));
    } else {
        cells_fill_rows(a, b.drop_last(), cell, columns);
        assert((a + b).drop_last() =~= a + b.drop_last());
        assert((a + b).last() == b.last());
        assert(in_a_row(a + b) =~= in_a_row(a) + in_a_row(b));
        if a.len() == columns {
            assert((a + b).take(columns as int) =~= a);
            assert((a + b).skip(columns as int) =~= b);
            assert(in_rows(a + b, columns) =~= in_rows(a, columns) + in_rows(b, columns));
        }
    }
}

/// The longest word is one of the words, and none is longer in bytes. Without words
/// its length is taken to be ten.
pub proof fn no_word_is_longer(words: Seq<Seq<char>>, i: int)
    ensures
        words.len() == 0 ==> longest(words) == 10,
        0 <= i < words.len() ==> encode_utf8(words[i]).len() <= longest(words),
        words.len() > 0 ==> exists|k: int|
            0 <= k < words.len() && encode_utf8(#[trigger] words[k]).len() == longest(words),
    decreases words.len(),
{
    if words.len() > 0 {
        let before = words.drop_last();
        no_word_is_longer(before, i);
        assert(words[words.len() - 1] == words.last());
        if words.len() > 1 && encode_utf8(words.last()).len() < longest(before) {
            let k = choose|k: int|
                0 <= k < before.len() && encode_utf8(#[trigger] before[k]).len() == longest(before);
            assert(words[k] == before[k]);
        }
        if 0 <= i < before.len() {
            assert(words[i] == before[i]);
        }
    }
}

/// As many columns of a width stand side by side as fit on a line of a hundred
/// characters, and one if none does.
pub proof fn columns_that_fit(width: nat)
    requires
        width > 0,
    ensures
        columns_of(width) >= 1,
        width <= 100 ==> columns_of(width) * width <= 100 < (columns_of(width) + 1) * width,
        width > 100 ==> columns_of(width) == 1,
{
    let n = 100nat / width;
    assert(n * width <= 100 < (n + 1) * width) by (nonlinear_arith)
        requires
            width > 0,
            n == 100nat / width,
    ;
    if width <= 100 {
        assert(n >= 1) by (nonlinear_arith)
            requires
                100 < (n + 1) * width,
                width <= 100,
        ;
    } else {
        assert(n == 0) by (nonlinear_arith)
            requires
                n * width <= 100,
                width > 100,
        ;
    }
}

/// Words under one domain stand in columns that are four characters wider than the
/// longest of them and the domain, each in colour; words under both stand beside each
/// other, with two blanks between the two names and three behind them.
pub proof fn words_stand_in_columns(
    words: Seq<Seq<char>>,
    suffix: Seq<char>,
    color: Seq<char>,
    cells: Seq<Seq<char>>,
    pairs: Seq<Seq<char>>,
)
    requires
        cells.len() == words.len(),
        pairs.len() == words.len(),
        forall|i: int|
            0 <= i < words.len() ==> #[trigger] cells[i] == color + padded(
                words[i] + "."@ + suffix,
                longest(words) + encode_utf8(suffix).len() + 4,
            ) + "\u{1b}[0m"@,
        forall|i: int|
            0 <= i < words.len() ==> #[trigger] pairs[i] == color + padded(
                words[i] + "."@ + "eth"@,
                longest(words) + 4,
            ) + "\u{1b}[0m"@ + "  "@ + (color + padded(
                words[i] + "."@ + "box"@,
                longest(words) + 4,
            ) + "\u{1b}[0m"@) + "   "@,
    ensures
        word_columns(words, suffix, color) == in_rows(
            cells,
            columns_of(longest(words) + encode_utf8(suffix).len() + 4),
        ),
        both_columns(words, color) == in_rows(pairs, columns_of(2 * longest(words) + 12)),
{
    let width = longest(words) + encode_utf8(suffix).len() + 4;
    assert(Seq::new(words.len(), |i: int| word_cell(words[i], suffix, color, width)) =~= cells);
    assert(Seq::new(words.len(), |i: int| both_cell(words[i], color, longest(words) + 4))
        =~= pairs);
    assert((longest(words) + 5) * 2 + 2 == 2 * longest(words) + 12);
}

/// The available words are found one by one: under a domain those whose status in the
/// field of that domain says so, and under both those of which both do.
pub proof fn available_words_are_found_one_by_one(
    a: ResultsView,
    b: ResultsView,
    word: Seq<char>,
    result: WordResultView,
    eth: bool,
    box_domain: bool,
)
    ensures
        available(a + b, eth, box_domain) == available(a, eth, box_domain) + available(
            b,
            eth,
            box_domain,
        ),
        available(Seq::empty(), eth, box_domain) == Seq::<Seq<char>>::empty(),
        available(seq![(word, result)], eth, box_domain) == if (eth ==> result.eth_status == Some(
            DomainStatus::Available,
        )) && (box_domain ==> result.box_status == Some(DomainStatus::Available)) {
            seq![word]
        } else {
            Seq::empty()
        },
    decreases b.len(),
{
    let one = seq![(word, result)];
    assert(one.drop_last() =~= Seq::empty());
    assert(available(one.drop_last(), eth, box_domain) =~= Seq::<Seq<char>>::empty());
    assert(available(one, eth, box_domain) =~= if available_under(result, eth, box_domain) {
        seq![word]
    } else {
        Seq::empty()
    });
    if b.len() == 0 {
        assert(a + b =~= a);
        assert(available(a, eth, box_domain) + available(b, eth, box_domain) =~= available(
            a,
            eth,
            box_domain,
        ));
    } else {
        available_words_are_found_one_by_one(a, b.drop_last(), word, result, eth, box_domain);
        assert((a + b).drop_last() =~= a + b.drop_last());
        assert((a + b).last() == b.last());
        assert(available(a + b, eth, box_domain) =~= available(a, eth, box_domain) + available(
            b,
            eth,
            box_domain,
        ));
    }
}

/// What the list of a domain, the list of both and a line of the summary say.
pub proof fn what_lists_say(words: Seq<Seq<char>>, suffix: Seq<char>, label: Seq<char>, n: nat)
    ensures
        domain_listing(words, suffix) == "\n"@ + "\u{1b}[1m"@ + "\u{1b}[96m"@
            + "═══ Available ."@ + suffix + " Domains ("@ + decimal(words.len())
            + ") ═══"@ + "\u{1b}[0m"@ + "\n\n"@ + (if words.len() == 0 {
            "  "@ + "\u{1b}[93m"@ + "None available"@ + "\u{1b}[0m"@ + "\n"@
        } else {
            word_columns(words, suffix, "\u{1b}[92m"@)
        }),
        both_listing(words) == "\n"@ + "\u{1b}[1m"@ + "\u{1b}[96m"@
            + "═══ Available on BOTH .eth AND .box ═══"@ + "\u{1b}[0m"@
            + "\n\n"@ + (if words.len() == 0 {
            "  "@ + "\u{1b}[93m"@ + "No domains available on both"@ + "\u{1b}[0m"@ + "\n"@
        } else {
            both_columns(words, "\u{1b}[92m"@) + "\n"@ + "\u{1b}[1m"@ + "Total: "@ + decimal(
                words.len(),
            ) + " domains"@ + "\u{1b}[0m"@ + "\n"@
        }) + "\n"@,
        summary_line(label, n) == "  "@ + label + " available: "@ + "\u{1b}[92m"@ + decimal(n)
            + "\u{1b}[0m"@ + "\n"@,
{
}

/// If only the words under both domains are asked for, they alone are shown.
/// Otherwise a domain's words are shown if they are asked for or the other's are not,
/// `.eth` first, and the three numbers follow.
pub proof fn what_is_shown(
    eth: Seq<Seq<char>>,
    box_domain: Seq<Seq<char>>,
    both: Seq<Seq<char>>,
    show_eth: bool,
    show_box: bool,
)
    ensures
        ({
            let first = domain_listing(eth, "eth"@);
            let second = domain_listing(box_domain, "box"@);
            let lists = if show_eth == show_box {
                first + second
            } else if show_eth {
                first
            } else {
                second
            };
            &&& listing(eth, box_domain, both, true, show_eth, show_box) == both_listing(both)
            &&& listing(eth, box_domain, both, false, show_eth, show_box) == lists + "\n"@
                + "\u{1b}[1m"@ + "═══ Summary ═══"@ + "\u{1b}[0m"@ + "\n"@
                + summary_line(".eth"@, eth.len()) + summary_line(".box"@, box_domain.len())
                + summary_line("Both"@, both.len()) + "\n"@
        }),
{
    let first = domain_listing(eth, "eth"@);
    let second = domain_listing(box_domain, "box"@);
    assert(first + Seq::<char>::empty() =~= first);
    assert(Seq::<char>::empty() + second =~= second);
}

} // verus!
