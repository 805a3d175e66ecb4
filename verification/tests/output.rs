use pretty_ens::checkpoint::{CheckpointState, DomainStatus, DomainType, RetryEntry};
use pretty_ens::export::{export_results, ExportFilter};
use pretty_ens::order::{precedes, sorted};
use pretty_ens::report::{print_both_columns, print_results, print_status, print_word_columns};
use pretty_ens::text::{contains, decimal_text, join, pad_right, same_text};
use pretty_ens::timestamp::Timestamp;

fn at(secs: i64) -> Timestamp {
    Timestamp::new(secs, 0).unwrap()
}

fn sample() -> CheckpointState {
    let mut s = CheckpointState::new_at("h".to_string(), 4, true, true, false, at(0));
    let rows = [
        ("pear", DomainType::Eth, DomainStatus::Available),
        ("pear", DomainType::Box, DomainStatus::Available),
        ("fig", DomainType::Eth, DomainStatus::Available),
        ("fig", DomainType::Box, DomainStatus::Taken),
        ("apple", DomainType::Box, DomainStatus::Available),
        ("kiwi", DomainType::Eth, DomainStatus::Error),
    ];
    for (w, d, status) in rows {
        s.record_result_at(w, d, status, None, at(60), at(60));
    }
    s
}

#[test]
fn filters_by_name() {
    assert_eq!(ExportFilter::from_str("all").unwrap(), ExportFilter::All);
    assert_eq!(ExportFilter::from_str("Available").unwrap(), ExportFilter::Available);
    assert_eq!(ExportFilter::from_str("TAKEN").unwrap(), ExportFilter::Taken);
    assert_eq!(ExportFilter::from_str("ta\u{212a}en").unwrap(), ExportFilter::Taken);
    assert_eq!(ExportFilter::from_str("error").unwrap(), ExportFilter::Error);
    let e = ExportFilter::from_str("Some").unwrap_err();
    assert_eq!(e.message(), "Invalid filter: Some. Use: all, available, taken, error");
    assert!(ExportFilter::from_str("").is_err() && ExportFilter::from_str(" all").is_err());
}

#[test]
fn statuses_that_pass_a_filter() {
    let statuses = [
        None,
        Some(DomainStatus::Available),
        Some(DomainStatus::Taken),
        Some(DomainStatus::Error),
    ];
    let passed = |f: ExportFilter| -> Vec<bool> { statuses.iter().map(|s| f.matches(*s)).collect() };
    assert_eq!(passed(ExportFilter::All), vec![true, true, true, true]);
    assert_eq!(passed(ExportFilter::Available), vec![false, true, false, false]);
    assert_eq!(passed(ExportFilter::Taken), vec![false, false, true, false]);
    assert_eq!(passed(ExportFilter::Error), vec![false, false, false, true]);
}

#[test]
fn exported_values() {
    let s = sample();
    let header = "word,eth_domain,eth_status,box_domain,box_status\n";
    let all = export_results(&s, ExportFilter::All);
    assert_eq!(all.count, 4);
    assert_eq!(
        all.text,
        format!(
            "{}pear,pear.eth,available,pear.box,available\nfig,fig.eth,available,fig.box,taken\n\
             apple,apple.eth,pending,apple.box,available\nkiwi,kiwi.eth,error,kiwi.box,pending\n",
            header
        )
    );
    let taken = export_results(&s, ExportFilter::Taken);
    assert_eq!(taken.count, 1);
    assert_eq!(taken.text, format!("{}fig,fig.eth,available,fig.box,taken\n", header));
    assert_eq!(export_results(&s, ExportFilter::Available).count, 3);
    assert_eq!(export_results(&s, ExportFilter::Error).count, 1);
    let none = CheckpointState::default();
    let e = export_results(&none, ExportFilter::All);
    assert_eq!((e.count, e.text.as_str()), (0, header));
}

#[test]
fn status_report() {
    let mut s = sample();
    s.add_to_retry_queue(RetryEntry {
        word: "kiwi".to_string(),
        domain_type: DomainType::Eth,
        retry_count: 5,
        next_retry_at: at(360),
        last_error: String::new(),
    });
    assert_eq!(
        print_status(&s, "50.0"),
        "\n=== ENS Domain Checker Status ===\n\n\
         Progress: 2/4 words checked\n         50.0% complete\n\
         \n.eth domains:\n  Available: 2\n  Taken:     0\n  Errors:    1\n\
         \n.box domains:\n  Available: 2\n  Taken:     1\n  Errors:    0\n\
         \nRetry queue: 1 items pending\n\
         \nStarted:  1970-01-01 00:00:00 UTC\nUpdated:  1970-01-01 00:01:00 UTC\n\n"
    );
    let bare = CheckpointState::new_at("h".to_string(), 0, false, false, true, at(0));
    assert_eq!(
        print_status(&bare, "unused"),
        "\n=== ENS Domain Checker Status ===\n\nProgress: 0/0 words checked\n\
         \nStarted:  1970-01-01 00:00:00 UTC\nUpdated:  1970-01-01 00:00:00 UTC\n\n"
    );
}

const G: &str = "\x1b[92m";
const C: &str = "\x1b[96m";
const Y: &str = "\x1b[93m";
const B: &str = "\x1b[1m";
const R: &str = "\x1b[0m";

#[test]
fn available_words() {
    let s = sample();
    let eth = format!(
        "\n{B}{C}═══ Available .eth Domains (2) ═══{R}\n\n  {G}fig.eth    {R}{G}pear.eth   {R}\n"
    );
    let boxed = format!(
        "\n{B}{C}═══ Available .box Domains (2) ═══{R}\n\n  {G}apple.box   {R}{G}pear.box    {R}\n"
    );
    let summary = format!(
        "\n{B}═══ Summary ═══{R}\n  .eth available: {G}2{R}\n  .box available: {G}2{R}\n  Both available: {G}1{R}\n\n"
    );
    assert_eq!(print_results(&s, false, false, false), format!("{eth}{boxed}{summary}"));
    assert_eq!(print_results(&s, false, true, true), format!("{eth}{boxed}{summary}"));
    assert_eq!(print_results(&s, false, true, false), format!("{eth}{summary}"));
    assert_eq!(print_results(&s, false, false, true), format!("{boxed}{summary}"));
    assert_eq!(
        print_results(&s, true, false, true),
        format!(
            "\n{B}{C}═══ Available on BOTH .eth AND .box ═══{R}\n\n  {G}pear.eth{R}  {G}pear.box{R}   \n\n{B}Total: 1 domains{R}\n\n"
        )
    );
}

#[test]
fn nothing_available() {
    let s = CheckpointState::default();
    assert_eq!(
        print_results(&s, true, false, false),
        format!(
            "\n{B}{C}═══ Available on BOTH .eth AND .box ═══{R}\n\n  {Y}No domains available on both{R}\n\n"
        )
    );
    assert_eq!(
        print_results(&s, false, true, false),
        format!(
            "\n{B}{C}═══ Available .eth Domains (0) ═══{R}\n\n  {Y}None available{R}\n\n{B}═══ Summary ═══{R}\n  .eth available: {G}0{R}\n  .box available: {G}0{R}\n  Both available: {G}0{R}\n\n"
        )
    );
}

fn list(words: &[&str]) -> Vec<String> {
    words.iter().map(|w| w.to_string()).collect()
}

#[test]
fn columns() {
    // A width of 3 + 3 + 4 makes ten columns.
    let words = list(&["abc"; 11]);
    let row = format!("  {}\n", format!("<abc.eth   {R}").repeat(10));
    assert_eq!(print_word_columns(&words, "eth", "<"), format!("{row}  <abc.eth   {R}\n"));
    // A word that fills the line stands alone on it; bytes make the width,
    // characters fill it.
    let long = "x".repeat(120);
    let words = vec![long.clone(), "\u{e9}".to_string()];
    assert_eq!(
        print_word_columns(&words, "id", ""),
        format!("  {long}.id   {R}\n  {:<126}{R}\n", "\u{e9}.id")
    );
    assert_eq!(print_word_columns(&vec![], "id", ""), "");
    // A width of (13 + 5) * 2 + 2 makes two columns.
    let words = list(&["abcdefghijklm", "n", "o"]);
    let cell = |w: &str| {
        format!("<{:<17}{R}  <{:<17}{R}   ", format!("{w}.eth"), format!("{w}.box"))
    };
    assert_eq!(
        print_both_columns(&words, "<"),
        format!("  {}{}\n  {}\n", cell("abcdefghijklm"), cell("n"), cell("o"))
    );
}

#[test]
fn order_of_words() {
    let words = list(&["b", "a", "", "ab", "B", "\u{e9}", "z", "a", "\u{10000}", "\u{ffff}"]);
    let mut expected = words.clone();
    expected.sort();
    assert_eq!(sorted(&words), expected);
    assert!(precedes("a", "a") && precedes("a", "ab") && !precedes("ab", "a"));
    assert!(precedes("\u{ffff}", "\u{10000}") && !precedes("b", "a"));
}

#[test]
fn texts() {
    assert!(contains("abcabd", "abd") && contains("x", "") && contains("", ""));
    assert!(!contains("ab", "abc") && !contains("abab", "aa"));
    assert_eq!(decimal_text(0), "0");
    assert_eq!(decimal_text(u64::MAX), "18446744073709551615");
    assert_eq!(pad_right("\u{e9}a", 4), "\u{e9}a  ");
    assert_eq!(pad_right("abc", 2), "abc");
    assert_eq!(join(&list(&["a", "", "b"]), ", "), "a, , b");
    assert_eq!(join(&vec![], "x"), "");
    assert!(same_text("\u{e9}", "\u{e9}") && !same_text("a", "ab") && !same_text("a", "b"));
}
