use pretty_ens::checker::{CheckError, CheckResult};
use pretty_ens::checkpoint::{
    CheckpointState, DomainStatus, DomainType, RetryEntry, WordResult,
};
use pretty_ens::manager::CheckpointManager;
use pretty_ens::timestamp::{Timestamp, FIRST_SECOND, LAST_SECOND};
use pretty_ens::word_map::{WordMap, WordSet};

fn at(secs: i64) -> Timestamp {
    Timestamp::new(secs, 0).unwrap()
}

fn state(check_eth: bool, check_box: bool, check_id: bool) -> CheckpointState {
    CheckpointState::new_at("hash".to_string(), 3, check_eth, check_box, check_id, at(100))
}

fn entry(word: &str, domain_type: DomainType, n: u32) -> RetryEntry {
    RetryEntry {
        word: word.to_string(),
        domain_type,
        retry_count: n,
        next_retry_at: at(7),
        last_error: format!("e{}", n),
    }
}

fn queue(s: &CheckpointState) -> Vec<(String, DomainType, u32)> {
    s.retry_queue.iter().map(|e| (e.word.clone(), e.domain_type, e.retry_count)).collect()
}

#[test]
fn words_of_statuses_and_domains() {
    assert_eq!(DomainStatus::Available.as_str(), "available");
    assert_eq!(DomainStatus::Taken.as_str(), "taken");
    assert_eq!(DomainStatus::Error.as_str(), "error");
    assert_eq!(DomainType::Eth.as_str(), "eth");
    assert_eq!(DomainType::Box.as_str(), "box");
    assert_eq!(DomainType::Id.as_str(), "id");
}

#[test]
fn fresh_states() {
    let s = state(true, false, true);
    assert_eq!((s.version, s.total_words, s.wordlist_hash.as_str()), (1, 3, "hash"));
    assert_eq!((s.check_eth, s.check_box, s.check_id), (true, false, true));
    assert_eq!((s.started_at, s.last_updated), (at(100), at(100)));
    assert!(s.wordlist_url.is_none() && s.retry_queue.is_empty());
    assert_eq!((s.results.len(), s.checked_words.len()), (0, 0));
    let d = CheckpointState::default();
    assert_eq!((d.version, d.total_words, d.wordlist_hash.as_str()), (1, 0, ""));
    assert!(d.check_eth && d.check_box && d.check_id);
    assert_eq!(d.started_at, d.last_updated);
    let n = CheckpointState::new("h".to_string(), 1, true, true, true);
    assert!(n.started_at.secs() > 1_600_000_000 && n.started_at.nanos() < 1_000_000_000);
}

#[test]
fn recorded_results() {
    let mut s = state(true, true, false);
    s.record_result_at("a", DomainType::Eth, DomainStatus::Taken, None, at(5), at(6));
    assert_eq!(s.last_updated, at(6));
    assert!(!s.checked_words.contains("a"));
    s.record_result_at(
        "a",
        DomainType::Box,
        DomainStatus::Error,
        Some("oops".to_string()),
        at(7),
        at(8),
    );
    assert!(s.checked_words.contains("a") && !s.checked_words.contains("b"));
    assert_eq!(s.checked_words.len(), 1);
    let r = s.results.get("a").unwrap();
    assert_eq!(r.eth_status, Some(DomainStatus::Taken));
    assert_eq!(r.box_status, Some(DomainStatus::Error));
    assert_eq!((r.id_status, r.eth_error.as_deref(), r.box_error.as_deref()), (None, None, Some("oops")));
    assert_eq!(r.checked_at, Some(at(7)));
    s.record_result_at("a", DomainType::Box, DomainStatus::Available, None, at(9), at(9));
    let r = s.results.get("a").unwrap();
    assert_eq!((r.box_status, r.box_error.as_deref()), (Some(DomainStatus::Available), None));
    assert_eq!(s.results.len(), 1);
    s.record_result_at("b", DomainType::Id, DomainStatus::Taken, None, at(9), at(9));
    assert!(!s.checked_words.contains("b"));
    assert_eq!(s.results.get("b").unwrap().id_status, Some(DomainStatus::Taken));
}

#[test]
fn recorded_now() {
    let mut s = state(true, false, false);
    s.record_result("w", DomainType::Eth, DomainStatus::Available, None);
    let when = s.results.get("w").unwrap().checked_at.unwrap();
    assert!(when.secs() > 1_600_000_000);
    assert!(s.last_updated.secs() >= when.secs());
    assert!(s.checked_words.contains("w"));
}

#[test]
fn words_without_domains_are_complete() {
    let mut s = state(false, false, false);
    s.record_result_at("w", DomainType::Eth, DomainStatus::Error, None, at(1), at(1));
    assert!(s.checked_words.contains("w"));
}

#[test]
fn needed_checks() {
    let mut s = state(true, true, true);
    for d in [DomainType::Eth, DomainType::Box, DomainType::Id] {
        assert!(s.needs_check("w", d));
        s.record_result_at("w", d, DomainStatus::Error, None, at(1), at(1));
        assert!(s.needs_check("w", d));
        s.record_result_at("w", d, DomainStatus::Taken, None, at(1), at(1));
        assert!(!s.needs_check("w", d));
        assert!(s.needs_check("other", d));
        s.record_result_at("w", d, DomainStatus::Available, None, at(1), at(1));
        assert!(!s.needs_check("w", d));
    }
}

#[test]
fn retry_queue_holds_one_entry_per_check() {
    let mut s = state(true, true, true);
    s.add_to_retry_queue(entry("a", DomainType::Eth, 1));
    s.add_to_retry_queue(entry("b", DomainType::Eth, 2));
    s.add_to_retry_queue(entry("a", DomainType::Box, 3));
    s.add_to_retry_queue(entry("a", DomainType::Eth, 4));
    assert_eq!(
        queue(&s),
        vec![
            ("b".to_string(), DomainType::Eth, 2),
            ("a".to_string(), DomainType::Box, 3),
            ("a".to_string(), DomainType::Eth, 4)
        ]
    );
    // A queue that was read from a file may hold entries about one check twice.
    s.retry_queue.push(entry("b", DomainType::Eth, 5));
    s.add_to_retry_queue(entry("b", DomainType::Eth, 6));
    assert_eq!(
        queue(&s),
        vec![
            ("a".to_string(), DomainType::Box, 3),
            ("a".to_string(), DomainType::Eth, 4),
            ("b".to_string(), DomainType::Eth, 6)
        ]
    );
}

#[test]
fn counts_over_a_state() {
    let mut s = state(true, true, true);
    let rows = [
        ("a", DomainType::Eth, DomainStatus::Available),
        ("b", DomainType::Eth, DomainStatus::Available),
        ("c", DomainType::Eth, DomainStatus::Taken),
        ("a", DomainType::Box, DomainStatus::Error),
        ("b", DomainType::Box, DomainStatus::Taken),
        ("c", DomainType::Box, DomainStatus::Taken),
        ("d", DomainType::Id, DomainStatus::Error),
        ("a", DomainType::Id, DomainStatus::Available),
    ];
    for (w, d, status) in rows {
        s.record_result_at(w, d, status, None, at(1), at(2));
    }
    s.add_to_retry_queue(entry("a", DomainType::Eth, 1));
    let t = s.get_stats();
    assert_eq!((t.total_words, t.checked_words, t.retry_queue_size), (3, 1, 1));
    assert_eq!((t.eth_available, t.eth_taken, t.eth_error), (2, 1, 0));
    assert_eq!((t.box_available, t.box_taken, t.box_error), (0, 2, 1));
    assert_eq!((t.id_available, t.id_taken, t.id_error), (1, 0, 1));
    assert_eq!((t.started_at, t.last_updated), (at(100), at(2)));
}

#[test]
fn saved_at_each_interval() {
    for interval in [1usize, 2, 10] {
        let mut m = CheckpointManager::new(state(true, true, true), interval);
        for n in 1..=35usize {
            let save = m.record_result_at(
                &format!("w{}", n),
                DomainType::Eth,
                DomainStatus::Taken,
                None,
                at(1),
                at(1),
            );
            assert_eq!(save, n % interval == 0);
        }
        assert_eq!(m.get_state().results.len(), 35);
    }
    let mut m = CheckpointManager::new(state(true, true, true), 0);
    assert!(m.record_result("w", DomainType::Eth, DomainStatus::Taken, None));
    assert!(m.record_result("v", DomainType::Eth, DomainStatus::Taken, None));
    assert!(!m.needs_check("w", DomainType::Eth));
    m.add_to_retry(entry("w", DomainType::Eth, 1));
    assert_eq!(queue(m.get_state()).len(), 1);
}

#[test]
fn handled_results() {
    let mut m = CheckpointManager::new(state(true, true, true), 2);
    let limited = CheckResult::Error(CheckError::RateLimited("slow".to_string()));
    assert!(!m.handle_result_at("w", DomainType::Box, &limited, at(1), at(2)));
    assert!(m.get_state().retry_queue.is_empty());
    m.queue_retry_at("w", DomainType::Box, &limited, at(302));
    let s = m.get_state();
    assert_eq!(s.retry_queue.len(), 1);
    let e = &s.retry_queue[0];
    assert_eq!((e.word.as_str(), e.domain_type, e.retry_count), ("w", DomainType::Box, 5));
    assert_eq!((e.next_retry_at, e.last_error.as_str()), (at(302), "Rate limited: slow"));
    let r = s.results.get("w").unwrap();
    assert_eq!(r.box_error.as_deref(), Some("Rate limited: slow"));
    let rpc = CheckResult::Error(CheckError::Rpc("x".to_string()));
    assert!(m.handle_result_at("w", DomainType::Eth, &rpc, at(1), at(2)));
    m.queue_retry_at("w", DomainType::Eth, &rpc, at(302));
    assert!(!m.handle_result_at("w", DomainType::Id, &limited, at(1), at(2)));
    m.queue_retry_at("w", DomainType::Id, &CheckResult::Available, at(302));
    assert!(m.handle_result("v", DomainType::Id, &CheckResult::Taken));
    m.queue_retry("v", DomainType::Id, &CheckResult::Taken);
    assert_eq!(m.get_state().retry_queue.len(), 1);
    assert!(m.get_state().checked_words.contains("w"));
}

#[test]
fn failed_checks_are_due_in_five_minutes() {
    let mut m = CheckpointManager::new(state(true, true, true), 10);
    let late = CheckResult::Error(CheckError::Timeout("t".to_string()));
    m.handle_result("w", DomainType::Eth, &late);
    let before = Timestamp::now();
    m.queue_retry("w", DomainType::Eth, &late);
    let after = Timestamp::now();
    let due = m.get_state().retry_queue[0].next_retry_at;
    assert!(before.secs() + 300 <= due.secs() && due.secs() <= after.secs() + 300);
}

#[test]
fn instants() {
    assert!(Timestamp::new(FIRST_SECOND, 0).is_some());
    assert!(Timestamp::new(FIRST_SECOND - 1, 0).is_none());
    assert!(Timestamp::new(LAST_SECOND, 1_999_999_999).is_some());
    assert!(Timestamp::new(LAST_SECOND + 1, 0).is_none());
    assert!(Timestamp::new(0, 999_999_999).is_some());
    assert!(Timestamp::new(0, 1_000_000_000).is_none());
    assert!(Timestamp::new(59, 1_000_000_000).is_some());
    assert!(Timestamp::new(-1, 1_000_000_000).is_some());
    assert!(Timestamp::new(59, 2_000_000_000).is_none());
    for (secs, nanos) in [(0i64, 0u32), (59, 1_500_000_000), (-1, 1_000_000_000), (LAST_SECOND, 5)] {
        assert!(chrono::DateTime::from_timestamp(secs, nanos).is_some());
    }
    assert!(chrono::DateTime::from_timestamp(LAST_SECOND + 1, 0).is_none());
    assert!(chrono::DateTime::from_timestamp(FIRST_SECOND - 1, 0).is_none());
}

#[test]
fn later_instants() {
    let t = Timestamp::new(59, 1_500_000_000).unwrap().after_minutes(5).unwrap();
    assert_eq!((t.secs(), t.nanos()), (359, 500_000_000));
    let t = Timestamp::new(-10, 3).unwrap().after_minutes(1).unwrap();
    assert_eq!((t.secs(), t.nanos()), (50, 3));
    assert!(at(LAST_SECOND - 299).after_minutes(5).is_none());
    assert_eq!(at(LAST_SECOND - 300).after_minutes(5), Some(at(LAST_SECOND)));
    assert!(at(0).after_minutes(u32::MAX).is_some());
}

#[test]
fn instants_as_text() {
    assert_eq!(at(0).report_text(), "1970-01-01 00:00:00 UTC");
    assert_eq!(at(1_431_648_000).report_text(), "2015-05-15 00:00:00 UTC");
    assert_eq!(Timestamp::new(59, 1_000_000_000).unwrap().report_text(), "1970-01-01 00:00:60 UTC");
}

#[test]
fn maps_and_sets_of_words() {
    let mut m: WordMap<WordResult> = WordMap::new();
    for w in ["b", "a", "c", "a"] {
        let mut r = WordResult::default();
        r.eth_error = Some(w.to_string());
        m.insert(w, r);
    }
    let mut last = WordResult::default();
    last.eth_error = Some("new".to_string());
    m.insert("a", last);
    assert_eq!(m.len(), 3);
    assert_eq!((m.word_at(0), m.word_at(1), m.word_at(2)), ("b", "a", "c"));
    assert_eq!(m.get("a").unwrap().eth_error.as_deref(), Some("new"));
    assert_eq!(m.value_at(2).clone().eth_error.as_deref(), Some("c"));
    assert_eq!((m.position("c"), m.position("d")), (Some(2), None));
    assert!(m.get("d").is_none());

    let mut s = WordSet::new();
    s.insert("x");
    s.insert("y");
    s.insert("x");
    assert_eq!((s.len(), s.word_at(0), s.word_at(1)), (2, "x", "y"));
    assert!(s.contains("y") && !s.contains("z"));
}

#[test]
fn cloned_states() {
    let mut s = state(true, false, false);
    for w in ["b", "a", "c"] {
        s.record_result_at(w, DomainType::Eth, DomainStatus::Taken, Some(w.to_string()), at(1), at(2));
    }
    s.add_to_retry_queue(entry("a", DomainType::Box, 4));
    let t = s.clone();
    s.record_result_at("d", DomainType::Eth, DomainStatus::Error, None, at(3), at(3));
    assert_eq!((t.results.len(), t.checked_words.len(), t.last_updated), (3, 3, at(2)));
    assert_eq!((t.results.word_at(0), t.results.word_at(1), t.results.word_at(2)), ("b", "a", "c"));
    assert_eq!(t.results.get("c").unwrap().eth_error.as_deref(), Some("c"));
    assert_eq!((t.checked_words.word_at(0), t.checked_words.word_at(2)), ("b", "c"));
    assert!(t.checked_words.contains("a") && !t.checked_words.contains("d"));
    assert_eq!(queue(&t), vec![("a".to_string(), DomainType::Box, 4)]);
    assert_eq!((t.version, t.total_words, t.wordlist_hash.as_str()), (1, 3, "hash"));
    assert_eq!((t.check_eth, t.check_box, t.check_id, t.started_at), (true, false, false, at(100)));
    let e = t.retry_queue[0].clone();
    assert_eq!((e.word.as_str(), e.next_retry_at, e.last_error.as_str()), ("a", at(7), "e4"));
}
