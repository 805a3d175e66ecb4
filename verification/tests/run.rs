use pretty_ens::checker::{CheckError, CheckResult};
use pretty_ens::checkpoint::{CheckpointState, DomainStatus, DomainType};
use pretty_ens::run::{
    continues, next_domain, remaining_notice, resume_state, run_checker, run_checker_at,
    select_domains, words_to_check, Domains,
};
use pretty_ens::timestamp::Timestamp;
use pretty_ens::word_run::{PerDomain, WordRun, WordStep};
use pretty_ens::wordlist::calculate_wordlist_hash;

fn at(secs: i64) -> Timestamp {
    Timestamp::new(secs, 0).unwrap()
}

fn list(words: &[&str]) -> Vec<String> {
    words.iter().map(|w| w.to_string()).collect()
}

fn domains(check_eth: bool, check_box: bool, check_id: bool) -> Domains {
    Domains { check_eth, check_box, check_id }
}

#[test]
fn selected_domains() {
    assert_eq!(select_domains(false, false, false), domains(true, true, true));
    assert_eq!(select_domains(true, false, false), domains(true, false, false));
    assert_eq!(select_domains(false, true, true), domains(false, true, true));
}

#[test]
fn runs_that_go_on() {
    assert!(continues(true, false, true) && continues(false, true, true));
    assert!(!continues(false, false, true) && !continues(true, true, false));
}

#[test]
fn fresh_runs() {
    let words = list(&["a", "b"]);
    let start = run_checker_at(&words, None, domains(true, false, true), false, at(9));
    assert_eq!(start.notice, "Starting fresh check...\n");
    assert_eq!(start.words, words);
    let s = start.manager.get_state();
    assert_eq!(s.wordlist_hash, calculate_wordlist_hash(&words));
    assert_eq!((s.total_words, s.started_at), (2, at(9)));
    assert_eq!((s.check_eth, s.check_box, s.check_id), (true, false, true));
    let start = run_checker(&words, None, domains(true, true, true), true);
    assert!(start.manager.get_state().started_at.secs() > 1_600_000_000);
}

fn checkpoint(hash: &str) -> CheckpointState {
    let mut s = CheckpointState::new_at(hash.to_string(), 7, true, false, false, at(1));
    s.record_result_at("a", DomainType::Eth, DomainStatus::Taken, None, at(2), at(2));
    s.record_result_at("b", DomainType::Eth, DomainStatus::Error, None, at(2), at(2));
    s
}

#[test]
fn resumed_runs() {
    let words = list(&["c", "a", "b"]);
    let only_eth = domains(true, false, false);
    let start = run_checker_at(&words, Some(checkpoint("old")), only_eth, false, at(9));
    assert_eq!(
        start.notice,
        "Warning: Wordlist has changed since last run.\nLoaded checkpoint: 2 words already checked\n"
    );
    assert_eq!(start.words, list(&["c", "b"]));
    let s = start.manager.get_state();
    assert_eq!((s.total_words, s.started_at, s.results.len()), (3, at(1), 2));
    assert_eq!(s.wordlist_hash, calculate_wordlist_hash(&words));

    let start = run_checker_at(&words, Some(checkpoint("old")), only_eth, true, at(9));
    assert_eq!(
        start.notice,
        "Loading existing results, new wordlist detected.\nLoaded checkpoint: 2 words already checked\n"
    );
    let mut same = checkpoint("same");
    let notice = resume_state(&mut same, "same".to_string(), 3, true);
    assert_eq!(notice, "Loaded checkpoint: 2 words already checked\n");
    assert_eq!(same.total_words, 7);
}

#[test]
fn words_that_remain() {
    let s = checkpoint("x");
    let words = list(&["b", "a", "c", "b"]);
    assert_eq!(words_to_check(&s, &words, domains(true, false, false)), list(&["b", "c", "b"]));
    assert_eq!(words_to_check(&s, &words, domains(false, true, false)), words);
    assert!(words_to_check(&s, &list(&["a"]), domains(true, false, false)).is_empty());
    assert!(words_to_check(&s, &words, domains(false, false, false)).is_empty());
    assert_eq!(remaining_notice(0), "All words have been checked!\n");
    assert_eq!(remaining_notice(12), "12 words remaining to check\n");
}

#[test]
fn turns_of_domains() {
    let s = checkpoint("x");
    let all = domains(true, true, true);
    assert_eq!(next_domain(&s, "c", all, None), Some(DomainType::Eth));
    assert_eq!(next_domain(&s, "c", all, Some(DomainType::Eth)), Some(DomainType::Box));
    assert_eq!(next_domain(&s, "c", all, Some(DomainType::Box)), Some(DomainType::Id));
    assert_eq!(next_domain(&s, "c", all, Some(DomainType::Id)), None);
    assert_eq!(next_domain(&s, "a", all, None), Some(DomainType::Box));
    assert_eq!(next_domain(&s, "b", all, None), Some(DomainType::Eth));
    assert_eq!(next_domain(&s, "a", domains(true, false, true), None), Some(DomainType::Id));
    assert_eq!(next_domain(&s, "a", domains(true, false, false), None), None);
}

fn unreachable_server() -> CheckResult {
    CheckResult::Error(CheckError::Connection("c".to_string()))
}

fn ask(run: &mut WordRun) -> DomainType {
    run.permitted();
    run.request()
}

#[test]
fn requests_take_up_permits() {
    let all = domains(false, true, true);
    let mut manager = run_checker_at(&list(&["w"]), None, all, false, at(9)).manager;
    let mut run = WordRun::process_word(&manager, "w".to_string(), all);
    let none = PerDomain { eth: 0, box_domain: 0, id: 0 };
    assert_eq!((run.permits(), run.requests()), (none, none));
    run.permitted();
    assert_eq!((run.permits(), run.requests()), (PerDomain { box_domain: 1, ..none }, none));
    assert_eq!(run.request(), DomainType::Box);
    assert_eq!(run.requests(), PerDomain { box_domain: 1, ..none });
    run.answered(&mut manager, unreachable_server());
    assert_eq!(run.requests(), PerDomain { box_domain: 1, ..none });
    ask(&mut run);
    run.answered(&mut manager, CheckResult::Taken);
    assert_eq!(run.proceed(&mut manager), Some(DomainType::Id));
    run.permitted();
    assert_eq!(run.permits(), PerDomain { eth: 0, box_domain: 2, id: 1 });
    assert_eq!(run.requests(), PerDomain { eth: 0, box_domain: 2, id: 0 });
}

#[test]
fn other_domains_keep_what_they_had() {
    let mut s = checkpoint("x");
    s.record_result_at("b", DomainType::Id, DomainStatus::Error, Some("old".to_string()), at(3), at(3));
    let words = list(&["b"]);
    let only = domains(true, true, false);
    let mut manager = run_checker_at(&words, Some(s), only, true, at(9)).manager;
    let mut run = WordRun::process_word(&manager, "b".to_string(), only);
    while run.current().is_some() {
        let result = match ask(&mut run) {
            DomainType::Eth => CheckResult::Available,
            _ => CheckResult::Error(CheckError::Rpc("r".to_string())),
        };
        run.answered(&mut manager, result);
        run.proceed(&mut manager);
    }
    let r = manager.get_state().results.get("b").unwrap();
    assert_eq!((r.eth_status, r.eth_error.as_deref()), (Some(DomainStatus::Available), None));
    assert_eq!(
        (r.box_status, r.box_error.as_deref()),
        (Some(DomainStatus::Error), Some("RPC error: r"))
    );
    assert_eq!((r.id_status, r.id_error.as_deref()), (Some(DomainStatus::Error), Some("old")));
}

#[test]
fn course_of_a_word() {
    let words = list(&["w"]);
    let all = domains(true, true, true);
    let mut manager = run_checker_at(&words, None, all, false, at(9)).manager;
    let mut run = WordRun::process_word(&manager, "w".to_string(), all);
    assert_eq!((run.word(), run.current()), ("w", Some(DomainType::Eth)));
    assert_eq!(ask(&mut run), DomainType::Eth);
    assert!(matches!(
        run.answered(&mut manager, CheckResult::Taken),
        WordStep::Recorded { save: false }
    ));
    assert_eq!(run.current(), Some(DomainType::Eth));
    assert!(!manager.needs_check("w", DomainType::Eth));
    assert_eq!(run.proceed(&mut manager), Some(DomainType::Box));
    for n in 0..5u32 {
        assert_eq!(run.retries(), n);
        assert_eq!(ask(&mut run), DomainType::Box);
        assert!(matches!(run.answered(&mut manager, unreachable_server()), WordStep::Again(_)));
        assert_eq!(run.current(), Some(DomainType::Box));
        assert_eq!(manager.get_state().results.get("w").unwrap().box_status, None);
    }
    ask(&mut run);
    assert!(matches!(
        run.answered(&mut manager, unreachable_server()),
        WordStep::Recorded { save: false }
    ));
    assert!(manager.get_state().retry_queue.is_empty());
    assert_eq!(run.proceed(&mut manager), Some(DomainType::Id));
    assert_eq!(run.retries(), 0);
    assert_eq!(manager.get_state().retry_queue.len(), 1);
    assert_eq!(ask(&mut run), DomainType::Id);
    assert!(matches!(
        run.answered(&mut manager, CheckResult::Available),
        WordStep::Recorded { save: false }
    ));
    assert_eq!(run.proceed(&mut manager), None);
    assert_eq!(manager.get_state().retry_queue.len(), 1);
    assert_eq!(run.current(), None);
    assert_eq!(run.requests(), PerDomain { eth: 1, box_domain: 6, id: 1 });
    assert_eq!(run.permits(), run.requests());
    let s = manager.get_state();
    assert!(s.checked_words.contains("w"));
    let r = s.results.get("w").unwrap();
    assert_eq!(
        (r.eth_status, r.box_status, r.id_status),
        (Some(DomainStatus::Taken), Some(DomainStatus::Error), Some(DomainStatus::Available))
    );
    assert!(s.needs_check("w", DomainType::Box));
    assert!(!s.needs_check("w", DomainType::Eth) && !s.needs_check("w", DomainType::Id));
    assert_eq!(words_to_check(s, &words, all), words);
    assert_eq!(next_domain(s, "w", all, None), Some(DomainType::Box));
    let mut run = WordRun::process_word(&manager, "w".to_string(), domains(true, false, true));
    assert_eq!(run.current(), None);
    run = WordRun::process_word(&manager, "w".to_string(), all);
    assert_eq!(run.current(), Some(DomainType::Box));
}
