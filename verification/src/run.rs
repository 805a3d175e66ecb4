//! The course of a run: what it starts from, and what is checked next.
use vstd::prelude::*;
use vstd::utf8::encode_utf8;
use crate::checkpoint::{CheckpointState, DomainStatus, DomainType};
use crate::checkpoint::{CheckpointView, recorded_then_needs};
use crate::manager::CheckpointManager;
use crate::manager::ManagerView;
use crate::text::{decimal_text, same_text};
use crate::text::{decimal, texts};
use crate::timestamp::Timestamp;
use crate::timestamp::from_clock;
use crate::word_map::distinct_words;
use crate::wordlist::{CHECKPOINT_SAVE_INTERVAL, calculate_wordlist_hash};
use crate::wordlist::{hex, sha256, terminated};

verus! {

/// The domains under which words are looked up.
#[derive(Debug, Clone, Copy, PartialEq, Eq, Structural)]
pub struct Domains {
    pub check_eth: bool,
    pub check_box: bool,
    pub check_id: bool,
}

impl Domains {
    /// Words are looked up under that domain.
    pub open spec fn has(self, domain_type: DomainType) -> bool {
        match domain_type {
            DomainType::Eth => self.check_eth,
            DomainType::Box => self.check_box,
            DomainType::Id => self.check_id,
        }
    }
}

/// The domains that the user asked for: all of them if none was named.
pub open spec fn selected(eth: bool, box_domain: bool, id: bool) -> Domains {
    if eth || box_domain || id {
        Domains { check_eth: eth, check_box: box_domain, check_id: id }
    } else {
        Domains { check_eth: true, check_box: true, check_id: true }
    }
}

/// The domains that the user asked for: all of them if none was named.
pub fn select_domains(eth: bool, box_domain: bool, id: bool) -> (r: Domains)
    ensures
        r == selected(eth, box_domain, id),
{
    let any_specified = eth || box_domain || id;
    Domains {
        check_eth: eth || !any_specified,
        check_box: box_domain || !any_specified,
        check_id: id || !any_specified,
    }
}

/// Some domain is always selected.
pub proof fn some_domain_is_selected(eth: bool, box_domain: bool, id: bool)
    ensures
        exists|d: DomainType| #[trigger] selected(eth, box_domain, id).has(d),
{
    let r = selected(eth, box_domain, id);
    assert(r.has(DomainType::Eth) || r.has(DomainType::Box) || r.has(DomainType::Id));
}

/// If at least one domain is named, a domain is selected exactly if it is named
/// itself; if none is, all are. Words are looked up under a domain exactly if it is
/// selected.
pub proof fn named_domains_are_selected(eth: bool, box_domain: bool, id: bool)
    ensures
        ({
            let r = selected(eth, box_domain, id);
            &&& eth || box_domain || id ==> r.check_eth == eth && r.check_box == box_domain
                && r.check_id == id
            &&& !eth && !box_domain && !id ==> r.check_eth && r.check_box && r.check_id
            &&& r.has(DomainType::Eth) == r.check_eth
            &&& r.has(DomainType::Box) == r.check_box
            &&& r.has(DomainType::Id) == r.check_id
        }),
{
}

/// Whether a run goes on from the checkpoint file: only if that was asked for
/// and there is one.
pub fn continues(resume: bool, skip_existing: bool, checkpoint_exists: bool) -> (r: bool)
    ensures
        r == ((resume || skip_existing) && checkpoint_exists),
{
    (resume || skip_existing) && checkpoint_exists
}

/// The state of a run that goes on from `state` with a word list.
pub open spec fn resumed(
    state: CheckpointView,
    wordlist_hash: Seq<char>,
    total_words: usize,
) -> CheckpointView {
    if state.wordlist_hash == wordlist_hash {
        state
    } else {
        CheckpointView { wordlist_hash, total_words, ..state }
    }
}

/// What the user is told when a run goes on.
pub open spec fn resume_notice(
    state: CheckpointView,
    wordlist_hash: Seq<char>,
    skip_existing: bool,
) -> Seq<char> {
    let changed = if state.wordlist_hash == wordlist_hash {
        Seq::empty()
    } else if skip_existing {
        "Loading existing results, new wordlist detected.\n"@
    } else {
        "Warning: Wordlist has changed since last run.\n"@
    };
    changed + "Loaded checkpoint: "@ + decimal(state.checked_words.len())
        + " words already checked\n"@
}

/// Lets a run go on from `state` with a word list, and tells what to say.
pub fn resume_state(
    state: &mut CheckpointState,
    wordlist_hash: String,
    total_words: usize,
    skip_existing: bool,
) -> (r: String)
    requires
        old(state).wf(),
    ensures
        final(state).wf(),
        final(state)@ == resumed(old(state)@, wordlist_hash@, total_words),
        r@ == resume_notice(old(state)@, wordlist_hash@, skip_existing),
{
    let mut notice = String::new();
    if !same_text(state.wordlist_hash.as_str(), wordlist_hash.as_str()) {
        if skip_existing {
            notice.append("Loading existing results, new wordlist detected.\n");
        } else {
            notice.append("Warning: Wordlist has changed since last run.\n");
        }
        assert(notice@ =~= if skip_existing {
            "Loading existing results, new wordlist detected.\n"@
        } else {
            "Warning: Wordlist has changed since last run.\n"@
        });
        state.wordlist_hash = wordlist_hash;
        state.total_words = total_words;
    }
    let stats = state.get_stats();
    let number = decimal_text(stats.checked_words as u64);
    notice.append("Loaded checkpoint: ");
    notice.append(number.as_str());
    notice.append(" words already checked\n");
    notice
}

/// What a run starts from.
pub struct RunStart {
    pub manager: CheckpointManager,
    /// What the user is told.
    pub notice: String,
    /// The words that are to be checked.
    pub words: Vec<String>,
}

/// The identity of a word list.
pub open spec fn list_hash(words: Seq<Seq<char>>) -> Seq<char> {
    hex(sha256(encode_utf8(terminated(words))))
}

/// The state from which a run over a word list starts: that of the checkpoint
/// if there is one, or a fresh one.
pub open spec fn starting_state(
    words: Seq<Seq<char>>,
    checkpoint: Option<CheckpointView>,
    domains: Domains,
    now: Timestamp,
) -> CheckpointView {
    match checkpoint {
        Some(state) => resumed(state, list_hash(words), words.len() as usize),
        None => CheckpointView::fresh(
            list_hash(words),
            words.len() as usize,
            domains.check_eth,
            domains.check_box,
            domains.check_id,
            now,
        ),
    }
}

/// What the user is told when a run starts.
pub open spec fn start_notice(
    words: Seq<Seq<char>>,
    checkpoint: Option<CheckpointView>,
    skip_existing: bool,
) -> Seq<char> {
    match checkpoint {
        Some(state) => resume_notice(state, list_hash(words), skip_existing),
        None => "Starting fresh check...\n"@,
    }
}

/// The model of an optional state.
pub open spec fn opt_state(o: Option<CheckpointState>) -> Option<CheckpointView> {
    match o {
        Some(state) => Some(state@),
        None => None,
    }
}

/// Starts a run over a word list at `now`, from the checkpoint if there is one.
pub fn run_checker_at(
    words: &Vec<String>,
    checkpoint: Option<CheckpointState>,
    domains: Domains,
    skip_existing: bool,
    now: Timestamp,
) -> (r: RunStart)
    requires
        checkpoint matches Some(state) ==> state.wf(),
    ensures
        r.manager.wf(),
        r.manager@ == (ManagerView {
            state: starting_state(texts(words@), opt_state(checkpoint), domains, now),
            unsaved: 0,
            interval: CHECKPOINT_SAVE_INTERVAL as nat,
        }),
        r.notice@ == start_notice(texts(words@), opt_state(checkpoint), skip_existing),
        texts(r.words@) == remaining(r.manager@.state, texts(words@), domains),
{
    let wordlist_hash = calculate_wordlist_hash(words.as_slice());
    assert(texts(words@).len() == words.len());
    let (state, notice) = match checkpoint {
        Some(known) => {
            let mut state = known;
            let notice = resume_state(&mut state, wordlist_hash, words.len(), skip_existing);
            (state, notice)
        },
        None => {
            let state = CheckpointState::new_at(
                wordlist_hash,
                words.len(),
                domains.check_eth,
                domains.check_box,
                domains.check_id,
                now,
            );
            (state, "Starting fresh check...\n".to_owned())
        },
    };
    let todo = words_to_check(&state, words, domains);
    RunStart {
        manager: CheckpointManager::new(state, CHECKPOINT_SAVE_INTERVAL),
        notice,
        words: todo,
    }
}

/// Starts a run over a word list now, from the checkpoint if there is one.
pub fn run_checker(
    words: &Vec<String>,
    checkpoint: Option<CheckpointState>,
    domains: Domains,
    skip_existing: bool,
) -> (r: RunStart)
    requires
        checkpoint matches Some(state) ==> state.wf(),
    ensures
        r.manager.wf(),
        exists|now: Timestamp|
            from_clock(now) && r.manager@ == (ManagerView {
                state: #[trigger] starting_state(
                    texts(words@),
                    opt_state(checkpoint),
                    domains,
                    now,
                ),
                unsaved: 0,
                interval: CHECKPOINT_SAVE_INTERVAL as nat,
            }),
        r.notice@ == start_notice(texts(words@), opt_state(checkpoint), skip_existing),
        texts(r.words@) == remaining(r.manager@.state, texts(words@), domains),
{
    let now = Timestamp::now();
    run_checker_at(words, checkpoint, domains, skip_existing, now)
}

/// What the user is told of the words that are to be checked.
pub open spec fn remaining_text(n: nat) -> Seq<char> {
    if n == 0 {
        "All words have been checked!\n"@
    } else {
        decimal(n) + " words remaining to check\n"@
    }
}

/// What the user is told of the words that are to be checked.
pub fn remaining_notice(n: usize) -> (r: String)
    ensures
        r@ == remaining_text(n as nat),
{
    if n == 0 {
        "All words have been checked!\n".to_owned()
    } else {
        decimal_text(n as u64).concat(" words remaining to check\n")
    }
}

/// Going on with a word list changes nothing of what is known and to be checked.
pub proof fn resuming_keeps_results(
    state: CheckpointView,
    wordlist_hash: Seq<char>,
    total_words: usize,
    word: Seq<char>,
    domain_type: DomainType,
)
    ensures
        ({
            let after = resumed(state, wordlist_hash, total_words);
            &&& after.wordlist_hash == wordlist_hash
            &&& after.results == state.results
            &&& after.checked_words == state.checked_words
            &&& after.retry_queue == state.retry_queue
            &&& after.known(word) == state.known(word)
            &&& after.needs(word, domain_type) == state.needs(word, domain_type)
            &&& state.consistent() ==> after.consistent()
        }),
{
    let after = resumed(state, wordlist_hash, total_words);
    assert(forall|w: Seq<char>| after.known(w) == state.known(w));
    if state.consistent() {
        assert(forall|r| after.complete(r) == state.complete(r));
    }
}

/// A word is to be checked under one of the domains.
pub open spec fn wanted(state: CheckpointView, word: Seq<char>, domains: Domains) -> bool {
    exists|d: DomainType| #[trigger] domains.has(d) && state.needs(word, d)
}

/// The words that are to be checked, in order.
pub open spec fn remaining(
    state: CheckpointView,
    words: Seq<Seq<char>>,
    domains: Domains,
) -> Seq<Seq<char>>
    decreases words.len(),
{
    if words.len() == 0 {
        Seq::empty()
    } else if wanted(state, words.last(), domains) {
        remaining(state, words.drop_last(), domains).push(words.last())
    } else {
        remaining(state, words.drop_last(), domains)
    }
}

/// Whether a word is to be checked under one of the domains.
fn is_wanted(state: &CheckpointState, word: &str, domains: Domains) -> (r: bool)
    requires
        state.wf(),
    ensures
        r == wanted(state@, word@, domains),
{
    let needs_eth = domains.check_eth && state.needs_check(word, DomainType::Eth);
    let needs_box = domains.check_box && state.needs_check(word, DomainType::Box);
    let needs_id = domains.check_id && state.needs_check(word, DomainType::Id);
    proof {
        assert(domains.has(DomainType::Eth) == domains.check_eth);
        assert(domains.has(DomainType::Box) == domains.check_box);
        assert(domains.has(DomainType::Id) == domains.check_id);
    }
    needs_eth || needs_box || needs_id
}

/// The words of a word list that are to be checked, in order.
pub fn words_to_check(state: &CheckpointState, words: &Vec<String>, domains: Domains) -> (r: Vec<
    String,
>)
    requires
        state.wf(),
    ensures
        texts(r@) == remaining(state@, texts(words@), domains),
{
    let mut out: Vec<String> = Vec::new();
    let mut i: usize = 0;
    assert(texts(words@).take(0) =~= Seq::empty());
    assert(texts(out@) =~= Seq::empty());
    while i < words.len()
        invariant
            i <= words.len(),
            state.wf(),
            texts(out@) == remaining(state@, texts(words@).take(i as int), domains),
        decreases words.len() - i,
    {
        let ghost before = texts(out@);
        proof {
            assert(texts(words@).take(i + 1).drop_last() =~= texts(words@).take(i as int));
            assert(texts(words@).take(i + 1).last() == words@[i as int]@);
        }
        if is_wanted(state, words[i].as_str(), domains) {
            out.push(words[i].clone());
            assert(texts(out@) =~= before.push(words@[i as int]@));
        }
        i = i + 1;
    }
    assert(texts(words@).take(i as int) =~= texts(words@));
    out
}

/// A word remains exactly if it is in the list and is to be checked under one
/// of the domains. Nothing remains once every word of the list has a status
/// other than an error under each of the domains.
pub proof fn remaining_are_wanted(
    state: CheckpointView,
    words: Seq<Seq<char>>,
    domains: Domains,
    word: Seq<char>,
)
    ensures
        remaining(state, words, domains).contains(word) <==> words.contains(word) && wanted(
            state,
            word,
            domains,
        ),
        remaining(state, words, domains).len() == 0 <==> forall|i: int, d: DomainType|
            0 <= i < words.len() && #[trigger] domains.has(d) ==> !state.needs(
                #[trigger] words[i],
                d,
            ),
    decreases words.len(),
{
    if words.len() > 0 {
        let before = words.drop_last();
        remaining_are_wanted(state, before, domains, word);
        let r = remaining(state, words, domains);
        let rb = remaining(state, before, domains);
        let last = words.last();
        assert(words[words.len() - 1] == last);
        if words.contains(word) && wanted(state, word, domains) {
            let i = choose|i: int| 0 <= i < words.len() && words[i] == word;
            if i < before.len() {
                assert(before[i] == word);
                let j = choose|j: int| 0 <= j < rb.len() && rb[j] == word;
                assert(r[j] == word);
            } else {
                assert(r[r.len() - 1] == word);
            }
        }
        if r.contains(word) {
            let j = choose|j: int| 0 <= j < r.len() && r[j] == word;
            if j < rb.len() {
                assert(rb[j] == word);
                let i = choose|i: int| 0 <= i < before.len() && before[i] == word;
                assert(words[i] == word);
            }
        }
        if r.len() == 0 {
            assert forall|i: int, d: DomainType|
                0 <= i < words.len() && #[trigger] domains.has(d) implies !state.needs(
                #[trigger] words[i],
                d,
            ) by {
                if i < before.len() {
                    assert(words[i] == before[i]);
                }
            }
        } else if forall|i: int, d: DomainType|
            0 <= i < words.len() && #[trigger] domains.has(d) ==> !state.needs(
                #[trigger] words[i],
                d,
            ) {
            assert forall|i: int, d: DomainType|
                0 <= i < before.len() && #[trigger] domains.has(d) implies !state.needs(
                #[trigger] before[i],
                d,
            ) by {
                assert(words[i] == before[i]);
            }
        }
    }
}

/// The place of a domain in the order of checks.
pub open spec fn turn(domain_type: DomainType) -> int {
    match domain_type {
        DomainType::Eth => 0,
        DomainType::Box => 1,
        DomainType::Id => 2,
    }
}

/// The turns that are over once `after` has had its turn.
pub open spec fn turns_over(after: Option<DomainType>) -> int {
    match after {
        Some(d) => turn(d) + 1,
        None => 0,
    }
}

/// A domain's turn is still to come, and the word is to be checked under it.
pub open spec fn is_open(
    state: CheckpointView,
    word: Seq<char>,
    domains: Domains,
    after: Option<DomainType>,
    d: DomainType,
) -> bool {
    turn(d) >= turns_over(after) && domains.has(d) && state.needs(word, d)
}

/// `next` is the domain whose turn comes next: the first that is open.
pub open spec fn is_next(
    state: CheckpointView,
    word: Seq<char>,
    domains: Domains,
    after: Option<DomainType>,
    next: Option<DomainType>,
) -> bool {
    match next {
        None => forall|d: DomainType| !#[trigger] is_open(state, word, domains, after, d),
        Some(n) => {
            &&& is_open(state, word, domains, after, n)
            &&& forall|d: DomainType| #[trigger]
                is_open(state, word, domains, after, d) ==> turn(n) <= turn(d)
        },
    }
}

/// The domain under which a word is to be checked next, given the one that had
/// its turn last: `.eth`, then `.box`, then `.id`, leaving out those that were
/// not asked for and those under which it needs no check.
pub fn next_domain(
    state: &CheckpointState,
    word: &str,
    domains: Domains,
    after: Option<DomainType>,
) -> (r: Option<DomainType>)
    requires
        state.wf(),
    ensures
        is_next(state@, word@, domains, after, r),
{
    let over: u8 = match after {
        None => 0,
        Some(DomainType::Eth) => 1,
        Some(DomainType::Box) => 2,
        Some(DomainType::Id) => 3,
    };
    if over == 0 && domains.check_eth && state.needs_check(word, DomainType::Eth) {
        assert(is_open(state@, word@, domains, after, DomainType::Eth));
        return Some(DomainType::Eth);
    }
    if over <= 1 && domains.check_box && state.needs_check(word, DomainType::Box) {
        assert(is_open(state@, word@, domains, after, DomainType::Box));
        return Some(DomainType::Box);
    }
    if over <= 2 && domains.check_id && state.needs_check(word, DomainType::Id) {
        assert(is_open(state@, word@, domains, after, DomainType::Id));
        return Some(DomainType::Id);
    }
    None
}

/// A word has a domain whose turn comes first exactly if it is to be checked
/// under one of the domains, and no domain has a second turn.
pub proof fn turns_come_once(
    state: CheckpointView,
    word: Seq<char>,
    domains: Domains,
    after: DomainType,
)
    ensures
        wanted(state, word, domains) <==> exists|d: DomainType| #[trigger]
            is_open(state, word, domains, None, d),
        forall|d: DomainType| #[trigger]
            is_open(state, word, domains, Some(after), d) ==> turn(d) > turn(after) && is_open(
                state,
                word,
                domains,
                None,
                d,
            ),
{
    if wanted(state, word, domains) {
        let d = choose|d: DomainType| #[trigger] domains.has(d) && state.needs(word, d);
        assert(is_open(state, word, domains, None, d));
    }
    if exists|d: DomainType| #[trigger] is_open(state, word, domains, None, d) {
        let d = choose|d: DomainType| #[trigger] is_open(state, word, domains, None, d);
        assert(domains.has(d));
    }
}

/// A check that gave a result is not made again, neither in this run nor in one
/// that goes on from its state, whatever its word list.
pub proof fn finished_checks_are_not_repeated(
    state: CheckpointView,
    word: Seq<char>,
    domain_type: DomainType,
    status: DomainStatus,
    error: Option<Seq<char>>,
    checked_at: Timestamp,
    updated_at: Timestamp,
    wordlist_hash: Seq<char>,
    total_words: usize,
    domains: Domains,
    after: Option<DomainType>,
)
    requires
        distinct_words(state.results),
        status != DomainStatus::Error,
    ensures
        ({
            let done = state.recorded(word, domain_type, status, error, checked_at, updated_at);
            let later = resumed(done, wordlist_hash, total_words);
            &&& !is_open(done, word, domains, after, domain_type)
            &&& !is_open(later, word, domains, after, domain_type)
        }),
{
    let done = state.recorded(word, domain_type, status, error, checked_at, updated_at);
    recorded_then_needs(
        state,
        word,
        domain_type,
        status,
        error,
        checked_at,
        updated_at,
        word,
        domain_type,
    );
    resuming_keeps_results(done, wordlist_hash, total_words, word, domain_type);
}

/// A run that goes on keeps its state as it is if the word list is the one it had;
/// otherwise it takes over the identity and the length of the new list, and keeps
/// all else.
pub proof fn resuming_changes_the_list_alone(
    state: CheckpointView,
    wordlist_hash: Seq<char>,
    total_words: usize,
)
    ensures
        ({
            let after = resumed(state, wordlist_hash, total_words);
            &&& state.wordlist_hash == wordlist_hash ==> after == state
            &&& state.wordlist_hash != wordlist_hash ==> after.total_words == total_words
            &&& after.wordlist_hash == wordlist_hash
            &&& after == (CheckpointView {
                wordlist_hash: after.wordlist_hash,
                total_words: after.total_words,
                ..state
            })
        }),
{
}

/// The model of an optional state is that of the state, if there is one. The state
/// of a run is due to be written with every tenth result.
pub proof fn optional_states(state: CheckpointState)
    ensures
        opt_state(Some(state)) == Some(state@),
        opt_state(None) is None,
        CHECKPOINT_SAVE_INTERVAL == 10,
{
}

/// What a run starts from: the state of the checkpoint if there is one, with the
/// list that is to be checked; otherwise a state that knows nothing, with that list,
/// the domains that were asked for, and the present instant.
pub proof fn where_runs_start(
    words: Seq<Seq<char>>,
    checkpoint: Option<CheckpointView>,
    domains: Domains,
    now: Timestamp,
)
    requires
        words.len() <= usize::MAX,
    ensures
        ({
            let s = starting_state(words, checkpoint, domains, now);
            &&& s.wordlist_hash == list_hash(words)
            &&& list_hash(words) == hex(sha256(encode_utf8(terminated(words))))
            &&& checkpoint matches Some(known) ==> {
                &&& s.results == known.results && s.checked_words == known.checked_words
                &&& s.retry_queue == known.retry_queue && s.started_at == known.started_at
                &&& s.last_updated == known.last_updated && s.version == known.version
                &&& s.wordlist_url == known.wordlist_url
                &&& s.check_eth == known.check_eth && s.check_box == known.check_box
                    && s.check_id == known.check_id
                &&& known.wordlist_hash == s.wordlist_hash ==> s.total_words == known.total_words
                &&& known.wordlist_hash != s.wordlist_hash ==> s.total_words == words.len()
            }
            &&& checkpoint is None ==> {
                &&& s.total_words == words.len() && s.version == 1 && s.wordlist_url is None
                &&& s.results.len() == 0 && s.retry_queue.len() == 0
                &&& s.checked_words == Set::<Seq<char>>::empty()
                &&& s.check_eth == domains.check_eth && s.check_box == domains.check_box
                    && s.check_id == domains.check_id
                &&& s.started_at == now && s.last_updated == now
            }
        }),
{
}

/// What the user is told at the start: that the run is a fresh one, or that the list
/// is another than before, if it is, and how many words are checked already. And how
/// many words remain.
pub proof fn notices_at_the_start(
    words: Seq<Seq<char>>,
    known: CheckpointView,
    skip_existing: bool,
    n: nat,
)
    ensures
        start_notice(words, None, skip_existing) == "Starting fresh check...\n"@,
        ({
            let already = "Loaded checkpoint: "@ + decimal(known.checked_words.len())
                + " words already checked\n"@;
            start_notice(words, Some(known), skip_existing) == if known.wordlist_hash
                == list_hash(words) {
                already
            } else if skip_existing {
                "Loading existing results, new wordlist detected.\n"@ + already
            } else {
                "Warning: Wordlist has changed since last run.\n"@ + already
            }
        }),
        remaining_text(n) == if n == 0 {
            "All words have been checked!\n"@
        } else {
            decimal(n) + " words remaining to check\n"@
        },
{
    let already = "Loaded checkpoint: "@ + decimal(known.checked_words.len())
        + " words already checked\n"@;
    assert(start_notice(words, Some(known), skip_existing) =~= if known.wordlist_hash == list_hash(
        words,
    ) {
        already
    } else if skip_existing {
        "Loading existing results, new wordlist detected.\n"@ + already
    } else {
        "Warning: Wordlist has changed since last run.\n"@ + already
    });
}

/// Words are picked one by one and in order, as often as the list holds them: those
/// that are to be checked under a domain that was asked for.
pub proof fn words_are_picked_one_by_one(
    state: CheckpointView,
    a: Seq<Seq<char>>,
    b: Seq<Seq<char>>,
    word: Seq<char>,
    domains: Domains,
)
    ensures
        remaining(state, a + b, domains) == remaining(state, a, domains) + remaining(
            state,
            b,
            domains,
        ),
        remaining(state, Seq::empty(), domains) == Seq::<Seq<char>>::empty(),
        remaining(state, seq![word], domains) == if {
            ||| domains.check_eth && state.needs(word, DomainType::Eth)
            ||| domains.check_box && state.needs(word, DomainType::Box)
            ||| domains.check_id && state.needs(word, DomainType::Id)
        } {
            seq![word]
        } else {
            Seq::empty()
        },
    decreases b.len(),
{
    let one = seq![word];
    assert(one.drop_last() =~= Seq::<Seq<char>>::empty());
    assert(remaining(state, one.drop_last(), domains) =~= Seq::<Seq<char>>::empty());
    assert(domains.has(DomainType::Eth) == domains.check_eth);
    assert(domains.has(DomainType::Box) == domains.check_box);
    assert(domains.has(DomainType::Id) == domains.check_id);
    assert(remaining(state, one, domains) =~= if wanted(state, word, domains) {
        one
    } else {
        Seq::empty()
    });
    if b.len() == 0 {
        assert(a + b =~= a);
        assert(remaining(state, a, domains) + remaining(state, b, domains) =~= remaining(
            state,
            a,
            domains,
        ));
    } else {
        words_are_picked_one_by_one(state, a, b.drop_last(), word, domains);
        assert((a + b).drop_last() =~= a + b.drop_last());
        assert((a + b).last() == b.last());
        assert(remaining(state, a + b, domains) =~= remaining(state, a, domains) + remaining(
            state,
            b,
            domains,
        ));
    }
}

/// The domain that comes next is the first of `.eth`, `.box` and `.id`, in this
/// order and behind the one that came last, that was asked for and under which the
/// word is to be checked; there is none exactly if no such domain is left.
pub proof fn order_of_domains(
    state: CheckpointView,
    word: Seq<char>,
    domains: Domains,
    after: Option<DomainType>,
    next: Option<DomainType>,
)
    requires
        is_next(state, word, domains, after, next),
    ensures
        ({
            let eth = after is None && domains.check_eth && state.needs(word, DomainType::Eth);
            let box_domain = (after is None || after == Some(DomainType::Eth)) && domains.check_box
                && state.needs(word, DomainType::Box);
            let id = after != Some(DomainType::Id) && domains.check_id && state.needs(
                word,
                DomainType::Id,
            );
            &&& eth <==> next == Some(DomainType::Eth)
            &&& !eth && box_domain <==> next == Some(DomainType::Box)
            &&& !eth && !box_domain && id <==> next == Some(DomainType::Id)
            &&& !eth && !box_domain && !id <==> next is None
        }),
{
    assert(is_open(state, word, domains, after, DomainType::Eth) ==> next == Some(DomainType::Eth));
    assert(is_open(state, word, domains, after, DomainType::Box) ==> next is Some);
    assert(is_open(state, word, domains, after, DomainType::Id) ==> next is Some);
}

} // verus!
