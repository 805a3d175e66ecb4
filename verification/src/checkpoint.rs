//! What is known so far: the results of a run, and what is to be tried again.
use vstd::prelude::*;
use crate::timestamp::Timestamp;
use crate::timestamp::from_clock;
use crate::text::same_text;
use crate::word_map::{WordMap, WordSet};
use crate::word_map::{distinct_words, has_word, lookup, place_of, put, put_then_lookup};

verus! {

/// What a check found out.
#[derive(Debug, Clone, Copy, PartialEq, Eq, Structural)]
pub enum DomainStatus {
    Available,
    Taken,
    Error,
}

impl DomainStatus {
    /// The status in a word.
    pub open spec fn text(self) -> Seq<char> {
        match self {
            DomainStatus::Available => "available"@,
            DomainStatus::Taken => "taken"@,
            DomainStatus::Error => "error"@,
        }
    }

    /// The status in a word.
    pub fn as_str(&self) -> (r: &'static str)
        ensures
            r@ == self.text(),
    {
        match self {
            DomainStatus::Available => "available",
            DomainStatus::Taken => "taken",
            DomainStatus::Error => "error",
        }
    }
}

/// The domains under which a word is looked up.
#[derive(Debug, Clone, Copy, PartialEq, Eq, Hash, Structural)]
pub enum DomainType {
    Eth,
    Box,
    Id,
}

impl DomainType {
    /// The name of the domain.
    pub open spec fn text(self) -> Seq<char> {
        match self {
            DomainType::Eth => "eth"@,
            DomainType::Box => "box"@,
            DomainType::Id => "id"@,
        }
    }

    /// The name of the domain.
    pub fn as_str(&self) -> (r: &'static str)
        ensures
            r@ == self.text(),
    {
        match self {
            DomainType::Eth => "eth",
            DomainType::Box => "box",
            DomainType::Id => "id",
        }
    }
}

/// The characters of a text, if there is one.
pub open spec fn opt_text(o: Option<String>) -> Option<Seq<char>> {
    match o {
        Some(s) => Some(s@),
        None => None,
    }
}

/// What is known of a word.
#[derive(Debug)]
pub struct WordResult {
    pub eth_status: Option<DomainStatus>,
    pub box_status: Option<DomainStatus>,
    pub id_status: Option<DomainStatus>,
    pub eth_error: Option<String>,
    pub box_error: Option<String>,
    pub id_error: Option<String>,
    pub checked_at: Option<Timestamp>,
}

/// The model of a [`WordResult`].
pub ghost struct WordResultView {
    pub eth_status: Option<DomainStatus>,
    pub box_status: Option<DomainStatus>,
    pub id_status: Option<DomainStatus>,
    pub eth_error: Option<Seq<char>>,
    pub box_error: Option<Seq<char>>,
    pub id_error: Option<Seq<char>>,
    pub checked_at: Option<Timestamp>,
}

impl View for WordResult {
    type V = WordResultView;

    open spec fn view(&self) -> WordResultView {
        WordResultView {
            eth_status: self.eth_status,
            box_status: self.box_status,
            id_status: self.id_status,
            eth_error: opt_text(self.eth_error),
            box_error: opt_text(self.box_error),
            id_error: opt_text(self.id_error),
            checked_at: self.checked_at,
        }
    }
}

impl WordResultView {
    /// What is known of a word that was never checked.
    pub open spec fn blank() -> WordResultView {
        WordResultView {
            eth_status: None,
            box_status: None,
            id_status: None,
            eth_error: None,
            box_error: None,
            id_error: None,
            checked_at: None,
        }
    }

    /// The status under a domain.
    pub open spec fn status(self, domain_type: DomainType) -> Option<DomainStatus> {
        match domain_type {
            DomainType::Eth => self.eth_status,
            DomainType::Box => self.box_status,
            DomainType::Id => self.id_status,
        }
    }

    /// The error under a domain.
    pub open spec fn error(self, domain_type: DomainType) -> Option<Seq<char>> {
        match domain_type {
            DomainType::Eth => self.eth_error,
            DomainType::Box => self.box_error,
            DomainType::Id => self.id_error,
        }
    }

    /// What is known after a check under a domain.
    pub open spec fn with(
        self,
        domain_type: DomainType,
        status: DomainStatus,
        error: Option<Seq<char>>,
        at: Timestamp,
    ) -> WordResultView {
        match domain_type {
            DomainType::Eth => WordResultView {
                eth_status: Some(status),
                eth_error: error,
                checked_at: Some(at),
                ..self
            },
            DomainType::Box => WordResultView {
                box_status: Some(status),
                box_error: error,
                checked_at: Some(at),
                ..self
            },
            DomainType::Id => WordResultView {
                id_status: Some(status),
                id_error: error,
                checked_at: Some(at),
                ..self
            },
        }
    }
}

impl Default for WordResult {
    fn default() -> (r: WordResult)
        ensures
            r@ == WordResultView::blank(),
    {
        WordResult {
            eth_status: None,
            box_status: None,
            id_status: None,
            eth_error: None,
            box_error: None,
            id_error: None,
            checked_at: None,
        }
    }
}

impl Clone for WordResult {
    fn clone(&self) -> (r: WordResult)
        ensures
            r@ == self@,
    {
        WordResult {
            eth_status: self.eth_status,
            box_status: self.box_status,
            id_status: self.id_status,
            eth_error: self.eth_error.clone(),
            box_error: self.box_error.clone(),
            id_error: self.id_error.clone(),
            checked_at: self.checked_at,
        }
    }
}

impl Clone for WordMap<WordResult> {
    fn clone(&self) -> (r: WordMap<WordResult>)
        ensures
            r.wf(),
            self.wf() ==> r@ == self@,
    {
        let mut r: WordMap<WordResult> = WordMap::new();
        let n: usize = self.len();
        let mut i: usize = 0;
        assert(r@ =~= self@.take(0));
        while i < n
            invariant
                i <= n,
                n == self@.len(),
                r.wf(),
                self.wf() ==> r@ == self@.take(i as int),
            decreases n - i,
        {
            let word = self.word_at(i);
            let result = self.value_at(i).clone();
            let ghost before = r@;
            r.insert(word, result);
            proof {
                if self.wf() {
                    self.wf_distinct();
                    if has_word(before, word@) {
                        let p = place_of(before, word@);
                        assert(self@[p].0 == self@[i as int].0);
                    }
                    assert(r@ =~= self@.take(i + 1));
                }
            }
            i = i + 1;
        }
        assert(self@.take(i as int) =~= self@);
        r
    }
}

/// The model of a result holds what the result holds. The status and the error
/// under a domain are those in the domain's own fields, and a word that was never
/// checked has none.
pub proof fn fields_of_results(r: WordResult, v: WordResultView)
    ensures
        r@.eth_status == r.eth_status && r@.box_status == r.box_status && r@.id_status
            == r.id_status,
        r@.eth_error == opt_text(r.eth_error) && r@.box_error == opt_text(r.box_error)
            && r@.id_error == opt_text(r.id_error),
        r@.checked_at == r.checked_at,
        opt_text(None) is None,
        forall|s: String| #[trigger] opt_text(Some(s)) == Some(s@),
        v.status(DomainType::Eth) == v.eth_status && v.error(DomainType::Eth) == v.eth_error,
        v.status(DomainType::Box) == v.box_status && v.error(DomainType::Box) == v.box_error,
        v.status(DomainType::Id) == v.id_status && v.error(DomainType::Id) == v.id_error,
        WordResultView::blank().eth_status is None && WordResultView::blank().eth_error is None,
        WordResultView::blank().box_status is None && WordResultView::blank().box_error is None,
        WordResultView::blank().id_status is None && WordResultView::blank().id_error is None,
        WordResultView::blank().checked_at is None,
{
}

/// A check changes the status and the error of its own domain and when the word was
/// checked, and nothing else.
pub proof fn a_check_changes_its_own_domain(
    v: WordResultView,
    domain_type: DomainType,
    status: DomainStatus,
    error: Option<Seq<char>>,
    at: Timestamp,
)
    ensures
        ({
            let after = v.with(domain_type, status, error, at);
            &&& after.checked_at == Some(at)
            &&& after.eth_status == if domain_type == DomainType::Eth {
                Some(status)
            } else {
                v.eth_status
            }
            &&& after.box_status == if domain_type == DomainType::Box {
                Some(status)
            } else {
                v.box_status
            }
            &&& after.id_status == if domain_type == DomainType::Id {
                Some(status)
            } else {
                v.id_status
            }
            &&& after.eth_error == if domain_type == DomainType::Eth {
                error
            } else {
                v.eth_error
            }
            &&& after.box_error == if domain_type == DomainType::Box {
                error
            } else {
                v.box_error
            }
            &&& after.id_error == if domain_type == DomainType::Id {
                error
            } else {
                v.id_error
            }
        }),
{
}

/// The words for statuses and domains.
pub proof fn words_of_statuses_and_domains(status: DomainStatus, domain_type: DomainType)
    ensures
        status.text() == "available"@ || status.text() == "taken"@ || status.text() == "error"@,
        status.text() == "available"@ <==> status == DomainStatus::Available,
        status.text() == "taken"@ <==> status == DomainStatus::Taken,
        status.text() == "error"@ <==> status == DomainStatus::Error,
        domain_type.text() == "eth"@ || domain_type.text() == "box"@ || domain_type.text()
            == "id"@,
        domain_type.text() == "eth"@ <==> domain_type == DomainType::Eth,
        domain_type.text() == "box"@ <==> domain_type == DomainType::Box,
        domain_type.text() == "id"@ <==> domain_type == DomainType::Id,
{
    reveal_strlit("available");
    reveal_strlit("taken");
    reveal_strlit("error");
    assert("available"@.len() == 9 && "taken"@.len() == 5 && "taken"@[0] == 't' && "error"@[0]
        == 'e');
    reveal_strlit("eth");
    reveal_strlit("box");
    reveal_strlit("id");
    assert("eth"@[0] == 'e' && "box"@[0] == 'b' && "id"@[0] == 'i');
}

/// A check that is to be tried again.
#[derive(Debug)]
pub struct RetryEntry {
    pub word: String,
    pub domain_type: DomainType,
    pub retry_count: u32,
    pub next_retry_at: Timestamp,
    pub last_error: String,
}

/// The model of a [`RetryEntry`].
pub ghost struct RetryEntryView {
    pub word: Seq<char>,
    pub domain_type: DomainType,
    pub retry_count: u32,
    pub next_retry_at: Timestamp,
    pub last_error: Seq<char>,
}

impl View for RetryEntry {
    type V = RetryEntryView;

    open spec fn view(&self) -> RetryEntryView {
        RetryEntryView {
            word: self.word@,
            domain_type: self.domain_type,
            retry_count: self.retry_count,
            next_retry_at: self.next_retry_at,
            last_error: self.last_error@,
        }
    }
}

impl Clone for RetryEntry {
    fn clone(&self) -> (r: RetryEntry)
        ensures
            r@ == self@,
    {
        RetryEntry {
            word: self.word.clone(),
            domain_type: self.domain_type,
            retry_count: self.retry_count,
            next_retry_at: self.next_retry_at,
            last_error: self.last_error.clone(),
        }
    }
}

impl RetryEntryView {
    /// Two entries are about one check.
    pub open spec fn same_check(self, other: RetryEntryView) -> bool {
        self.word == other.word && self.domain_type == other.domain_type
    }
}

/// The models of the entries of a queue.
pub open spec fn queue_view(q: Seq<RetryEntry>) -> Seq<RetryEntryView> {
    Seq::new(q.len(), |i: int| q[i]@)
}

/// The entries that are about another check than `entry`, in order.
pub open spec fn others(q: Seq<RetryEntryView>, entry: RetryEntryView) -> Seq<RetryEntryView>
    decreases q.len(),
{
    if q.len() == 0 {
        Seq::empty()
    } else if q.last().same_check(entry) {
        others(q.drop_last(), entry)
    } else {
        others(q.drop_last(), entry).push(q.last())
    }
}

/// The queue once `entry` is in it: last, and the only one about its check.
pub open spec fn queued(q: Seq<RetryEntryView>, entry: RetryEntryView) -> Seq<RetryEntryView> {
    others(q, entry).push(entry)
}

/// No two entries are about one check.
pub open spec fn one_per_check(q: Seq<RetryEntryView>) -> bool {
    forall|i: int, j: int|
        0 <= i < j < q.len() ==> !(#[trigger] q[i]).same_check(#[trigger] q[j])
}

/// The model of an entry holds what the entry holds, and two entries are about one
/// check exactly if their words and their domains are the same.
pub proof fn fields_of_entries(e: RetryEntry, a: RetryEntryView, b: RetryEntryView)
    ensures
        e@.word == e.word@ && e@.domain_type == e.domain_type && e@.retry_count == e.retry_count,
        e@.next_retry_at == e.next_retry_at && e@.last_error == e.last_error@,
        a.same_check(b) <==> a.word == b.word && a.domain_type == b.domain_type,
{
}

/// An entry that goes into the queue takes out those about the same word and
/// domain, one by one, and leaves the others where they were.
pub proof fn entries_are_taken_out_one_by_one(
    a: Seq<RetryEntryView>,
    b: Seq<RetryEntryView>,
    x: RetryEntryView,
    entry: RetryEntryView,
)
    ensures
        others(a + b, entry) == others(a, entry) + others(b, entry),
        others(seq![x], entry) == if x.word == entry.word && x.domain_type == entry.domain_type {
            Seq::<RetryEntryView>::empty()
        } else {
            seq![x]
        },
        queued(a, entry) == others(a, entry) + seq![entry],
    decreases b.len(),
{
    assert(queued(a, entry) =~= others(a, entry) + seq![entry]);
    assert(seq![x].drop_last() =~= Seq::<RetryEntryView>::empty());
    assert(others(seq![x].drop_last(), entry) =~= Seq::<RetryEntryView>::empty());
    assert(others(seq![x], entry) =~= if x.same_check(entry) {
        Seq::<RetryEntryView>::empty()
    } else {
        seq![x]
    });
    if b.len() == 0 {
        assert(a + b =~= a);
        assert(others(a, entry) + others(b, entry) =~= others(a, entry));
    } else {
        entries_are_taken_out_one_by_one(a, b.drop_last(), x, entry);
        assert((a + b).drop_last() =~= a + b.drop_last());
        assert((a + b).last() == b.last());
        assert(others(a + b, entry) =~= others(a, entry) + others(b, entry));
    }
}

/// Results by word.
pub type ResultsView = Seq<(Seq<char>, WordResultView)>;

/// How many words have that status under that domain.
pub open spec fn count(results: ResultsView, domain_type: DomainType, status: DomainStatus) -> nat
    decreases results.len(),
{
    if results.len() == 0 {
        0
    } else {
        count(results.drop_last(), domain_type, status) + if results.last().1.status(domain_type)
            == Some(status) {
            1nat
        } else {
            0nat
        }
    }
}

/// Words are counted one by one: under each domain a word counts for the status that
/// it has in the field of that domain, and for no other.
pub proof fn words_are_counted_one_by_one(
    a: ResultsView,
    b: ResultsView,
    word: Seq<char>,
    result: WordResultView,
    domain_type: DomainType,
    status: DomainStatus,
)
    ensures
        count(Seq::empty(), domain_type, status) == 0,
        count(a + b, domain_type, status) == count(a, domain_type, status) + count(
            b,
            domain_type,
            status,
        ),
        count(seq![(word, result)], DomainType::Eth, status) == if result.eth_status == Some(
            status,
        ) {
            1nat
        } else {
            0
        },
        count(seq![(word, result)], DomainType::Box, status) == if result.box_status == Some(
            status,
        ) {
            1nat
        } else {
            0
        },
        count(seq![(word, result)], DomainType::Id, status) == if result.id_status == Some(
            status,
        ) {
            1nat
        } else {
            0
        },
    decreases b.len(),
{
    let one = seq![(word, result)];
    assert(one.drop_last() =~= Seq::empty());
    assert(count(one.drop_last(), DomainType::Eth, status) == 0);
    assert(count(one.drop_last(), DomainType::Box, status) == 0);
    assert(count(one.drop_last(), DomainType::Id, status) == 0);
    if b.len() == 0 {
        assert(a + b =~= a);
    } else {
        words_are_counted_one_by_one(a, b.drop_last(), word, result, domain_type, status);
        assert((a + b).drop_last() =~= a + b.drop_last());
        assert((a + b).last() == b.last());
    }
}

/// The state of a run.
pub struct CheckpointState {
    pub version: u32,
    pub wordlist_url: Option<String>,
    pub wordlist_hash: String,
    pub total_words: usize,
    pub checked_words: WordSet,
    pub results: WordMap<WordResult>,
    pub retry_queue: Vec<RetryEntry>,
    pub check_eth: bool,
    pub check_box: bool,
    pub check_id: bool,
    pub started_at: Timestamp,
    pub last_updated: Timestamp,
}

/// The model of a [`CheckpointState`].
pub ghost struct CheckpointView {
    pub version: u32,
    pub wordlist_url: Option<Seq<char>>,
    pub wordlist_hash: Seq<char>,
    pub total_words: usize,
    pub checked_words: Set<Seq<char>>,
    pub results: ResultsView,
    pub retry_queue: Seq<RetryEntryView>,
    pub check_eth: bool,
    pub check_box: bool,
    pub check_id: bool,
    pub started_at: Timestamp,
    pub last_updated: Timestamp,
}

impl View for CheckpointState {
    type V = CheckpointView;

    open spec fn view(&self) -> CheckpointView {
        CheckpointView {
            version: self.version,
            wordlist_url: opt_text(self.wordlist_url),
            wordlist_hash: self.wordlist_hash@,
            total_words: self.total_words,
            checked_words: self.checked_words@,
            results: self.results@,
            retry_queue: queue_view(self.retry_queue@),
            check_eth: self.check_eth,
            check_box: self.check_box,
            check_id: self.check_id,
            started_at: self.started_at,
            last_updated: self.last_updated,
        }
    }
}

impl CheckpointView {
    /// The state at the start of a run.
    pub open spec fn fresh(
        wordlist_hash: Seq<char>,
        total_words: usize,
        check_eth: bool,
        check_box: bool,
        check_id: bool,
        now: Timestamp,
    ) -> CheckpointView {
        CheckpointView {
            version: 1,
            wordlist_url: None,
            wordlist_hash,
            total_words,
            checked_words: Set::empty(),
            results: Seq::empty(),
            retry_queue: Seq::empty(),
            check_eth,
            check_box,
            check_id,
            started_at: now,
            last_updated: now,
        }
    }

    /// Whether the run looks words up under that domain.
    pub open spec fn checks(self, domain_type: DomainType) -> bool {
        match domain_type {
            DomainType::Eth => self.check_eth,
            DomainType::Box => self.check_box,
            DomainType::Id => self.check_id,
        }
    }

    /// Every domain of the run has a status.
    pub open spec fn complete(self, result: WordResultView) -> bool {
        forall|d: DomainType| self.checks(d) ==> (#[trigger] result.status(d)) is Some
    }

    /// What is known of a word.
    pub open spec fn known(self, word: Seq<char>) -> WordResultView {
        match lookup(self.results, word) {
            Some(result) => result,
            None => WordResultView::blank(),
        }
    }

    /// The state once the result of a check is in it.
    pub open spec fn recorded(
        self,
        word: Seq<char>,
        domain_type: DomainType,
        status: DomainStatus,
        error: Option<Seq<char>>,
        checked_at: Timestamp,
        updated_at: Timestamp,
    ) -> CheckpointView {
        let result = self.known(word).with(domain_type, status, error, checked_at);
        CheckpointView {
            results: put(self.results, word, result),
            checked_words: if self.complete(result) {
                self.checked_words.insert(word)
            } else {
                self.checked_words
            },
            last_updated: updated_at,
            ..self
        }
    }

    /// `after` is the state once the result of a check is in it, whatever the
    /// clock showed.
    pub open spec fn recorded_now(
        self,
        word: Seq<char>,
        domain_type: DomainType,
        status: DomainStatus,
        error: Option<Seq<char>>,
        after: CheckpointView,
    ) -> bool {
        exists|checked_at: Timestamp, updated_at: Timestamp|
            {
                &&& from_clock(checked_at) && from_clock(updated_at)
                &&& after == #[trigger] self.recorded(
                    word,
                    domain_type,
                    status,
                    error,
                    checked_at,
                    updated_at,
                )
            }
    }

    /// The state once an entry is in the retry queue.
    pub open spec fn with_retry(self, entry: RetryEntryView) -> CheckpointView {
        CheckpointView { retry_queue: queued(self.retry_queue, entry), ..self }
    }

    /// A word is to be checked under a domain if it was not, or if that failed.
    pub open spec fn needs(self, word: Seq<char>, domain_type: DomainType) -> bool {
        let status = self.known(word).status(domain_type);
        status is None || status == Some(DomainStatus::Error)
    }

    /// The words marked as checked are those with a status under every domain of
    /// the run, and no word has two results.
    pub open spec fn consistent(self) -> bool {
        &&& distinct_words(self.results)
        &&& forall|w: Seq<char>| #[trigger]
            self.checked_words.contains(w) <==> has_word(self.results, w) && self.complete(
                self.known(w),
            )
    }
}

/// The model of a state holds what the state holds.
pub proof fn fields_of_states(s: CheckpointState, i: int)
    ensures
        s@.version == s.version && s@.wordlist_url == opt_text(s.wordlist_url)
            && s@.wordlist_hash == s.wordlist_hash@ && s@.total_words == s.total_words,
        s@.checked_words == s.checked_words@ && s@.results == s.results@,
        s@.retry_queue.len() == s.retry_queue.len(),
        0 <= i < s.retry_queue.len() ==> s@.retry_queue[i] == s.retry_queue[i]@,
        s@.check_eth == s.check_eth && s@.check_box == s.check_box && s@.check_id == s.check_id,
        s@.started_at == s.started_at && s@.last_updated == s.last_updated,
{
}

/// A run starts with nothing known, nothing checked and nothing queued, with the
/// word list and the domains that it was given, and at the instant it was given.
pub proof fn fresh_knows_nothing(
    wordlist_hash: Seq<char>,
    total_words: usize,
    check_eth: bool,
    check_box: bool,
    check_id: bool,
    now: Timestamp,
    word: Seq<char>,
    domain_type: DomainType,
)
    ensures
        ({
            let s = CheckpointView::fresh(
                wordlist_hash,
                total_words,
                check_eth,
                check_box,
                check_id,
                now,
            );
            &&& s.version == 1 && s.wordlist_url is None
            &&& s.wordlist_hash == wordlist_hash && s.total_words == total_words
            &&& s.check_eth == check_eth && s.check_box == check_box && s.check_id == check_id
            &&& s.started_at == now && s.last_updated == now
            &&& s.results.len() == 0 && s.retry_queue.len() == 0
            &&& !s.checked_words.contains(word)
            &&& s.needs(word, domain_type)
        }),
{
}

/// A word is done exactly if it has a status under each of `.eth`, `.box` and `.id`
/// that the run looks words up under. It is to be checked under a domain exactly if
/// nothing is known of it, or it has no status there, or an error.
pub proof fn what_is_done_and_what_is_needed(
    s: CheckpointView,
    result: WordResultView,
    word: Seq<char>,
)
    ensures
        s.checks(DomainType::Eth) == s.check_eth && s.checks(DomainType::Box) == s.check_box
            && s.checks(DomainType::Id) == s.check_id,
        s.complete(result) <==> {
            &&& s.check_eth ==> result.eth_status is Some
            &&& s.check_box ==> result.box_status is Some
            &&& s.check_id ==> result.id_status is Some
        },
        s.needs(word, DomainType::Eth) <==> {
            ||| lookup(s.results, word) is None
            ||| lookup(s.results, word)->Some_0.eth_status is None
            ||| lookup(s.results, word)->Some_0.eth_status == Some(DomainStatus::Error)
        },
        s.needs(word, DomainType::Box) <==> {
            ||| lookup(s.results, word) is None
            ||| lookup(s.results, word)->Some_0.box_status is None
            ||| lookup(s.results, word)->Some_0.box_status == Some(DomainStatus::Error)
        },
        s.needs(word, DomainType::Id) <==> {
            ||| lookup(s.results, word) is None
            ||| lookup(s.results, word)->Some_0.id_status is None
            ||| lookup(s.results, word)->Some_0.id_status == Some(DomainStatus::Error)
        },
        lookup(s.results, word) matches Some(known) ==> s.known(word) == known,
        lookup(s.results, word) is None ==> s.known(word) == WordResultView::blank(),
{
    assert(result.status(DomainType::Eth) == result.eth_status);
    assert(result.status(DomainType::Box) == result.box_status);
    assert(result.status(DomainType::Id) == result.id_status);
}

/// Once a result is recorded the word is marked as checked if it has a status under
/// each domain of the run, and otherwise exactly if it was marked before; so in a
/// run under one domain alone, any result under that domain marks its word. No other
/// word is marked or unmarked. The time of the update is noted, and nothing else of
/// the state changes.
pub proof fn recorded_words_are_marked(
    s: CheckpointView,
    word: Seq<char>,
    domain_type: DomainType,
    status: DomainStatus,
    error: Option<Seq<char>>,
    checked_at: Timestamp,
    updated_at: Timestamp,
    other: Seq<char>,
)
    requires
        distinct_words(s.results),
    ensures
        ({
            let after = s.recorded(word, domain_type, status, error, checked_at, updated_at);
            let r = lookup(after.results, word)->Some_0;
            let done = {
                &&& s.check_eth ==> r.eth_status is Some
                &&& s.check_box ==> r.box_status is Some
                &&& s.check_id ==> r.id_status is Some
            };
            let only = match domain_type {
                DomainType::Eth => !s.check_box && !s.check_id,
                DomainType::Box => !s.check_eth && !s.check_id,
                DomainType::Id => !s.check_eth && !s.check_box,
            };
            &&& lookup(after.results, word) is Some
            &&& after.checked_words.contains(word) <==> done || s.checked_words.contains(word)
            &&& only ==> after.checked_words.contains(word)
            &&& other != word ==> after.checked_words.contains(other) == s.checked_words.contains(
                other,
            )
            &&& other != word ==> lookup(after.results, other) == lookup(s.results, other)
            &&& after.last_updated == updated_at
            &&& after.version == s.version && after.wordlist_url == s.wordlist_url
            &&& after.wordlist_hash == s.wordlist_hash && after.total_words == s.total_words
            &&& after.retry_queue == s.retry_queue
            &&& after.check_eth == s.check_eth && after.check_box == s.check_box && after.check_id
                == s.check_id
            &&& after.started_at == s.started_at
        }),
{
    let result = s.known(word).with(domain_type, status, error, checked_at);
    put_then_lookup(s.results, word, result, other);
    what_is_done_and_what_is_needed(s, result, word);
    a_check_changes_its_own_domain(s.known(word), domain_type, status, error, checked_at);
}

/// Recording a result now leaves it as what is known of the word under the domain,
/// with instants that the clock showed; it changes nothing of other words and other
/// domains, and of the rest of the state only which words are checked.
pub proof fn recorded_now_is_known(
    s: CheckpointView,
    word: Seq<char>,
    domain_type: DomainType,
    status: DomainStatus,
    error: Option<Seq<char>>,
    after: CheckpointView,
    other_word: Seq<char>,
    other_domain: DomainType,
)
    requires
        distinct_words(s.results),
        s.recorded_now(word, domain_type, status, error, after),
    ensures
        after.known(word).status(domain_type) == Some(status),
        after.known(word).error(domain_type) == error,
        after.known(word).checked_at is Some,
        from_clock(after.known(word).checked_at->Some_0),
        from_clock(after.last_updated),
        other_word != word ==> after.known(other_word) == s.known(other_word),
        other_domain != domain_type ==> after.known(word).status(other_domain) == s.known(
            word,
        ).status(other_domain) && after.known(word).error(other_domain) == s.known(word).error(
            other_domain,
        ),
        after == (CheckpointView {
            results: after.results,
            checked_words: after.checked_words,
            last_updated: after.last_updated,
            ..s
        }),
{
    let (checked_at, updated_at) = choose|checked_at: Timestamp, updated_at: Timestamp|
        {
            &&& from_clock(checked_at) && from_clock(updated_at)
            &&& after == #[trigger] s.recorded(
                word,
                domain_type,
                status,
                error,
                checked_at,
                updated_at,
            )
        };
    recorded_then_known(
        s,
        word,
        domain_type,
        status,
        error,
        checked_at,
        updated_at,
        other_word,
        other_domain,
    );
}

/// An entry in the retry queue changes nothing else of the state.
pub proof fn queuing_changes_the_queue_alone(s: CheckpointView, entry: RetryEntryView)
    ensures
        s.with_retry(entry) == (CheckpointView {
            retry_queue: queued(s.retry_queue, entry),
            ..s
        }),
        s.with_retry(entry).retry_queue.last() == entry,
{
}

/// A fresh state is consistent.
pub proof fn fresh_is_consistent(
    wordlist_hash: Seq<char>,
    total_words: usize,
    check_eth: bool,
    check_box: bool,
    check_id: bool,
    now: Timestamp,
)
    ensures
        CheckpointView::fresh(
            wordlist_hash,
            total_words,
            check_eth,
            check_box,
            check_id,
            now,
        ).consistent(),
{
}

/// Recording a result keeps the state consistent.
pub proof fn recorded_is_consistent(
    state: CheckpointView,
    word: Seq<char>,
    domain_type: DomainType,
    status: DomainStatus,
    error: Option<Seq<char>>,
    checked_at: Timestamp,
    updated_at: Timestamp,
)
    requires
        state.consistent(),
    ensures
        state.recorded(word, domain_type, status, error, checked_at, updated_at).consistent(),
{
    let result = state.known(word).with(domain_type, status, error, checked_at);
    let after = state.recorded(word, domain_type, status, error, checked_at, updated_at);
    put_then_lookup(state.results, word, result, word);
    assert(forall|r: WordResultView| after.complete(r) == state.complete(r));
    assert forall|w: Seq<char>| #[trigger]
        after.checked_words.contains(w) <==> has_word(after.results, w) && after.complete(
            after.known(w),
        ) by {
        put_then_lookup(state.results, word, result, w);
        if w == word && state.checked_words.contains(w) {
            assert forall|d: DomainType| state.checks(d) implies (#[trigger] result.status(
                d,
            )) is Some by {
                assert(state.known(word).status(d) is Some);
            }
        }
    }
}

/// Recording a result is read back for that word and domain, and changes what
/// is known of no other word and no other domain.
pub proof fn recorded_then_known(
    state: CheckpointView,
    word: Seq<char>,
    domain_type: DomainType,
    status: DomainStatus,
    error: Option<Seq<char>>,
    checked_at: Timestamp,
    updated_at: Timestamp,
    other_word: Seq<char>,
    other_domain: DomainType,
)
    requires
        distinct_words(state.results),
    ensures
        ({
            let after = state.recorded(word, domain_type, status, error, checked_at, updated_at);
            &&& after.known(word).status(domain_type) == Some(status)
            &&& after.known(word).error(domain_type) == error
            &&& after.known(word).checked_at == Some(checked_at)
            &&& other_word != word ==> after.known(other_word) == state.known(other_word)
            &&& other_domain != domain_type ==> after.known(word).status(other_domain)
                == state.known(word).status(other_domain)
            &&& other_domain != domain_type ==> after.known(word).error(other_domain)
                == state.known(word).error(other_domain)
        }),
{
    let result = state.known(word).with(domain_type, status, error, checked_at);
    put_then_lookup(state.results, word, result, other_word);
}

/// Once a check has succeeded it is not made again; one that failed is. What is
/// to be checked of other words and domains stays.
pub proof fn recorded_then_needs(
    state: CheckpointView,
    word: Seq<char>,
    domain_type: DomainType,
    status: DomainStatus,
    error: Option<Seq<char>>,
    checked_at: Timestamp,
    updated_at: Timestamp,
    other_word: Seq<char>,
    other_domain: DomainType,
)
    requires
        distinct_words(state.results),
    ensures
        ({
            let after = state.recorded(word, domain_type, status, error, checked_at, updated_at);
            &&& after.needs(word, domain_type) <==> status == DomainStatus::Error
            &&& other_word != word || other_domain != domain_type ==> after.needs(
                other_word,
                other_domain,
            ) == state.needs(other_word, other_domain)
        }),
{
    recorded_then_known(
        state,
        word,
        domain_type,
        status,
        error,
        checked_at,
        updated_at,
        other_word,
        other_domain,
    );
}

/// A word that is marked as checked stays so.
pub proof fn checked_stays_checked(
    state: CheckpointView,
    word: Seq<char>,
    domain_type: DomainType,
    status: DomainStatus,
    error: Option<Seq<char>>,
    checked_at: Timestamp,
    updated_at: Timestamp,
)
    ensures
        state.checked_words.subset_of(
            state.recorded(
                word,
                domain_type,
                status,
                error,
                checked_at,
                updated_at,
            ).checked_words,
        ),
{
}

proof fn others_are_others(q: Seq<RetryEntryView>, entry: RetryEntryView)
    ensures
        forall|i: int|
            0 <= i < others(q, entry).len() ==> !(#[trigger] others(q, entry)[i]).same_check(entry)
                && q.contains(others(q, entry)[i]),
        forall|e: RetryEntryView| #[trigger]
            q.contains(e) && !e.same_check(entry) ==> others(q, entry).contains(e),
        one_per_check(q) ==> one_per_check(others(q, entry)),
        others(q, entry).len() <= q.len(),
    decreases q.len(),
{
    let r = others(q, entry);
    if q.len() > 0 {
        let before = q.drop_last();
        others_are_others(before, entry);
        let rb = others(before, entry);
        assert(q[q.len() - 1] == q.last());
        assert forall|e: RetryEntryView| before.contains(e) implies q.contains(e) by {
            let i = choose|i: int| 0 <= i < before.len() && before[i] == e;
            assert(q[i] == e);
        }
        assert forall|i: int| 0 <= i < r.len() implies !(#[trigger] r[i]).same_check(entry)
            && q.contains(r[i]) by {
            if i < rb.len() {
                assert(r[i] == rb[i]);
            }
        }
        assert forall|e: RetryEntryView| #[trigger] q.contains(e) && !e.same_check(
            entry,
        ) implies r.contains(e) by {
            let i = choose|i: int| 0 <= i < q.len() && q[i] == e;
            if i < before.len() {
                assert(before[i] == e);
                assert(before.contains(e));
                let k = choose|k: int| 0 <= k < rb.len() && rb[k] == e;
                assert(r[k] == e);
            } else {
                assert(r[r.len() - 1] == e);
            }
        }
        if one_per_check(q) {
            assert forall|i: int, j: int| 0 <= i < j < r.len() implies !(
            #[trigger] r[i]).same_check(#[trigger] r[j]) by {
                assert(r[i] == rb[i]);
                if j < rb.len() {
                    assert(r[j] == rb[j]);
                } else {
                    assert(before.contains(rb[i]));
                    let k = choose|k: int| 0 <= k < before.len() && before[k] == rb[i];
                    assert(q[k] == rb[i]);
                }
            }
        }
    }
}

/// Putting an entry in the queue leaves it there as the last one and as the
/// only one about its check, keeps the others, and keeps one entry per check.
pub proof fn queued_once(q: Seq<RetryEntryView>, entry: RetryEntryView, other: RetryEntryView)
    ensures
        queued(q, entry).last() == entry,
        forall|i: int|
            0 <= i < queued(q, entry).len() - 1 ==> !(#[trigger] queued(q, entry)[i]).same_check(
                entry,
            ),
        !other.same_check(entry) ==> (queued(q, entry).contains(other) <==> q.contains(other)),
        one_per_check(q) ==> one_per_check(queued(q, entry)),
{
    others_are_others(q, entry);
    let o = others(q, entry);
    let r = queued(q, entry);
    if !other.same_check(entry) {
        if q.contains(other) {
            let k = choose|k: int| 0 <= k < o.len() && o[k] == other;
            assert(r[k] == other);
        }
        if r.contains(other) {
            let k = choose|k: int| 0 <= k < r.len() && r[k] == other;
            assert(o[k] == other);
        }
    }
}

/// Counts over a state.
#[derive(Debug)]
pub struct CheckpointStats {
    pub total_words: usize,
    pub checked_words: usize,
    pub eth_available: usize,
    pub eth_taken: usize,
    pub eth_error: usize,
    pub box_available: usize,
    pub box_taken: usize,
    pub box_error: usize,
    pub id_available: usize,
    pub id_taken: usize,
    pub id_error: usize,
    pub retry_queue_size: usize,
    pub started_at: Timestamp,
    pub last_updated: Timestamp,
}

impl CheckpointStats {
    /// The number for a domain and a status.
    pub open spec fn number(self, domain_type: DomainType, status: DomainStatus) -> usize {
        match (domain_type, status) {
            (DomainType::Eth, DomainStatus::Available) => self.eth_available,
            (DomainType::Eth, DomainStatus::Taken) => self.eth_taken,
            (DomainType::Eth, DomainStatus::Error) => self.eth_error,
            (DomainType::Box, DomainStatus::Available) => self.box_available,
            (DomainType::Box, DomainStatus::Taken) => self.box_taken,
            (DomainType::Box, DomainStatus::Error) => self.box_error,
            (DomainType::Id, DomainStatus::Available) => self.id_available,
            (DomainType::Id, DomainStatus::Taken) => self.id_taken,
            (DomainType::Id, DomainStatus::Error) => self.id_error,
        }
    }

    /// These are the counts over `state`.
    pub open spec fn counts(self, state: CheckpointView) -> bool {
        &&& self.total_words == state.total_words
        &&& self.checked_words == state.checked_words.len()
        &&& forall|d: DomainType, s: DomainStatus| #[trigger]
            self.number(d, s) == count(state.results, d, s)
        &&& self.retry_queue_size == state.retry_queue.len()
        &&& self.started_at == state.started_at
        &&& self.last_updated == state.last_updated
    }
}

/// Each number is the count of the domain and the status that its name says, and
/// the other fields are those of the state.
pub proof fn fields_of_counts(c: CheckpointStats, s: CheckpointView)
    requires
        c.counts(s),
    ensures
        c.total_words == s.total_words,
        c.checked_words == s.checked_words.len(),
        c.eth_available == count(s.results, DomainType::Eth, DomainStatus::Available),
        c.eth_taken == count(s.results, DomainType::Eth, DomainStatus::Taken),
        c.eth_error == count(s.results, DomainType::Eth, DomainStatus::Error),
        c.box_available == count(s.results, DomainType::Box, DomainStatus::Available),
        c.box_taken == count(s.results, DomainType::Box, DomainStatus::Taken),
        c.box_error == count(s.results, DomainType::Box, DomainStatus::Error),
        c.id_available == count(s.results, DomainType::Id, DomainStatus::Available),
        c.id_taken == count(s.results, DomainType::Id, DomainStatus::Taken),
        c.id_error == count(s.results, DomainType::Id, DomainStatus::Error),
        c.retry_queue_size == s.retry_queue.len(),
        c.started_at == s.started_at,
        c.last_updated == s.last_updated,
{
    assert(c.number(DomainType::Eth, DomainStatus::Available) == c.eth_available);
    assert(c.number(DomainType::Eth, DomainStatus::Taken) == c.eth_taken);
    assert(c.number(DomainType::Eth, DomainStatus::Error) == c.eth_error);
    assert(c.number(DomainType::Box, DomainStatus::Available) == c.box_available);
    assert(c.number(DomainType::Box, DomainStatus::Taken) == c.box_taken);
    assert(c.number(DomainType::Box, DomainStatus::Error) == c.box_error);
    assert(c.number(DomainType::Id, DomainStatus::Available) == c.id_available);
    assert(c.number(DomainType::Id, DomainStatus::Taken) == c.id_taken);
    assert(c.number(DomainType::Id, DomainStatus::Error) == c.id_error);
}

/// Under each domain a word has at most one status: the three counts together
/// do not exceed the number of words with results.
pub proof fn counts_do_not_overlap(results: ResultsView, domain_type: DomainType)
    ensures
        count(results, domain_type, DomainStatus::Available) + count(
            results,
            domain_type,
            DomainStatus::Taken,
        ) + count(results, domain_type, DomainStatus::Error) <= results.len(),
    decreases results.len(),
{
    if results.len() > 0 {
        counts_do_not_overlap(results.drop_last(), domain_type);
    }
}

/// One more if `status` is `wanted`.
fn tally(n: usize, status: Option<DomainStatus>, wanted: DomainStatus) -> (r: usize)
    requires
        n < usize::MAX,
    ensures
        r == n + if status == Some(wanted) {
            1int
        } else {
            0int
        },
{
    match status {
        Some(s) => if s == wanted {
            n + 1
        } else {
            n
        },
        None => n,
    }
}

proof fn count_bound(results: ResultsView, domain_type: DomainType, status: DomainStatus)
    ensures
        count(results, domain_type, status) <= results.len(),
    decreases results.len(),
{
    if results.len() > 0 {
        count_bound(results.drop_last(), domain_type, status);
    }
}

impl CheckpointState {
    /// The map and the set of the state can be used.
    pub open spec fn wf(self) -> bool {
        self.checked_words.wf() && self.results.wf()
    }

    /// The state at the start of a run that starts at `now`.
    pub fn new_at(
        wordlist_hash: String,
        total_words: usize,
        check_eth: bool,
        check_box: bool,
        check_id: bool,
        now: Timestamp,
    ) -> (r: CheckpointState)
        ensures
            r.wf(),
            r@ == CheckpointView::fresh(
                wordlist_hash@,
                total_words,
                check_eth,
                check_box,
                check_id,
                now,
            ),
    {
        let r = CheckpointState {
            version: 1,
            wordlist_url: None,
            wordlist_hash,
            total_words,
            checked_words: WordSet::new(),
            results: WordMap::new(),
            retry_queue: Vec::new(),
            check_eth,
            check_box,
            check_id,
            started_at: now,
            last_updated: now,
        };
        assert(queue_view(r.retry_queue@) =~= Seq::<RetryEntryView>::empty());
        r
    }

    /// The state at the start of a run that starts now.
    pub fn new(
        wordlist_hash: String,
        total_words: usize,
        check_eth: bool,
        check_box: bool,
        check_id: bool,
    ) -> (r: CheckpointState)
        ensures
            r.wf(),
            r@ == CheckpointView::fresh(
                wordlist_hash@,
                total_words,
                check_eth,
                check_box,
                check_id,
                r.started_at,
            ),
            from_clock(r.started_at),
    {
        let now = Timestamp::now();
        Self::new_at(wordlist_hash, total_words, check_eth, check_box, check_id, now)
    }

    /// Puts the result of a check into the state.
    pub fn record_result_at(
        &mut self,
        word: &str,
        domain_type: DomainType,
        status: DomainStatus,
        error: Option<String>,
        checked_at: Timestamp,
        updated_at: Timestamp,
    )
        requires
            old(self).wf(),
        ensures
            final(self).wf(),
            final(self)@ == old(self)@.recorded(
                word@,
                domain_type,
                status,
                opt_text(error),
                checked_at,
                updated_at,
            ),
    {
        let mut result = match self.results.get(word) {
            Some(known) => known.clone(),
            None => WordResult::default(),
        };
        assert(result@ == self@.known(word@));
        result.checked_at = Some(checked_at);
        match domain_type {
            DomainType::Eth => {
                result.eth_status = Some(status);
                result.eth_error = error;
            },
            DomainType::Box => {
                result.box_status = Some(status);
                result.box_error = error;
            },
            DomainType::Id => {
                result.id_status = Some(status);
                result.id_error = error;
            },
        }
        let eth_done = !self.check_eth || result.eth_status.is_some();
        let box_done = !self.check_box || result.box_status.is_some();
        let id_done = !self.check_id || result.id_status.is_some();
        proof {
            let r = result@;
            assert(r == self@.known(word@).with(domain_type, status, opt_text(error), checked_at));
            assert(r.status(DomainType::Eth) == r.eth_status);
            assert(r.status(DomainType::Box) == r.box_status);
            assert(r.status(DomainType::Id) == r.id_status);
            assert(self@.complete(r) <==> (eth_done && box_done && id_done));
        }
        self.results.insert(word, result);
        if eth_done && box_done && id_done {
            self.checked_words.insert(word);
        }
        self.last_updated = updated_at;
    }

    /// Puts the result of a check that was just made into the state.
    pub fn record_result(
        &mut self,
        word: &str,
        domain_type: DomainType,
        status: DomainStatus,
        error: Option<String>,
    )
        requires
            old(self).wf(),
        ensures
            final(self).wf(),
            old(self)@.recorded_now(word@, domain_type, status, opt_text(error), final(self)@),
    {
        let checked_at = Timestamp::now();
        let updated_at = Timestamp::now();
        self.record_result_at(word, domain_type, status, error, checked_at, updated_at);
    }

    /// Puts an entry into the retry queue, in place of one about the same check.
    pub fn add_to_retry_queue(&mut self, entry: RetryEntry)
        requires
            old(self).wf(),
        ensures
            final(self).wf(),
            final(self)@ == old(self)@.with_retry(entry@),
    {
        let ghost before = queue_view(self.retry_queue@);
        let ghost mut k: int = 0;
        let mut i: usize = 0;
        assert(queue_view(self.retry_queue@) =~= others(before.take(0), entry@) + before.skip(0));
        while i < self.retry_queue.len()
            invariant
                self.wf(),
                0 <= k <= before.len(),
                i <= self.retry_queue.len(),
                i == others(before.take(k), entry@).len(),
                queue_view(self.retry_queue@) == others(before.take(k), entry@) + before.skip(k),
                before == old(self)@.retry_queue,
                self@ == (CheckpointView { retry_queue: queue_view(self.retry_queue@), ..old(self)@
                }),
            decreases self.retry_queue.len() - i,
        {
            let ghost now = queue_view(self.retry_queue@);
            proof {
                assert(now[i as int] == before[k]);
                assert(before.take(k + 1).drop_last() =~= before.take(k));
                assert(before.take(k + 1).last() == before[k]);
            }
            let e = &self.retry_queue[i];
            let same_word = same_text(e.word.as_str(), entry.word.as_str());
            if same_word && e.domain_type == entry.domain_type {
                let _ = self.retry_queue.remove(i);
                assert(queue_view(self.retry_queue@) =~= now.remove(i as int));
                assert(queue_view(self.retry_queue@) =~= others(before.take(k + 1), entry@)
                    + before.skip(k + 1));
            } else {
                assert(others(before.take(k), entry@) + before.skip(k) =~= others(
                    before.take(k + 1),
                    entry@,
                ) + before.skip(k + 1));
                i = i + 1;
            }
            proof {
                k = k + 1;
            }
        }
        assert(before.take(k) =~= before);
        let ghost rest = queue_view(self.retry_queue@);
        assert(rest =~= others(before, entry@));
        self.retry_queue.push(entry);
        assert(queue_view(self.retry_queue@) =~= rest.push(entry@));
    }

    /// Whether a word is to be checked under a domain.
    pub fn needs_check(&self, word: &str, domain_type: DomainType) -> (r: bool)
        requires
            self.wf(),
        ensures
            r == self@.needs(word@, domain_type),
    {
        match self.results.get(word) {
            Some(result) => {
                let status = match domain_type {
                    DomainType::Eth => result.eth_status,
                    DomainType::Box => result.box_status,
                    DomainType::Id => result.id_status,
                };
                match status {
                    None => true,
                    Some(s) => s == DomainStatus::Error,
                }
            },
            None => true,
        }
    }

    /// Counts over the state.
    pub fn get_stats(&self) -> (r: CheckpointStats)
        requires
            self.wf(),
        ensures
            r.counts(self@),
    {
        let mut stats = CheckpointStats {
            total_words: self.total_words,
            checked_words: self.checked_words.len(),
            eth_available: 0,
            eth_taken: 0,
            eth_error: 0,
            box_available: 0,
            box_taken: 0,
            box_error: 0,
            id_available: 0,
            id_taken: 0,
            id_error: 0,
            retry_queue_size: self.retry_queue.len(),
            started_at: self.started_at,
            last_updated: self.last_updated,
        };
        let ghost results = self.results@;
        let n: usize = self.results.len();
        let mut i: usize = 0;
        while i < n
            invariant
                i <= n,
                n == results.len(),
                results == self.results@,
                stats.total_words == self.total_words,
                stats.checked_words == self.checked_words@.len(),
                stats.retry_queue_size == self.retry_queue.len(),
                stats.started_at == self.started_at,
                stats.last_updated == self.last_updated,
                forall|d: DomainType, s: DomainStatus| #[trigger]
                    stats.number(d, s) == count(results.take(i as int), d, s),
            decreases n - i,
        {
            let result = self.results.value_at(i);
            let ghost before = stats;
            proof {
                assert(results.take(i + 1).drop_last() =~= results.take(i as int));
                assert(results.take(i + 1).last() == results[i as int]);
                assert forall|d: DomainType, s: DomainStatus| #[trigger]
                    stats.number(d, s) <= i by {
                    count_bound(results.take(i as int), d, s);
                }
                assert(stats.number(DomainType::Eth, DomainStatus::Available) <= i);
                assert(stats.number(DomainType::Eth, DomainStatus::Taken) <= i);
                assert(stats.number(DomainType::Eth, DomainStatus::Error) <= i);
                assert(stats.number(DomainType::Box, DomainStatus::Available) <= i);
                assert(stats.number(DomainType::Box, DomainStatus::Taken) <= i);
                assert(stats.number(DomainType::Box, DomainStatus::Error) <= i);
                assert(stats.number(DomainType::Id, DomainStatus::Available) <= i);
                assert(stats.number(DomainType::Id, DomainStatus::Taken) <= i);
                assert(stats.number(DomainType::Id, DomainStatus::Error) <= i);
            }
            let (e, b, d) = (result.eth_status, result.box_status, result.id_status);
            stats.eth_available = tally(stats.eth_available, e, DomainStatus::Available);
            stats.eth_taken = tally(stats.eth_taken, e, DomainStatus::Taken);
            stats.eth_error = tally(stats.eth_error, e, DomainStatus::Error);
            stats.box_available = tally(stats.box_available, b, DomainStatus::Available);
            stats.box_taken = tally(stats.box_taken, b, DomainStatus::Taken);
            stats.box_error = tally(stats.box_error, b, DomainStatus::Error);
            stats.id_available = tally(stats.id_available, d, DomainStatus::Available);
            stats.id_taken = tally(stats.id_taken, d, DomainStatus::Taken);
            stats.id_error = tally(stats.id_error, d, DomainStatus::Error);
            proof {
                assert forall|d: DomainType, s: DomainStatus| #[trigger]
                    stats.number(d, s) == count(results.take(i + 1), d, s) by {
                    assert(before.number(d, s) == count(results.take(i as int), d, s));
                }
            }
            i = i + 1;
        }
        assert(results.take(i as int) =~= results);
        stats
    }
}

impl Default for CheckpointState {
    fn default() -> (r: CheckpointState)
        ensures
            r.wf(),
            r@ == CheckpointView::fresh(Seq::empty(), 0, true, true, true, r.started_at),
            from_clock(r.started_at),
    {
        CheckpointState::new(String::new(), 0, true, true, true)
    }
}

impl Clone for CheckpointState {
    fn clone(&self) -> (r: CheckpointState)
        ensures
            r.wf(),
            self.wf() ==> r@ == self@,
    {
        let r = CheckpointState {
            version: self.version,
            wordlist_url: self.wordlist_url.clone(),
            wordlist_hash: self.wordlist_hash.clone(),
            total_words: self.total_words,
            checked_words: self.checked_words.clone(),
            results: self.results.clone(),
            retry_queue: self.retry_queue.clone(),
            check_eth: self.check_eth,
            check_box: self.check_box,
            check_id: self.check_id,
            started_at: self.started_at,
            last_updated: self.last_updated,
        };
        assert(queue_view(r.retry_queue@) =~= queue_view(self.retry_queue@));
        r
    }
}

} // verus!
