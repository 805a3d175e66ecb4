//! The course of one word: under which domain it is checked next, when a check
//! is made again, and when its result is recorded. No request goes out without a
//! permit of the rate limiter of its domain.
use vstd::prelude::*;
use std::time::Duration;
use crate::checker::{
    Attempts, CheckResult, DEFAULT_INITIAL_BACKOFF_MS, DEFAULT_MAX_BACKOFF_SECS,
    DEFAULT_MAX_RETRIES, RetryStep,
};
use crate::checker::{CheckResultView, backoff_limit, drawn, millis, tries_again};
use crate::checkpoint::{DomainStatus, DomainType};
use crate::checkpoint::{CheckpointView, recorded_then_known};
use crate::manager::CheckpointManager;
use crate::manager::{ManagerView, save_due};
use crate::run::{Domains, next_domain};
use crate::run::{is_next, is_open, turn, turns_over};
use crate::timestamp::Timestamp;
use crate::timestamp::from_clock;
use crate::word_map::distinct_words;

verus! {

/// How far the present attempt at a check has come.
#[derive(Debug, Clone, Copy, PartialEq, Eq, Structural)]
pub enum Stage {
    /// A permit of the rate limiter is to be waited for.
    Waiting,
    /// A permit was granted, and a request may be sent.
    Permitted,
    /// A request was sent.
    Asked,
}

/// A number for each domain.
#[derive(Debug, Clone, Copy, PartialEq, Eq)]
pub struct PerDomain {
    pub eth: u32,
    pub box_domain: u32,
    pub id: u32,
}

impl PerDomain {
    /// The number for a domain.
    pub open spec fn of(self, domain_type: DomainType) -> u32 {
        match domain_type {
            DomainType::Eth => self.eth,
            DomainType::Box => self.box_domain,
            DomainType::Id => self.id,
        }
    }

    /// `after` is one more for that domain and the same for the others.
    pub open spec fn raised(self, domain_type: DomainType, after: PerDomain) -> bool {
        forall|d: DomainType| #[trigger]
            after.of(d) == self.of(d) + if d == domain_type {
                1int
            } else {
                0int
            }
    }

    /// Nothing for any domain.
    fn none() -> (r: PerDomain)
        ensures
            forall|d: DomainType| #[trigger] r.of(d) == 0,
    {
        PerDomain { eth: 0, box_domain: 0, id: 0 }
    }

    /// One more for that domain.
    fn raise(self, domain_type: DomainType) -> (r: PerDomain)
        requires
            self.of(domain_type) < u32::MAX,
        ensures
            self.raised(domain_type, r),
    {
        match domain_type {
            DomainType::Eth => PerDomain { eth: self.eth + 1, ..self },
            DomainType::Box => PerDomain { box_domain: self.box_domain + 1, ..self },
            DomainType::Id => PerDomain { id: self.id + 1, ..self },
        }
    }
}

/// A word on its way through the domains.
pub struct WordRun {
    word: String,
    domains: Domains,
    current: Option<DomainType>,
    attempts: Attempts,
    stage: Stage,
    recorded: Option<CheckResult>,
    permits: PerDomain,
    requests: PerDomain,
}

/// The model of a [`WordRun`].
pub ghost struct WordRunView {
    pub word: Seq<char>,
    pub domains: Domains,
    /// The domain under which the word is being checked.
    pub current: Option<DomainType>,
    /// How often that check was made again.
    pub retries: nat,
    /// How far the present attempt at it has come.
    pub stage: Stage,
    /// Its result, once that is recorded.
    pub recorded: Option<CheckResultView>,
    /// How many permits of its rate limiter each domain was granted.
    pub permits: PerDomain,
    /// How many requests were sent to each domain.
    pub requests: PerDomain,
}

impl View for WordRun {
    type V = WordRunView;

    closed spec fn view(&self) -> WordRunView {
        WordRunView {
            word: self.word@,
            domains: self.domains,
            current: self.current,
            retries: self.attempts@,
            stage: self.stage,
            recorded: match self.recorded {
                Some(result) => Some(result@),
                None => None,
            },
            permits: self.permits,
            requests: self.requests,
        }
    }
}

impl WordRunView {
    /// How many answers there can still be.
    pub open spec fn answers_left(self) -> int {
        match self.current {
            Some(d) => (2 - turn(d)) * (DEFAULT_MAX_RETRIES + 1) + if self.recorded is Some {
                0
            } else {
                DEFAULT_MAX_RETRIES + 1 - self.retries
            },
            None => 0,
        }
    }

    /// A permit was granted under that domain and no request was sent on it yet.
    pub open spec fn holds_permit(self, domain_type: DomainType) -> bool {
        self.stage == Stage::Permitted && self.current == Some(domain_type)
    }

    /// Each request was sent on a permit of its own: under each domain there are
    /// as many permits as requests, and one more while a permit is held.
    pub open spec fn permits_cover_requests(self) -> bool {
        forall|d: DomainType|
            #![trigger self.permits.of(d)]
            #![trigger self.requests.of(d)]
            self.permits.of(d) == self.requests.of(d) + if self.holds_permit(d) {
                1int
            } else {
                0int
            }
    }

    /// How many requests the present check has led to.
    pub open spec fn requests_of_check(self) -> nat {
        self.retries + if self.stage == Stage::Asked || self.recorded is Some {
            1nat
        } else {
            0nat
        }
    }

    /// No check leads to more requests than the allowed attempts, and none was
    /// sent to a domain whose turn is still to come.
    pub open spec fn requests_are_bounded(self) -> bool {
        &&& forall|d: DomainType| #[trigger] self.requests.of(d) <= DEFAULT_MAX_RETRIES + 1
        &&& self.current matches Some(c) ==> {
            &&& self.requests.of(c) == self.requests_of_check()
            &&& forall|d: DomainType| turn(d) > turn(c) ==> #[trigger] self.requests.of(d) == 0
        }
    }
}

/// What is to be done next.
#[derive(Debug)]
pub enum WordStep {
    /// The same check is made again after this wait.
    Again(Duration),
    /// The result was recorded; `save` tells whether the state is due to be
    /// written before the word goes on.
    Recorded { save: bool },
}

impl WordRun {
    /// The check has not been made again more often than allowed, only one that
    /// was made has a result, and the requests are accounted for.
    pub closed spec fn wf(self) -> bool {
        &&& self@.retries <= DEFAULT_MAX_RETRIES
        &&& self@.recorded is Some ==> self@.current is Some && self@.stage == Stage::Waiting
        &&& self@.permits_cover_requests()
        &&& self@.requests_are_bounded()
    }

    /// The first domain under which `word` is to be checked, if there is one.
    pub fn process_word(manager: &CheckpointManager, word: String, domains: Domains) -> (r: WordRun)
        requires
            manager.wf(),
        ensures
            r.wf(),
            r@.word == word@,
            r@.domains == domains,
            r@.retries == 0,
            r@.stage == Stage::Waiting,
            r@.recorded is None,
            forall|d: DomainType| #[trigger] r@.permits.of(d) == 0,
            forall|d: DomainType| #[trigger] r@.requests.of(d) == 0,
            is_next(manager@.state, word@, domains, None, r@.current),
            0 <= r@.answers_left() <= 3 * (DEFAULT_MAX_RETRIES + 1),
    {
        let current = next_domain(manager.get_state(), word.as_str(), domains, None);
        WordRun {
            word,
            domains,
            current,
            attempts: Attempts::new(),
            stage: Stage::Waiting,
            recorded: None,
            permits: PerDomain::none(),
            requests: PerDomain::none(),
        }
    }

    /// The domain under which the word is being checked.
    pub fn current(&self) -> (r: Option<DomainType>)
        ensures
            r == self@.current,
    {
        self.current
    }

    /// The word.
    pub fn word(&self) -> (r: &str)
        ensures
            r@ == self@.word,
    {
        self.word.as_str()
    }

    /// How often the present check was made again.
    pub fn retries(&self) -> (r: u32)
        ensures
            r == self@.retries,
    {
        self.attempts.retries()
    }

    /// How many permits of its rate limiter each domain was granted.
    pub fn permits(&self) -> (r: PerDomain)
        ensures
            r == self@.permits,
    {
        self.permits
    }

    /// How many requests were sent to each domain.
    pub fn requests(&self) -> (r: PerDomain)
        ensures
            r == self@.requests,
    {
        self.requests
    }

    /// Takes in that the rate limiter of the present domain granted a permit.
    pub fn permitted(&mut self)
        requires
            old(self).wf(),
            old(self)@.current is Some,
            old(self)@.stage == Stage::Waiting,
            old(self)@.recorded is None,
        ensures
            final(self).wf(),
            final(self)@.permits_cover_requests(),
            old(self)@.permits.raised(old(self)@.current->Some_0, final(self)@.permits),
            final(self)@ == (WordRunView {
                stage: Stage::Permitted,
                permits: final(self)@.permits,
                ..old(self)@
            }),
    {
        let present = self.current.unwrap();
        assert(self@.permits.of(present) == self@.requests.of(present));
        self.permits = self.permits.raise(present);
        self.stage = Stage::Permitted;
    }

    /// Hands out the next request: the word is asked for under the domain that is
    /// returned. It takes up the permit that was granted.
    pub fn request(&mut self) -> (r: DomainType)
        requires
            old(self).wf(),
            old(self)@.current is Some,
            old(self)@.stage == Stage::Permitted,
        ensures
            final(self).wf(),
            final(self)@.permits_cover_requests(),
            Some(r) == old(self)@.current,
            old(self)@.requests.raised(r, final(self)@.requests),
            final(self)@ == (WordRunView {
                stage: Stage::Asked,
                requests: final(self)@.requests,
                ..old(self)@
            }),
    {
        let present = self.current.unwrap();
        assert(self@.requests.of(present) == self@.requests_of_check());
        self.requests = self.requests.raise(present);
        self.stage = Stage::Asked;
        proof {
            assert(self@.requests.of(present) == self@.requests_of_check());
        }
        present
    }

    /// Goes on after an attempt at the present check gave `result`. Either the
    /// check is made again, and nothing else happens; or the result is recorded.
    pub fn answered(&mut self, manager: &mut CheckpointManager, result: CheckResult) -> (r: WordStep)
        requires
            old(self).wf(),
            old(self)@.current is Some,
            old(self)@.stage == Stage::Asked,
            old(manager).wf(),
        ensures
            final(self).wf(),
            final(manager).wf(),
            final(self)@.permits_cover_requests(),
            final(self)@.word == old(self)@.word,
            final(self)@.domains == old(self)@.domains,
            final(self)@.current == old(self)@.current,
            final(self)@.stage == Stage::Waiting,
            final(self)@.permits == old(self)@.permits,
            final(self)@.requests == old(self)@.requests,
            0 <= final(self)@.answers_left() < old(self)@.answers_left(),
            r is Again <==> tries_again(old(self)@.retries, result@),
            r matches WordStep::Again(wait) ==> {
                &&& final(manager)@ == old(manager)@
                &&& final(self)@.retries == old(self)@.retries + 1
                &&& final(self)@.recorded is None
                &&& exists|ms: u64|
                    ms <= backoff_limit(
                        final(self)@.retries as u32,
                        DEFAULT_INITIAL_BACKOFF_MS,
                        DEFAULT_MAX_BACKOFF_SECS,
                    ) && wait == #[trigger] millis(ms)
                &&& exists|ms: u64| #[trigger]
                    drawn(
                        backoff_limit(
                            final(self)@.retries as u32,
                            DEFAULT_INITIAL_BACKOFF_MS,
                            DEFAULT_MAX_BACKOFF_SECS,
                        ) as u64,
                        ms,
                    ) && wait == millis(ms)
            },
            r matches WordStep::Recorded { save } ==> {
                &&& old(manager)@.recorded_now(
                    old(self)@.word,
                    old(self)@.current->Some_0,
                    result@.status(),
                    result@.error(),
                    final(manager)@,
                )
                &&& save == save_due(old(manager)@.unsaved, old(manager)@.interval)
                &&& final(self)@.retries == old(self)@.retries
                &&& final(self)@.recorded == Some(result@)
            },
    {
        match self.attempts.check_with_retry(&result) {
            RetryStep::Wait(wait) => {
                self.stage = Stage::Waiting;
                WordStep::Again(wait)
            },
            RetryStep::Stop => {
                let present = self.current.unwrap();
                let save = manager.handle_result(self.word.as_str(), present, &result);
                self.stage = Stage::Waiting;
                self.recorded = Some(result);
                WordStep::Recorded { save }
            },
        }
    }

    /// Goes on after the result of the present check was recorded: if it failed
    /// and may succeed at another attempt it is queued, and the word goes on to
    /// the next domain, if there is one.
    pub fn proceed(&mut self, manager: &mut CheckpointManager) -> (r: Option<DomainType>)
        requires
            old(self).wf(),
            old(self)@.recorded is Some,
            old(manager).wf(),
        ensures
            final(self).wf(),
            final(manager).wf(),
            final(self)@.word == old(self)@.word,
            final(self)@.domains == old(self)@.domains,
            final(self)@.permits_cover_requests(),
            final(self)@.current == r,
            final(self)@.retries == 0,
            final(self)@.stage == Stage::Waiting,
            final(self)@.recorded is None,
            final(self)@.permits == old(self)@.permits,
            final(self)@.requests == old(self)@.requests,
            0 <= final(self)@.answers_left() <= old(self)@.answers_left(),
            old(manager)@.queued_now(
                old(self)@.word,
                old(self)@.current->Some_0,
                old(self)@.recorded->Some_0,
                final(manager)@,
            ),
            is_next(
                final(manager)@.state,
                old(self)@.word,
                old(self)@.domains,
                old(self)@.current,
                r,
            ),
    {
        let present = self.current.unwrap();
        let result = self.recorded.take().unwrap();
        manager.queue_retry(self.word.as_str(), present, &result);
        let next = next_domain(
            manager.get_state(),
            self.word.as_str(),
            self.domains,
            self.current,
        );
        self.current = next;
        self.attempts = Attempts::new();
        next
    }
}

/// The number for a domain is the one in its own field; raising it leaves the others.
pub proof fn numbers_per_domain(a: PerDomain, b: PerDomain, domain_type: DomainType)
    ensures
        a.of(DomainType::Eth) == a.eth && a.of(DomainType::Box) == a.box_domain && a.of(
            DomainType::Id,
        ) == a.id,
        a.raised(domain_type, b) <==> {
            &&& b.eth == a.eth + if domain_type == DomainType::Eth {
                1int
            } else {
                0
            }
            &&& b.box_domain == a.box_domain + if domain_type == DomainType::Box {
                1int
            } else {
                0
            }
            &&& b.id == a.id + if domain_type == DomainType::Id {
                1int
            } else {
                0
            }
        },
{
    assert(a.of(DomainType::Eth) == a.eth && b.of(DomainType::Eth) == b.eth);
    assert(a.of(DomainType::Box) == a.box_domain && b.of(DomainType::Box) == b.box_domain);
    assert(a.of(DomainType::Id) == a.id && b.of(DomainType::Id) == b.id);
}

/// A word can be answered at most six times under each domain: eighteen times at the
/// start of `.eth`, twelve times at that of `.box` and six times at that of `.id`,
/// one less with each retry, and under the later domains only once a result is
/// recorded.
pub proof fn answers_that_are_left(v: WordRunView)
    ensures
        v.current is None ==> v.answers_left() == 0,
        v.current == Some(DomainType::Eth) ==> v.answers_left() == if v.recorded is Some {
            12
        } else {
            18 - v.retries
        },
        v.current == Some(DomainType::Box) ==> v.answers_left() == if v.recorded is Some {
            6
        } else {
            12 - v.retries
        },
        v.current == Some(DomainType::Id) ==> v.answers_left() == if v.recorded is Some {
            0
        } else {
            6 - v.retries
        },
        v.permits_cover_requests() ==> v.requests.eth <= v.permits.eth && v.requests.box_domain
            <= v.permits.box_domain && v.requests.id <= v.permits.id,
        v.permits_cover_requests() && v.stage != Stage::Permitted ==> v.requests == v.permits,
{
    assert(v.permits.of(DomainType::Eth) == v.permits.eth);
    assert(v.permits.of(DomainType::Box) == v.permits.box_domain);
    assert(v.permits.of(DomainType::Id) == v.permits.id);
}

/// How many permits of its rate limiter a domain was granted in these runs.
pub open spec fn total_permits(runs: Seq<WordRun>, domain_type: DomainType) -> nat
    decreases runs.len(),
{
    if runs.len() == 0 {
        0
    } else {
        total_permits(runs.drop_last(), domain_type) + runs.last()@.permits.of(domain_type) as nat
    }
}

/// How many requests were sent to a domain in these runs.
pub open spec fn total_requests(runs: Seq<WordRun>, domain_type: DomainType) -> nat
    decreases runs.len(),
{
    if runs.len() == 0 {
        0
    } else {
        total_requests(runs.drop_last(), domain_type) + runs.last()@.requests.of(domain_type) as nat
    }
}

/// No request goes out without a permit of the rate limiter of its domain, be it
/// the first attempt at a check or a later one: however far the words of a run
/// have come, each of them and all of them together have led to no more requests
/// than permits under each domain.
pub proof fn no_request_without_a_permit(runs: Seq<WordRun>, domain_type: DomainType)
    requires
        forall|i: int| 0 <= i < runs.len() ==> (#[trigger] runs[i]).wf(),
    ensures
        forall|i: int|
            0 <= i < runs.len() ==> (#[trigger] runs[i])@.requests.of(domain_type)
                <= runs[i]@.permits.of(domain_type),
        total_requests(runs, domain_type) <= total_permits(runs, domain_type),
    decreases runs.len(),
{
    if runs.len() > 0 {
        let before = runs.drop_last();
        assert forall|i: int| 0 <= i < before.len() implies (#[trigger] before[i]).wf() by {
            assert(runs[i].wf());
        }
        no_request_without_a_permit(before, domain_type);
        let last = runs[runs.len() - 1];
        assert(last.wf());
        assert forall|i: int| 0 <= i < runs.len() implies (#[trigger] runs[i])@.requests.of(
            domain_type,
        ) <= runs[i]@.permits.of(domain_type) by {
            assert(runs[i].wf());
        }
    }
}

/// A word leads to no more requests under a domain than there are attempts at a
/// check, and the permits it was granted are at most one ahead of them.
pub proof fn requests_of_a_word_are_few(run: WordRun, domain_type: DomainType)
    requires
        run.wf(),
    ensures
        run@.requests.of(domain_type) <= DEFAULT_MAX_RETRIES + 1,
        run@.permits.of(domain_type) <= run@.requests.of(domain_type) + 1,
{
}

/// One domain in the course of a word: what the check under it gave, and what
/// was held before and after the result was recorded, and before and after it
/// was queued.
pub ghost struct Visit {
    pub domain_type: DomainType,
    pub result: CheckResultView,
    pub before: ManagerView,
    pub recorded: ManagerView,
    pub unqueued: ManagerView,
    pub after: ManagerView,
}

impl Visit {
    /// No word had two results, [`WordRun::answered`] recorded the result, and
    /// [`WordRun::proceed`] queued it.
    pub open spec fn is_made(self, word: Seq<char>) -> bool {
        &&& distinct_words(self.before.state.results)
        &&& self.before.recorded_now(
            word,
            self.domain_type,
            self.result.status(),
            self.result.error(),
            self.recorded,
        )
        &&& self.unqueued.queued_now(word, self.domain_type, self.result, self.after)
    }
}

/// The state in which the next domain was looked for after `n` visits.
pub open spec fn state_after(start: CheckpointView, visits: Seq<Visit>, n: int) -> CheckpointView {
    if n == 0 {
        start
    } else {
        visits[n - 1].after.state
    }
}

/// The domain of the last of the first `n` visits.
pub open spec fn last_domain(visits: Seq<Visit>, n: int) -> Option<DomainType> {
    if n == 0 {
        None
    } else {
        Some(visits[n - 1].domain_type)
    }
}

/// The domain of the visit behind the first `n`, if there is one.
pub open spec fn following(visits: Seq<Visit>, n: int) -> Option<DomainType> {
    if n < visits.len() {
        Some(visits[n].domain_type)
    } else {
        None
    }
}

/// These are all the visits in the course of a word that set out from `start`.
/// What is known of the word changed by them alone.
pub open spec fn is_course(
    start: CheckpointView,
    word: Seq<char>,
    domains: Domains,
    visits: Seq<Visit>,
) -> bool {
    &&& forall|i: int| 0 <= i < visits.len() ==> (#[trigger] visits[i]).is_made(word)
    &&& forall|n: int|
        0 <= n <= visits.len() ==> is_next(
            #[trigger] state_after(start, visits, n),
            word,
            domains,
            last_domain(visits, n),
            following(visits, n),
        )
    &&& forall|i: int|
        0 <= i < visits.len() ==> visits[i].before.state.known(word) == (#[trigger] state_after(
            start,
            visits,
            i,
        )).known(word)
    &&& forall|i: int|
        0 <= i < visits.len() ==> (#[trigger] visits[i]).unqueued.state.known(word)
            == visits[i].recorded.state.known(word)
}

/// One of the first `n` visits was to that domain.
pub open spec fn visited(visits: Seq<Visit>, n: int, domain_type: DomainType) -> bool {
    exists|i: int| 0 <= i < n && (#[trigger] visits[i]).domain_type == domain_type
}

/// What the first `n` visits left behind: a visit was made only where a check was
/// asked for and needed, and each domain has the status and the error of its
/// visit, or those it had at the start.
pub open spec fn settled(
    start: CheckpointView,
    word: Seq<char>,
    domains: Domains,
    visits: Seq<Visit>,
    n: int,
) -> bool {
    let end = state_after(start, visits, n);
    &&& forall|i: int|
        0 <= i < n ==> {
            let visit = #[trigger] visits[i];
            &&& turn(visit.domain_type) < turns_over(last_domain(visits, n))
            &&& domains.has(visit.domain_type)
            &&& start.needs(word, visit.domain_type)
            &&& end.known(word).status(visit.domain_type) == Some(visit.result.status())
            &&& end.known(word).error(visit.domain_type) == visit.result.error()
        }
    &&& forall|d: DomainType|
        !#[trigger] visited(visits, n, d) ==> {
            &&& end.known(word).status(d) == start.known(word).status(d)
            &&& end.known(word).error(d) == start.known(word).error(d)
        }
    &&& forall|d: DomainType| #[trigger]
        domains.has(d) && turn(d) < turns_over(last_domain(visits, n)) && start.needs(word, d)
            ==> visited(visits, n, d)
}

proof fn visit_records(visit: Visit, word: Seq<char>, d: DomainType)
    requires
        visit.is_made(word),
        visit.unqueued.state.known(word) == visit.recorded.state.known(word),
    ensures
        visit.after.state.known(word).status(d) == if d == visit.domain_type {
            Some(visit.result.status())
        } else {
            visit.before.state.known(word).status(d)
        },
        visit.after.state.known(word).error(d) == if d == visit.domain_type {
            visit.result.error()
        } else {
            visit.before.state.known(word).error(d)
        },
{
    let (checked_at, updated_at) = choose|checked_at: Timestamp, updated_at: Timestamp|
        {
            &&& from_clock(checked_at) && from_clock(updated_at)
            &&& visit.recorded == #[trigger] visit.before.recorded(
                word,
                visit.domain_type,
                visit.result.status(),
                visit.result.error(),
                checked_at,
                updated_at,
            )
        };
    recorded_then_known(
        visit.before.state,
        word,
        visit.domain_type,
        visit.result.status(),
        visit.result.error(),
        checked_at,
        updated_at,
        word,
        d,
    );
    assert(visit.after.state.results == visit.unqueued.state.results);
}

proof fn visits_settle(
    start: CheckpointView,
    word: Seq<char>,
    domains: Domains,
    visits: Seq<Visit>,
    n: int,
)
    requires
        is_course(start, word, domains, visits),
        0 <= n <= visits.len(),
    ensures
        settled(start, word, domains, visits, n),
        n <= turns_over(last_domain(visits, n)) <= 3,
    decreases n,
{
    if n > 0 {
        let k = n - 1;
        visits_settle(start, word, domains, visits, k);
        let visit = visits[k];
        let here = visit.domain_type;
        let before = state_after(start, visits, k);
        let after = state_after(start, visits, n);
        let last = last_domain(visits, k);
        assert(is_next(before, word, domains, last, Some(here)));
        assert(is_open(before, word, domains, last, here));
        assert(!visited(visits, k, here));
        assert forall|i: int| 0 <= i < n implies {
            let v = #[trigger] visits[i];
            &&& turn(v.domain_type) < turns_over(last_domain(visits, n))
            &&& domains.has(v.domain_type)
            &&& start.needs(word, v.domain_type)
            &&& after.known(word).status(v.domain_type) == Some(v.result.status())
            &&& after.known(word).error(v.domain_type) == v.result.error()
        } by {
            visit_records(visit, word, visits[i].domain_type);
            if i < k {
                assert(turn(visits[i].domain_type) < turns_over(last));
            }
        }
        assert forall|d: DomainType| !#[trigger] visited(visits, n, d) implies {
            &&& after.known(word).status(d) == start.known(word).status(d)
            &&& after.known(word).error(d) == start.known(word).error(d)
        } by {
            assert(d != here) by {
                assert(visits[k].domain_type == here);
            }
            assert(!visited(visits, k, d));
            visit_records(visit, word, d);
        }
        assert forall|d: DomainType| #[trigger]
            domains.has(d) && turn(d) < turns_over(last_domain(visits, n)) && start.needs(
                word,
                d,
            ) implies visited(visits, n, d) by {
            if d == here {
                assert(visits[k].domain_type == d);
            } else if turn(d) < turns_over(last) {
                assert(visited(visits, k, d));
            } else {
                assert(!is_open(before, word, domains, last, d));
                assert(visited(visits, k, d));
            }
        }
    }
}

/// Once the course of a word is over, and if nothing else changed what is known of
/// the word meanwhile:
/// the word has a status under every domain that was asked for;
/// exactly the domains that were asked for and needed a check were visited, once
/// each, and each has the status and the error of its visit;
/// every other domain has the status and the error it had at the start;
/// and of the domains that were asked for, the word is to be checked again exactly
/// under those whose visit failed.
pub proof fn course_leaves_a_status(
    start: CheckpointView,
    word: Seq<char>,
    domains: Domains,
    visits: Seq<Visit>,
)
    requires
        is_course(start, word, domains, visits),
    ensures
        ({
            let n = visits.len() as int;
            let end = state_after(start, visits, n);
            &&& n <= 3
            &&& forall|d: DomainType| #[trigger]
                domains.has(d) ==> end.known(word).status(d) is Some
            &&& forall|d: DomainType| #[trigger]
                visited(visits, n, d) <==> domains.has(d) && start.needs(word, d)
            &&& forall|i: int, j: int|
                0 <= i < j < n ==> (#[trigger] visits[i]).domain_type != (
                #[trigger] visits[j]).domain_type
            &&& forall|i: int|
                0 <= i < n ==> {
                    let visit = #[trigger] visits[i];
                    &&& end.known(word).status(visit.domain_type) == Some(visit.result.status())
                    &&& end.known(word).error(visit.domain_type) == visit.result.error()
                    &&& end.needs(word, visit.domain_type) <==> visit.result.status()
                        == DomainStatus::Error
                }
            &&& forall|d: DomainType|
                !(#[trigger] domains.has(d) && start.needs(word, d)) ==> {
                    &&& end.known(word).status(d) == start.known(word).status(d)
                    &&& end.known(word).error(d) == start.known(word).error(d)
                    &&& end.needs(word, d) == start.needs(word, d)
                }
        }),
{
    let n = visits.len() as int;
    visits_settle(start, word, domains, visits, n);
    let end = state_after(start, visits, n);
    let last = last_domain(visits, n);
    assert(is_next(end, word, domains, last, None));
    assert forall|d: DomainType| domains.has(d) && start.needs(word, d) implies #[trigger] visited(
        visits,
        n,
        d,
    ) by {
        if turn(d) >= turns_over(last) {
            assert(!is_open(end, word, domains, last, d));
        }
    }
    assert forall|d: DomainType| #[trigger] domains.has(d) implies end.known(word).status(
        d,
    ) is Some by {
        if start.needs(word, d) {
            assert(visited(visits, n, d));
        } else {
            assert(!visited(visits, n, d));
        }
    }
    assert forall|d: DomainType| !(#[trigger] domains.has(d) && start.needs(word, d)) implies {
        &&& end.known(word).status(d) == start.known(word).status(d)
        &&& end.known(word).error(d) == start.known(word).error(d)
        &&& end.needs(word, d) == start.needs(word, d)
    } by {
        assert(!visited(visits, n, d));
    }
    assert forall|i: int, j: int| 0 <= i < j < n implies (#[trigger] visits[i]).domain_type != (
    #[trigger] visits[j]).domain_type by {
        visits_settle(start, word, domains, visits, j);
        assert(is_next(
            state_after(start, visits, j),
            word,
            domains,
            last_domain(visits, j),
            Some(visits[j].domain_type),
        ));
    }
}

} // verus!
