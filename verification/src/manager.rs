//! The state of a run together with when it is to be written.
use vstd::prelude::*;
use crate::checker::{CheckResult, DEFAULT_MAX_RETRIES};
use crate::checker::CheckResultView;
use crate::checkpoint::{CheckpointState, DomainStatus, DomainType, RetryEntry};
use crate::checkpoint::{
    CheckpointView, RetryEntryView, WordResultView, one_per_check, opt_text, queued, queued_once,
    recorded_is_consistent,
};
use crate::timestamp::{LAST_SECOND, Timestamp};
use crate::timestamp::from_clock;

verus! {

/// How many minutes after a failed check its retry is due.
pub const RETRY_DELAY_MINUTES: u32 = 5;

/// The state of a run, and how many results were recorded since it was last to
/// be written.
pub struct CheckpointManager {
    state: CheckpointState,
    save_counter: usize,
    save_interval: usize,
}

/// The model of a [`CheckpointManager`].
pub ghost struct ManagerView {
    pub state: CheckpointView,
    pub unsaved: nat,
    pub interval: nat,
}

impl View for CheckpointManager {
    type V = ManagerView;

    closed spec fn view(&self) -> ManagerView {
        ManagerView {
            state: self.state@,
            unsaved: self.save_counter as nat,
            interval: self.save_interval as nat,
        }
    }
}

/// One more result makes the state due to be written.
pub open spec fn save_due(unsaved: nat, interval: nat) -> bool {
    unsaved + 1 >= interval
}

/// How many results are unsaved after one more.
pub open spec fn next_unsaved(unsaved: nat, interval: nat) -> nat {
    if save_due(unsaved, interval) {
        0
    } else {
        unsaved + 1
    }
}

/// How many results are unsaved after `n` results, none being so at first.
pub open spec fn unsaved_after(n: nat, interval: nat) -> nat
    decreases n,
{
    if n == 0 {
        0
    } else {
        next_unsaved(unsaved_after((n - 1) as nat, interval), interval)
    }
}

/// With how many results the state is due to be written once: with each one if
/// the interval is zero.
pub open spec fn save_period(interval: nat) -> nat {
    if interval == 0 {
        1
    } else {
        interval
    }
}

/// The state is due to be written with every `interval`-th result, and with no
/// other; if the interval is zero, with each one.
pub proof fn saved_at_each_interval(n: nat, interval: nat)
    requires
        n > 0,
    ensures
        save_due(unsaved_after((n - 1) as nat, interval), interval) <==> n % save_period(interval)
            == 0,
        unsaved_after(n, interval) == n % save_period(interval),
    decreases n,
{
    let k = (n - 1) as nat;
    let period = save_period(interval);
    if k > 0 {
        saved_at_each_interval(k, interval);
    } else {
        assert(0nat % period == 0) by (nonlinear_arith)
            requires
                period > 0,
        ;
    }
    assert(unsaved_after(k, interval) == k % period);
    assert(n % period == if k % period + 1 == period {
        0
    } else {
        k % period + 1
    }) by (nonlinear_arith)
        requires
            period > 0,
            n == k + 1,
    ;
    assert(k % period < period) by (nonlinear_arith)
        requires
            period > 0,
    ;
}

/// With an interval of `interval` results the state is due to be written when the
/// number of results recorded is a multiple of it, and else not; with an interval
/// of zero it is due with each result.
pub proof fn saved_at_multiples(n: nat, interval: nat)
    requires
        n > 0,
    ensures
        interval > 0 ==> (save_due(unsaved_after((n - 1) as nat, interval), interval) <==> n
            % interval == 0),
        interval == 0 ==> save_due(unsaved_after((n - 1) as nat, interval), interval),
        unsaved_after(0, interval) == 0,
        unsaved_after(n, interval) == next_unsaved(
            unsaved_after((n - 1) as nat, interval),
            interval,
        ),
{
    saved_at_each_interval(n, interval);
}

/// A result makes the state due exactly if, with it, no fewer results are unsaved
/// than the interval says; then none is unsaved any more, and otherwise one more is.
pub proof fn unsaved_results(unsaved: nat, interval: nat)
    ensures
        save_due(unsaved, interval) <==> unsaved + 1 >= interval,
        unsaved + 1 >= interval ==> next_unsaved(unsaved, interval) == 0,
        unsaved + 1 < interval ==> next_unsaved(unsaved, interval) == unsaved + 1,
{
}

impl ManagerView {
    /// What is held once the result of a check is recorded.
    pub open spec fn recorded(
        self,
        word: Seq<char>,
        domain_type: DomainType,
        status: DomainStatus,
        error: Option<Seq<char>>,
        checked_at: Timestamp,
        updated_at: Timestamp,
    ) -> ManagerView {
        ManagerView {
            state: self.state.recorded(
                word,
                domain_type,
                status,
                error,
                checked_at,
                updated_at,
            ),
            unsaved: next_unsaved(self.unsaved, self.interval),
            ..self
        }
    }

    /// `after` is what is held once the result of a check is recorded, whatever
    /// the clock showed.
    pub open spec fn recorded_now(
        self,
        word: Seq<char>,
        domain_type: DomainType,
        status: DomainStatus,
        error: Option<Seq<char>>,
        after: ManagerView,
    ) -> bool {
        exists|checked_at: Timestamp, updated_at: Timestamp|
            {
                &&& from_clock(checked_at) && from_clock(updated_at)
                &&& after == #[trigger] self.recorded(
                    word,
                    domain_type,
                    status,
                    error,
                    checked_at,
                    updated_at,
                )
            }
    }

    /// What is held once a failed check that may succeed at another attempt is
    /// queued for the instant given. Any other result changes nothing.
    pub open spec fn queued(
        self,
        word: Seq<char>,
        domain_type: DomainType,
        result: CheckResultView,
        retry_at: Timestamp,
    ) -> ManagerView {
        if result.retryable() {
            ManagerView {
                state: self.state.with_retry(
                    RetryEntryView {
                        word,
                        domain_type,
                        retry_count: DEFAULT_MAX_RETRIES,
                        next_retry_at: retry_at,
                        last_error: result.error()->Some_0,
                    },
                ),
                ..self
            }
        } else {
            self
        }
    }

    /// `after` is what is held once a failed check that may succeed at another
    /// attempt is queued for five minutes later, whatever the clock showed.
    pub open spec fn queued_now(
        self,
        word: Seq<char>,
        domain_type: DomainType,
        result: CheckResultView,
        after: ManagerView,
    ) -> bool {
        exists|now: Timestamp, retry_at: Timestamp|
            {
                &&& from_clock(now)
                &&& #[trigger] is_retry_time(now, retry_at)
                &&& after == self.queued(word, domain_type, result, retry_at)
            }
    }
}

/// `later` is when a check that failed at `now` is due again: five minutes
/// later, or at once where no instant five minutes later can be represented.
pub open spec fn is_retry_time(now: Timestamp, later: Timestamp) -> bool {
    if now@.0 + 60 * RETRY_DELAY_MINUTES <= LAST_SECOND {
        later@.0 == now@.0 + 60 * RETRY_DELAY_MINUTES && later@.1 == now@.1 % 1_000_000_000
    } else {
        later == now
    }
}

/// Whatever the result of a check and whatever the clock shows, recording it and
/// queuing it keeps the state consistent and the queue at one entry per check.
pub proof fn handling_keeps_the_state_consistent(
    before: ManagerView,
    word: Seq<char>,
    domain_type: DomainType,
    result: CheckResultView,
    recorded: ManagerView,
    after: ManagerView,
)
    requires
        before.recorded_now(word, domain_type, result.status(), result.error(), recorded),
        recorded.queued_now(word, domain_type, result, after),
    ensures
        before.state.consistent() ==> recorded.state.consistent() && after.state.consistent(),
        one_per_check(before.state.retry_queue) ==> one_per_check(recorded.state.retry_queue)
            && one_per_check(after.state.retry_queue),
{
    let (checked_at, updated_at) = choose|checked_at: Timestamp, updated_at: Timestamp|
        {
            &&& from_clock(checked_at) && from_clock(updated_at)
            &&& recorded == #[trigger] before.recorded(
                word,
                domain_type,
                result.status(),
                result.error(),
                checked_at,
                updated_at,
            )
        };
    let mid = recorded.state;
    if before.state.consistent() {
        recorded_is_consistent(
            before.state,
            word,
            domain_type,
            result.status(),
            result.error(),
            checked_at,
            updated_at,
        );
        assert(forall|r: WordResultView| after.state.complete(r) == mid.complete(r));
        assert(forall|w: Seq<char>| after.state.known(w) == mid.known(w));
    }
    if result.retryable() {
        queued_once(mid.retry_queue, after.state.retry_queue.last(), after.state.retry_queue.last());
    }
}

/// Once a result is recorded and queued, the retry queue ends in an entry about
/// the check, and holds no other about it, if the check failed and may succeed at
/// another attempt. Otherwise the queue is what it was.
pub proof fn failed_checks_are_queued(
    before: ManagerView,
    word: Seq<char>,
    domain_type: DomainType,
    result: CheckResultView,
    recorded: ManagerView,
    after: ManagerView,
)
    requires
        before.recorded_now(word, domain_type, result.status(), result.error(), recorded),
        recorded.queued_now(word, domain_type, result, after),
    ensures
        recorded.state.retry_queue == before.state.retry_queue,
        !result.retryable() ==> after.state.retry_queue == before.state.retry_queue,
        result.retryable() ==> {
            let queue = after.state.retry_queue;
            let entry = queue.last();
            &&& queue == queued(before.state.retry_queue, entry)
            &&& entry.word == word
            &&& entry.domain_type == domain_type
            &&& entry.retry_count == DEFAULT_MAX_RETRIES
            &&& Some(entry.last_error) == result.error()
            &&& exists|now: Timestamp|
                from_clock(now) && #[trigger] is_retry_time(now, entry.next_retry_at)
            &&& forall|i: int|
                0 <= i < queue.len() - 1 ==> !(#[trigger] queue[i]).same_check(entry)
        },
{
    if result.retryable() {
        let (now, retry_at) = choose|now: Timestamp, retry_at: Timestamp|
            {
                &&& from_clock(now)
                &&& #[trigger] is_retry_time(now, retry_at)
                &&& after == recorded.queued(word, domain_type, result, retry_at)
            };
        let entry = after.state.retry_queue.last();
        assert(is_retry_time(now, entry.next_retry_at));
        queued_once(before.state.retry_queue, entry, entry);
    }
}

/// Recording a result records it in the state and counts it as unsaved, and keeps
/// the interval. Queuing it keeps all but the retry queue.
pub proof fn what_handling_keeps(
    before: ManagerView,
    word: Seq<char>,
    domain_type: DomainType,
    result: CheckResultView,
    checked_at: Timestamp,
    updated_at: Timestamp,
    retry_at: Timestamp,
)
    ensures
        ({
            let after = before.recorded(
                word,
                domain_type,
                result.status(),
                result.error(),
                checked_at,
                updated_at,
            );
            &&& after.state == before.state.recorded(
                word,
                domain_type,
                result.status(),
                result.error(),
                checked_at,
                updated_at,
            )
            &&& after.unsaved == if before.unsaved + 1 >= before.interval {
                0
            } else {
                before.unsaved + 1
            }
            &&& after.interval == before.interval
        }),
        ({
            let after = before.queued(word, domain_type, result, retry_at);
            &&& after.unsaved == before.unsaved && after.interval == before.interval
            &&& after.state == (CheckpointView {
                retry_queue: after.state.retry_queue,
                ..before.state
            })
            &&& !result.retryable() ==> after == before
            &&& result.retryable() ==> {
                let entry = after.state.retry_queue.last();
                &&& after.state.retry_queue == queued(before.state.retry_queue, entry)
                &&& entry.word == word && entry.domain_type == domain_type
                &&& entry.retry_count == 5 && entry.next_retry_at == retry_at
                &&& Some(entry.last_error) == result.error()
            }
        }),
{
}

/// Recording a result now records it in the state with instants that the clock
/// showed, counts it as unsaved, and keeps the interval.
pub proof fn recorded_now_is_counted(
    before: ManagerView,
    word: Seq<char>,
    domain_type: DomainType,
    status: DomainStatus,
    error: Option<Seq<char>>,
    after: ManagerView,
)
    requires
        before.recorded_now(word, domain_type, status, error, after),
    ensures
        before.state.recorded_now(word, domain_type, status, error, after.state),
        after.unsaved == if before.unsaved + 1 >= before.interval {
            0
        } else {
            before.unsaved + 1
        },
        after.interval == before.interval,
{
    let (checked_at, updated_at) = choose|checked_at: Timestamp, updated_at: Timestamp|
        {
            &&& from_clock(checked_at) && from_clock(updated_at)
            &&& after == #[trigger] before.recorded(
                word,
                domain_type,
                status,
                error,
                checked_at,
                updated_at,
            )
        };
    assert(after.state == before.state.recorded(
        word,
        domain_type,
        status,
        error,
        checked_at,
        updated_at,
    ));
}

/// A failed check is due again three hundred seconds after it failed, as long as
/// that instant can be represented, and else at once.
pub proof fn due_in_five_minutes(now: Timestamp, later: Timestamp)
    requires
        is_retry_time(now, later),
        now@.1 < 1_000_000_000,
    ensures
        now@.0 + 300 <= 8_210_266_876_799 ==> later@ == ((now@.0 + 300) as i64, now@.1),
        now@.0 + 300 > 8_210_266_876_799 ==> later == now,
{
}

impl CheckpointManager {
    /// The state can be used, and fewer results are unsaved than the interval.
    pub closed spec fn wf(self) -> bool {
        &&& self.state.wf()
        &&& self.save_counter == 0 || self.save_counter < self.save_interval
    }

    /// Starts with a state of which nothing is unsaved.
    pub fn new(state: CheckpointState, save_interval: usize) -> (r: CheckpointManager)
        requires
            state.wf(),
        ensures
            r.wf(),
            r@ == (ManagerView { state: state@, unsaved: 0, interval: save_interval as nat }),
    {
        CheckpointManager { state, save_counter: 0, save_interval }
    }

    /// Records a result, and tells whether the state is due to be written.
    pub fn record_result_at(
        &mut self,
        word: &str,
        domain_type: DomainType,
        status: DomainStatus,
        error: Option<String>,
        checked_at: Timestamp,
        updated_at: Timestamp,
    ) -> (save: bool)
        requires
            old(self).wf(),
        ensures
            final(self).wf(),
            final(self)@ == old(self)@.recorded(
                word@,
                domain_type,
                status,
                opt_text(error),
                checked_at,
                updated_at,
            ),
            save == save_due(old(self)@.unsaved, old(self)@.interval),
    {
        self.state.record_result_at(word, domain_type, status, error, checked_at, updated_at);
        let counter: usize = self.save_counter + 1;
        if counter >= self.save_interval {
            self.save_counter = 0;
            true
        } else {
            self.save_counter = counter;
            false
        }
    }

    /// Records the result of a check that was just made, and tells whether the
    /// state is due to be written.
    pub fn record_result(
        &mut self,
        word: &str,
        domain_type: DomainType,
        status: DomainStatus,
        error: Option<String>,
    ) -> (save: bool)
        requires
            old(self).wf(),
        ensures
            final(self).wf(),
            old(self)@.recorded_now(word@, domain_type, status, opt_text(error), final(self)@),
            save == save_due(old(self)@.unsaved, old(self)@.interval),
    {
        let checked_at = Timestamp::now();
        let updated_at = Timestamp::now();
        self.record_result_at(word, domain_type, status, error, checked_at, updated_at)
    }

    /// The state.
    pub fn get_state(&self) -> (r: &CheckpointState)
        requires
            self.wf(),
        ensures
            r.wf(),
            r@ == self@.state,
    {
        &self.state
    }

    /// Whether a word is to be checked under a domain.
    pub fn needs_check(&self, word: &str, domain_type: DomainType) -> (r: bool)
        requires
            self.wf(),
        ensures
            r == self@.state.needs(word@, domain_type),
    {
        self.state.needs_check(word, domain_type)
    }

    /// Puts an entry into the retry queue, in place of one about the same check.
    pub fn add_to_retry(&mut self, entry: RetryEntry)
        requires
            old(self).wf(),
        ensures
            final(self).wf(),
            final(self)@ == (ManagerView {
                state: old(self)@.state.with_retry(entry@),
                ..old(self)@
            }),
    {
        self.state.add_to_retry_queue(entry);
    }

    /// Records the result of a check, and tells whether the state is due to be
    /// written. Once it is written, [`CheckpointManager::queue_retry_at`] completes
    /// the handling of the result.
    pub fn handle_result_at(
        &mut self,
        word: &str,
        domain_type: DomainType,
        result: &CheckResult,
        checked_at: Timestamp,
        updated_at: Timestamp,
    ) -> (save: bool)
        requires
            old(self).wf(),
        ensures
            final(self).wf(),
            final(self)@ == old(self)@.recorded(
                word@,
                domain_type,
                result@.status(),
                result@.error(),
                checked_at,
                updated_at,
            ),
            save == save_due(old(self)@.unsaved, old(self)@.interval),
    {
        let status = result.to_status();
        let error = result.error_message();
        self.record_result_at(word, domain_type, status, error, checked_at, updated_at)
    }

    /// Records the result of a check that was just made, and tells whether the
    /// state is due to be written. Once it is written,
    /// [`CheckpointManager::queue_retry`] completes the handling of the result.
    pub fn handle_result(&mut self, word: &str, domain_type: DomainType, result: &CheckResult) -> (
    save: bool)
        requires
            old(self).wf(),
        ensures
            final(self).wf(),
            old(self)@.recorded_now(
                word@,
                domain_type,
                result@.status(),
                result@.error(),
                final(self)@,
            ),
            save == save_due(old(self)@.unsaved, old(self)@.interval),
    {
        let checked_at = Timestamp::now();
        let updated_at = Timestamp::now();
        self.handle_result_at(word, domain_type, result, checked_at, updated_at)
    }

    /// Queues a check whose result was recorded for the instant given, if it
    /// failed and may succeed at another attempt.
    pub fn queue_retry_at(
        &mut self,
        word: &str,
        domain_type: DomainType,
        result: &CheckResult,
        retry_at: Timestamp,
    )
        requires
            old(self).wf(),
        ensures
            final(self).wf(),
            final(self)@ == old(self)@.queued(word@, domain_type, result@, retry_at),
    {
        if result.is_retryable() {
            let last_error = match result.error_message() {
                Some(message) => message,
                None => String::new(),
            };
            self.add_to_retry(
                RetryEntry {
                    word: word.to_owned(),
                    domain_type,
                    retry_count: DEFAULT_MAX_RETRIES,
                    next_retry_at: retry_at,
                    last_error,
                },
            );
        }
    }

    /// Queues a check whose result was recorded for five minutes later, if it
    /// failed and may succeed at another attempt. Where the clock stands within
    /// five minutes of the last instant that can be represented, it is queued for
    /// the present instant.
    pub fn queue_retry(&mut self, word: &str, domain_type: DomainType, result: &CheckResult)
        requires
            old(self).wf(),
        ensures
            final(self).wf(),
            old(self)@.queued_now(word@, domain_type, result@, final(self)@),
    {
        let now = Timestamp::now();
        let retry_at = match now.after_minutes(RETRY_DELAY_MINUTES) {
            Some(later) => later,
            None => now,
        };
        assert(is_retry_time(now, retry_at));
        self.queue_retry_at(word, domain_type, result, retry_at);
    }
}

} // verus!
