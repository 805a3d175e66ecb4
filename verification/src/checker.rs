//! Single checks: what is asked, how an answer is understood, and when a check
//! is made again.
use vstd::prelude::*;
use vstd::arithmetic::power2::pow2;
use std::num::NonZeroU32;
use std::time::Duration;
use alloy::primitives::Address;
use governor::Quota;
use rand::Rng;
use reqwest::Url;
use crate::checkpoint::DomainStatus;
use crate::checkpoint::opt_text;
use crate::text::{contains, decimal_text, to_lowercase};
use crate::text::{decimal, has_part, lowercase};
use crate::wordlist::{bytes_in_hexadecimal, hex};

verus! {

/// The contract that knows which `.eth` names can be registered.
pub const ETH_REGISTRAR_CONTROLLER: &'static str = "0x253553366Da8546fC250F225fe3d25d0C782303b";

/// Where the contract is asked.
pub const PUBLIC_ETH_RPC: &'static str = "https://ethereum-rpc.publicnode.com";

/// Where `.box` names are asked for.
pub const RDAP_BOX_ENDPOINT: &'static str = "https://rdap.centralnic.com/box/domain";

/// Where `.id` names are asked for.
pub const RDAP_ID_ENDPOINT: &'static str = "https://rdap.pandi.id/rdap/domain";

/// How often a check is made again.
pub const DEFAULT_MAX_RETRIES: u32 = 5;

/// The base of the wait before a check is made again, in milliseconds.
pub const DEFAULT_INITIAL_BACKOFF_MS: u64 = 500;

/// The longest wait before a check is made again, in seconds.
pub const DEFAULT_MAX_BACKOFF_SECS: u64 = 30;

/// How long an answer may take, in seconds.
pub const REQUEST_TIMEOUT_SECS: u64 = 30;

/// How long a connection may take, in seconds.
pub const CONNECT_TIMEOUT_SECS: u64 = 10;

/// How many idle connections to a host are kept.
pub const POOL_MAX_IDLE_PER_HOST: usize = 10;

/// How long an idle connection is kept, in seconds.
pub const POOL_IDLE_TIMEOUT_SECS: u64 = 90;

/// How often an idle connection is probed, in seconds.
pub const TCP_KEEPALIVE_SECS: u64 = 60;

/// Why a check failed.
#[derive(Debug)]
pub enum CheckError {
    RateLimited(String),
    Timeout(String),
    Connection(String),
    Rpc(String),
    Http { status: u16, message: String },
    Other(String),
}

/// The model of a [`CheckError`].
pub ghost enum CheckErrorView {
    RateLimited(Seq<char>),
    Timeout(Seq<char>),
    Connection(Seq<char>),
    Rpc(Seq<char>),
    Http { status: u16, message: Seq<char> },
    Other(Seq<char>),
}

impl View for CheckError {
    type V = CheckErrorView;

    open spec fn view(&self) -> CheckErrorView {
        match self {
            CheckError::RateLimited(m) => CheckErrorView::RateLimited(m@),
            CheckError::Timeout(m) => CheckErrorView::Timeout(m@),
            CheckError::Connection(m) => CheckErrorView::Connection(m@),
            CheckError::Rpc(m) => CheckErrorView::Rpc(m@),
            CheckError::Http { status, message } => CheckErrorView::Http {
                status: *status,
                message: message@,
            },
            CheckError::Other(m) => CheckErrorView::Other(m@),
        }
    }
}

impl CheckErrorView {
    /// The message for the user.
    pub open spec fn text(self) -> Seq<char> {
        match self {
            CheckErrorView::RateLimited(m) => "Rate limited: "@ + m,
            CheckErrorView::Timeout(m) => "Timeout: "@ + m,
            CheckErrorView::Connection(m) => "Connection error: "@ + m,
            CheckErrorView::Rpc(m) => "RPC error: "@ + m,
            CheckErrorView::Http { status, message } => "HTTP error: "@ + decimal(status as nat)
                + " - "@ + message,
            CheckErrorView::Other(m) => "Other error: "@ + m,
        }
    }

    /// Another attempt may succeed: the server asked for patience or failed, or
    /// could not be reached in time.
    pub open spec fn retryable(self) -> bool {
        match self {
            CheckErrorView::RateLimited(_) => true,
            CheckErrorView::Timeout(_) => true,
            CheckErrorView::Connection(_) => true,
            CheckErrorView::Http { status, .. } => status == 429 || 500 <= status <= 599,
            CheckErrorView::Rpc(_) => false,
            CheckErrorView::Other(_) => false,
        }
    }
}

impl CheckError {
    /// The message for the user.
    pub fn message(&self) -> (r: String)
        ensures
            r@ == self@.text(),
    {
        match self {
            CheckError::RateLimited(m) => "Rate limited: ".to_owned().concat(m.as_str()),
            CheckError::Timeout(m) => "Timeout: ".to_owned().concat(m.as_str()),
            CheckError::Connection(m) => "Connection error: ".to_owned().concat(m.as_str()),
            CheckError::Rpc(m) => "RPC error: ".to_owned().concat(m.as_str()),
            CheckError::Http { status, message } => {
                let number = decimal_text(*status as u64);
                "HTTP error: ".to_owned().concat(number.as_str()).concat(" - ").concat(
                    message.as_str(),
                )
            },
            CheckError::Other(m) => "Other error: ".to_owned().concat(m.as_str()),
        }
    }

    /// Whether another attempt may succeed.
    pub fn is_retryable(&self) -> (r: bool)
        ensures
            r == self@.retryable(),
    {
        match self {
            CheckError::RateLimited(_) => true,
            CheckError::Timeout(_) => true,
            CheckError::Connection(_) => true,
            CheckError::Http { status, .. } => *status == 429 || (500 <= *status && *status <= 599),
            CheckError::Rpc(_) => false,
            CheckError::Other(_) => false,
        }
    }
}

/// What a check found out, or why it failed.
#[derive(Debug)]
pub enum CheckResult {
    Available,
    Taken,
    Error(CheckError),
}

/// The model of a [`CheckResult`].
pub ghost enum CheckResultView {
    Available,
    Taken,
    Error(CheckErrorView),
}

impl View for CheckResult {
    type V = CheckResultView;

    open spec fn view(&self) -> CheckResultView {
        match self {
            CheckResult::Available => CheckResultView::Available,
            CheckResult::Taken => CheckResultView::Taken,
            CheckResult::Error(e) => CheckResultView::Error(e@),
        }
    }
}

impl CheckResultView {
    /// The status that is recorded.
    pub open spec fn status(self) -> DomainStatus {
        match self {
            CheckResultView::Available => DomainStatus::Available,
            CheckResultView::Taken => DomainStatus::Taken,
            CheckResultView::Error(_) => DomainStatus::Error,
        }
    }

    /// The error message that is recorded.
    pub open spec fn error(self) -> Option<Seq<char>> {
        match self {
            CheckResultView::Error(e) => Some(e.text()),
            _ => None,
        }
    }

    /// The check failed and another attempt may succeed.
    pub open spec fn retryable(self) -> bool {
        match self {
            CheckResultView::Error(e) => e.retryable(),
            _ => false,
        }
    }
}

impl CheckResult {
    /// The status that is recorded.
    pub fn to_status(&self) -> (r: DomainStatus)
        ensures
            r == self@.status(),
    {
        match self {
            CheckResult::Available => DomainStatus::Available,
            CheckResult::Taken => DomainStatus::Taken,
            CheckResult::Error(_) => DomainStatus::Error,
        }
    }

    /// The error message that is recorded.
    pub fn error_message(&self) -> (r: Option<String>)
        ensures
            opt_text(r) == self@.error(),
    {
        match self {
            CheckResult::Error(e) => Some(e.message()),
            _ => None,
        }
    }

    /// Whether the check failed and another attempt may succeed.
    pub fn is_retryable(&self) -> (r: bool)
        ensures
            r == self@.retryable(),
    {
        match self {
            CheckResult::Error(e) => e.is_retryable(),
            _ => false,
        }
    }
}

/// The model of an error is of its kind and holds what it holds; its message is
/// what the kind says, and behind it what the error holds.
pub proof fn messages_of_errors(e: CheckError)
    ensures
        e matches CheckError::RateLimited(m) ==> e@ == CheckErrorView::RateLimited(m@)
            && e@.text() == "Rate limited: "@ + m@,
        e matches CheckError::Timeout(m) ==> e@ == CheckErrorView::Timeout(m@) && e@.text()
            == "Timeout: "@ + m@,
        e matches CheckError::Connection(m) ==> e@ == CheckErrorView::Connection(m@) && e@.text()
            == "Connection error: "@ + m@,
        e matches CheckError::Rpc(m) ==> e@ == CheckErrorView::Rpc(m@) && e@.text()
            == "RPC error: "@ + m@,
        e matches CheckError::Http { status, message } ==> e@ == (CheckErrorView::Http {
            status,
            message: message@,
        }) && e@.text() == "HTTP error: "@ + decimal(status as nat) + " - "@ + message@,
        e matches CheckError::Other(m) ==> e@ == CheckErrorView::Other(m@) && e@.text()
            == "Other error: "@ + m@,
{
}

/// Another attempt is made exactly after a rate limit, a timeout, a failed
/// connection, and an HTTP status that asks for patience or tells of a failure of
/// the server.
pub proof fn errors_worth_another_attempt(e: CheckErrorView)
    ensures
        e.retryable() <==> {
            ||| e is RateLimited
            ||| e is Timeout
            ||| e is Connection
            ||| e is Http && (e->status == 429 || 500 <= e->status <= 599)
        },
{
}

/// The status recorded of a result is that of its kind. A result that is no error
/// leaves no message and is not worth another attempt; an error leaves its message,
/// and is worth another attempt exactly if the error is.
pub proof fn what_results_leave(r: CheckResult)
    ensures
        r is Available <==> r@ is Available,
        r is Taken <==> r@ is Taken,
        r matches CheckResult::Error(e) ==> r@ == CheckResultView::Error(e@),
        r@.status() == DomainStatus::Available <==> r@ is Available,
        r@.status() == DomainStatus::Taken <==> r@ is Taken,
        r@.status() == DomainStatus::Error <==> r@ is Error,
        r@.error() is Some <==> r@ is Error,
        r@ matches CheckResultView::Error(e) ==> r@.error() == Some(e.text()),
        r@.retryable() <==> r@ is Error && r@->Error_0.retryable(),
{
}

/// How often requests may be sent.
#[derive(Debug, Clone, Copy, PartialEq, Eq)]
pub struct RateQuota {
    /// How many requests may be sent at once.
    pub burst: u32,
    /// After how many nanoseconds one more may be sent.
    pub replenish_nanos: u64,
}

/// `governor::Quota::per_second`, as its burst size and its replenish interval:
/// the number given is the burst size, and one request is granted again in that
/// part of a second, rounded down to nanoseconds.
#[verifier::external_body]
fn quota_per_second(cells: u32) -> (r: RateQuota)
    requires
        cells > 0,
    ensures
        r.burst == cells,
        r.replenish_nanos == 1_000_000_000int / (cells as int),
{
    let quota = Quota::per_second(NonZeroU32::new(cells).unwrap());
    RateQuota {
        burst: quota.burst_size().get(),
        replenish_nanos: quota.replenish_interval().as_nanos() as u64,
    }
}

/// The quotas of the three domains.
#[derive(Debug, Clone, Copy, PartialEq, Eq)]
pub struct DualRateLimiter {
    pub eth: RateQuota,
    pub box_domain: RateQuota,
    pub id_domain: RateQuota,
}

/// The number of requests per second that is granted when `rps` is asked for:
/// never none.
pub open spec fn granted_rps(rps: u32) -> u32 {
    if rps == 0 {
        1
    } else {
        rps
    }
}

/// The quota grants that many requests per second.
pub open spec fn grants(quota: RateQuota, rps: u32) -> bool {
    quota.burst == rps && quota.replenish_nanos == 1_000_000_000int / (rps as int)
}

impl DualRateLimiter {
    /// The quotas for these numbers of requests per second.
    pub fn new(eth_rps: u32, box_rps: u32, id_rps: u32) -> (r: DualRateLimiter)
        ensures
            grants(r.eth, granted_rps(eth_rps)),
            grants(r.box_domain, granted_rps(box_rps)),
            grants(r.id_domain, granted_rps(id_rps)),
    {
        let eth: u32 = if eth_rps == 0 {
            1
        } else {
            eth_rps
        };
        let box_domain: u32 = if box_rps == 0 {
            1
        } else {
            box_rps
        };
        let id_domain: u32 = if id_rps == 0 {
            1
        } else {
            id_rps
        };
        DualRateLimiter {
            eth: quota_per_second(eth),
            box_domain: quota_per_second(box_domain),
            id_domain: quota_per_second(id_domain),
        }
    }
}

/// As many requests per second are granted as are asked for, and one if none is:
/// that many at once, and one more each time that part of a second has passed.
pub proof fn quotas_grant_what_is_asked(quota: RateQuota, rps: u32)
    requires
        grants(quota, granted_rps(rps)),
    ensures
        quota.burst == if rps == 0 {
            1
        } else {
            rps
        },
        quota.burst * quota.replenish_nanos <= 1_000_000_000,
        1_000_000_000 < quota.burst * (quota.replenish_nanos + 1),
{
    let (b, n) = (quota.burst as int, quota.replenish_nanos as int);
    assert(b * n <= 1_000_000_000int && 1_000_000_000int < b * (n + 1)) by (nonlinear_arith)
        requires
            b > 0,
            n == 1_000_000_000int / b,
    ;
}

/// The longest wait before an attempt, in milliseconds. It doubles with each of
/// the first ten attempts, up to the limit.
pub open spec fn backoff_limit(attempt: u32, base_ms: u64, max_secs: u64) -> int {
    let doublings: nat = if attempt < 10 {
        attempt as nat
    } else {
        10
    };
    let wanted = base_ms * pow2(doublings);
    if wanted < max_secs * 1000 {
        wanted
    } else {
        max_secs * 1000
    }
}

/// The longest wait before an attempt, in milliseconds.
pub fn backoff_limit_ms(attempt: u32, base_ms: u64, max_secs: u64) -> (r: u64)
    requires
        max_secs * 1000 <= u64::MAX,
    ensures
        r == backoff_limit(attempt, base_ms, max_secs),
{
    let doublings: u32 = if attempt < 10 {
        attempt
    } else {
        10
    };
    let mut factor: u128 = 1;
    let mut i: u32 = 0;
    proof {
        vstd::arithmetic::power2::lemma2_to64();
    }
    while i < doublings
        invariant
            i <= doublings <= 10,
            factor == pow2(i as nat),
            factor <= 1024,
        decreases doublings - i,
    {
        proof {
            vstd::arithmetic::power2::lemma_pow2_unfold((i + 1) as nat);
            vstd::arithmetic::power2::lemma2_to64();
            if i + 1 < 10 {
                vstd::arithmetic::power2::lemma_pow2_strictly_increases((i + 1) as nat, 10);
            }
        }
        factor = factor * 2;
        i = i + 1;
    }
    assert(base_ms * factor <= u64::MAX * 1024) by (nonlinear_arith)
        requires
            factor <= 1024,
            base_ms <= u64::MAX,
    ;
    let wanted: u128 = (base_ms as u128) * factor;
    let max_ms: u64 = max_secs * 1000;
    if wanted < max_ms as u128 {
        wanted as u64
    } else {
        max_ms
    }
}

/// The wait never exceeds the limit, does not get shorter from one attempt to
/// the next, and stays the same after the tenth.
pub proof fn backoff_grows_to_its_limit(attempt: u32, later: u32, base_ms: u64, max_secs: u64)
    requires
        attempt <= later,
    ensures
        0 <= backoff_limit(attempt, base_ms, max_secs) <= max_secs * 1000,
        backoff_limit(attempt, base_ms, max_secs) <= backoff_limit(later, base_ms, max_secs),
        attempt >= 10 ==> backoff_limit(attempt, base_ms, max_secs) == backoff_limit(
            later,
            base_ms,
            max_secs,
        ),
{
    let a: nat = if attempt < 10 {
        attempt as nat
    } else {
        10
    };
    let b: nat = if later < 10 {
        later as nat
    } else {
        10
    };
    if a < b {
        vstd::arithmetic::power2::lemma_pow2_strictly_increases(a, b);
    }
    vstd::arithmetic::power2::lemma_pow2_pos(a);
    let (x, y) = (pow2(a), pow2(b));
    assert(0 <= base_ms * x <= base_ms * y) by (nonlinear_arith)
        requires
            0 <= x <= y,
            0 <= base_ms,
    ;
}

/// The longest wait is the base before the attempt with number zero, twice as long
/// before each of the next ten as before the one that precedes it, and the same
/// from then on; but never longer than the limit allows.
pub proof fn backoff_doubles(attempt: u32, base_ms: u64, max_secs: u64)
    requires
        attempt < u32::MAX,
    ensures
        ({
            let most = max_secs * 1000;
            let here = backoff_limit(attempt, base_ms, max_secs);
            let next = backoff_limit((attempt + 1) as u32, base_ms, max_secs);
            &&& backoff_limit(0, base_ms, max_secs) == if base_ms < most {
                base_ms as int
            } else {
                most
            }
            &&& attempt < 10 ==> next == if 2 * here < most {
                2 * here
            } else {
                most
            }
            &&& attempt >= 10 ==> next == here
        }),
{
    vstd::arithmetic::power2::lemma2_to64();
    if attempt < 10 {
        vstd::arithmetic::power2::lemma_pow2_unfold((attempt + 1) as nat);
        vstd::arithmetic::power2::lemma_pow2_pos(attempt as nat);
        let x = pow2(attempt as nat);
        assert(base_ms * (2 * x) == 2 * (base_ms * x) && 0 <= base_ms * x) by (nonlinear_arith)
            requires
                0 <= x,
                0 <= base_ms,
        ;
        assert(pow2((attempt + 1) as nat) == 2 * x);
    }
    assert(base_ms * 1 == base_ms);
}

/// Before the five retries of a check the wait is drawn over one, two, four, eight
/// and sixteen seconds.
pub proof fn waits_of_the_retries(retry: u32)
    requires
        1 <= retry <= 5,
    ensures
        retry <= DEFAULT_MAX_RETRIES,
        backoff_limit(retry, DEFAULT_INITIAL_BACKOFF_MS, DEFAULT_MAX_BACKOFF_SECS) == if retry == 1 {
            1000int
        } else if retry == 2 {
            2000int
        } else if retry == 3 {
            4000int
        } else if retry == 4 {
            8000int
        } else {
            16000int
        },
{
    vstd::arithmetic::power2::lemma2_to64();
}

/// `rand::Rng::gen_range` of the thread's generator, over the numbers from zero
/// to `high`. Which of them it is rests on chance.
#[verifier::external_body]
fn random_up_to(high: u64) -> (r: u64)
    ensures
        r <= high,
{
    rand::thread_rng().gen_range(0..=high)
}

/// `ms` came of a draw of the random generator over the numbers from zero to
/// `high`.
pub closed spec fn drawn(high: u64, ms: u64) -> bool {
    call_ensures(random_up_to, (high,), ms)
}

/// A number counts as drawn only if the generator gave it for that range.
proof fn draws_are_of_the_generator(high: u64, ms: u64)
    ensures
        drawn(high, ms) <==> call_ensures(random_up_to, (high,), ms),
{
}

/// A draw stays within its range.
pub proof fn draws_stay_in_range(high: u64, ms: u64)
    requires
        drawn(high, ms),
    ensures
        ms <= high,
{
    draws_are_of_the_generator(high, ms);
}

/// The span of that many milliseconds.
pub uninterp spec fn millis(ms: u64) -> Duration;

/// `Duration::from_millis` makes the span of the number of milliseconds given.
pub assume_specification[ Duration::from_millis ](ms: u64) -> (r: Duration)
    ensures
        r == millis(ms),
;

/// A random wait before an attempt: the number of milliseconds that the generator
/// draws over the range up to the longest wait. Only where that is zero is there
/// no draw, and no wait.
pub fn calculate_backoff(attempt: u32, base_ms: u64, max_secs: u64) -> (r: Duration)
    requires
        max_secs * 1000 <= u64::MAX,
    ensures
        exists|ms: u64|
            ms <= backoff_limit(attempt, base_ms, max_secs) && r == #[trigger] millis(ms),
        backoff_limit(attempt, base_ms, max_secs) == 0 ==> r == millis(0),
        backoff_limit(attempt, base_ms, max_secs) > 0 ==> exists|ms: u64| #[trigger]
            drawn(backoff_limit(attempt, base_ms, max_secs) as u64, ms) && r == millis(ms),
{
    let capped_ms: u64 = backoff_limit_ms(attempt, base_ms, max_secs);
    let jittered_ms: u64 = if capped_ms > 0 {
        random_up_to(capped_ms)
    } else {
        0
    };
    proof {
        if capped_ms > 0 {
            assert(drawn(backoff_limit(attempt, base_ms, max_secs) as u64, jittered_ms));
        }
    }
    Duration::from_millis(jittered_ms)
}

/// What came of a question to the contract.
#[derive(Debug)]
pub enum EthAnswer {
    /// Whether the name can be registered.
    Answered(bool),
    /// The call failed, with this message.
    Failed(String),
    /// No answer came in time.
    TimedOut,
}

/// What a message of a failed call says of the failure.
pub open spec fn rpc_failure(message: Seq<char>) -> CheckErrorView {
    let said = lowercase(message);
    if has_part(said, "rate limit"@) || has_part(said, "too many requests"@) {
        CheckErrorView::RateLimited(message)
    } else if has_part(said, "timeout"@) {
        CheckErrorView::Timeout(message)
    } else if has_part(said, "connection"@) {
        CheckErrorView::Connection(message)
    } else {
        CheckErrorView::Rpc(message)
    }
}

/// What an answer of the contract says of the name.
pub open spec fn eth_result(answer: EthAnswer) -> CheckResultView {
    match answer {
        EthAnswer::Answered(true) => CheckResultView::Available,
        EthAnswer::Answered(false) => CheckResultView::Taken,
        EthAnswer::Failed(message) => CheckResultView::Error(rpc_failure(message@)),
        EthAnswer::TimedOut => CheckResultView::Error(
            CheckErrorView::Timeout("Request timed out after 30s"@),
        ),
    }
}

/// What the contract answers decides; a failed call is told by its message, in
/// capitals or not, and a missing answer is a timeout. No failure changes the
/// message, and another attempt is made exactly where the message speaks of a rate
/// limit, of too many requests, of a timeout or of a connection, or where no answer
/// came.
pub proof fn answers_of_the_contract(answer: EthAnswer)
    ensures
        eth_result(answer) is Available <==> answer == EthAnswer::Answered(true),
        eth_result(answer) is Taken <==> answer == EthAnswer::Answered(false),
        answer is TimedOut ==> eth_result(answer) == CheckResultView::Error(
            CheckErrorView::Timeout("Request timed out after 30s"@),
        ),
        answer matches EthAnswer::Failed(message) ==> {
            let said = lowercase(message@);
            let limited = has_part(said, "rate limit"@) || has_part(said, "too many requests"@);
            let late = has_part(said, "timeout"@);
            let lost = has_part(said, "connection"@);
            let e = eth_result(answer)->Error_0;
            &&& eth_result(answer) is Error
            &&& limited <==> e == CheckErrorView::RateLimited(message@)
            &&& !limited && late <==> e == CheckErrorView::Timeout(message@)
            &&& !limited && !late && lost <==> e == CheckErrorView::Connection(message@)
            &&& !limited && !late && !lost <==> e == CheckErrorView::Rpc(message@)
            &&& eth_result(answer).retryable() <==> limited || late || lost
        },
{
}

/// The value of a hexadecimal digit.
pub open spec fn hex_value(c: char) -> Option<int> {
    if '0' <= c <= '9' {
        Some(c as int - '0' as int)
    } else if 'a' <= c <= 'f' {
        Some(c as int - 'a' as int + 10)
    } else if 'A' <= c <= 'F' {
        Some(c as int - 'A' as int + 10)
    } else {
        None
    }
}

/// `text` without the prefix `0x` or `0X`.
pub open spec fn without_prefix(text: Seq<char>) -> Seq<char> {
    if text.len() >= 2 && text[0] == '0' && (text[1] == 'x' || text[1] == 'X') {
        text.skip(2)
    } else {
        text
    }
}

/// `text` is forty hexadecimal digits, with or without a prefix.
pub open spec fn is_address(text: Seq<char>) -> bool {
    let digits = without_prefix(text);
    digits.len() == 40 && forall|i: int| 0 <= i < 40 ==> hex_value(#[trigger] digits[i]) is Some
}

/// The twenty bytes that the digits of an address stand for.
pub open spec fn address_bytes(text: Seq<char>) -> Seq<u8> {
    let digits = without_prefix(text);
    Seq::new(
        20,
        |i: int|
            (16 * hex_value(digits[2 * i]).unwrap() + hex_value(digits[2 * i + 1]).unwrap()) as u8,
    )
}

/// Twenty bytes in hexadecimal are an address, with or without a prefix, and are read
/// back from it.
pub proof fn addresses_read_back(bytes: Seq<u8>)
    requires
        bytes.len() == 20,
    ensures
        is_address(hex(bytes)) && address_bytes(hex(bytes)) == bytes,
        is_address(seq!['0', 'x'] + hex(bytes)) && address_bytes(seq!['0', 'x'] + hex(bytes))
            == bytes,
{
    let h = hex(bytes);
    assert forall|i: int| 0 <= i < 20 implies hex_value(#[trigger] h[2 * i]) == Some(
        bytes[i] as int / 16,
    ) && hex_value(h[2 * i + 1]) == Some(bytes[i] as int % 16) by {
        bytes_in_hexadecimal(bytes, i);
    }
    assert forall|k: int| 0 <= k < 40 implies hex_value(#[trigger] h[k]) is Some by {
        let i = k / 2;
        assert(k == 2 * i || k == 2 * i + 1);
        assert(hex_value(h[2 * i]) is Some);
    }
    assert(without_prefix(h) == h) by {
        let i: int = 0;
        bytes_in_hexadecimal(bytes, i);
        assert(h[2 * i] == h[0] && h[2 * i + 1] == h[1]);
    }
    assert(without_prefix(seq!['0', 'x'] + h) =~= h);
    assert(address_bytes(h) =~= bytes) by {
        assert forall|i: int| 0 <= i < 20 implies address_bytes(h)[i] == bytes[i] by {
            assert(hex_value(h[2 * i]) == Some(bytes[i] as int / 16));
        }
    }
    assert(address_bytes(seq!['0', 'x'] + h) =~= bytes);
}

/// What `alloy::primitives::Address` says of a text that is not an address.
pub uninterp spec fn address_error(text: Seq<char>) -> Seq<char>;

/// `alloy::primitives::Address::from_str`: an address is forty hexadecimal
/// digits of either case, with or without a prefix, and is read as the bytes
/// that the digits stand for. The message for any other text is fixed by the text.
#[verifier::external_body]
fn parse_address(text: &str) -> (r: Result<Vec<u8>, String>)
    ensures
        r is Ok <==> is_address(text@),
        r matches Ok(bytes) ==> bytes@ == address_bytes(text@),
        r matches Err(message) ==> message@ == address_error(text@),
{
    match text.parse::<Address>() {
        Ok(address) => Ok(address.as_slice().to_vec()),
        Err(e) => Err(e.to_string()),
    }
}

/// What `reqwest::Url` makes of a text: the URL in its normal form, or what is
/// wrong with it.
pub uninterp spec fn parsed_url(text: Seq<char>) -> Result<Seq<char>, Seq<char>>;

/// `reqwest::Url::parse`. The outcome is fixed by the text alone.
#[verifier::external_body]
fn parse_url(text: &str) -> (r: Result<String, String>)
    ensures
        r is Ok <==> parsed_url(text@) is Ok,
        r matches Ok(url) ==> url@ == parsed_url(text@)->Ok_0,
        r matches Err(message) ==> message@ == parsed_url(text@)->Err_0,
{
    match Url::parse(text) {
        Ok(url) => Ok(url.to_string()),
        Err(e) => Err(e.to_string()),
    }
}

/// Where and what the contract is asked.
#[derive(Debug)]
pub struct EnsChecker {
    /// The URL of the server that is asked.
    pub rpc_url: String,
    /// The address of the contract.
    pub controller_address: Vec<u8>,
}

impl EnsChecker {
    /// A checker made of what came of reading the URL and the address.
    pub fn from_parts(
        url: Result<String, String>,
        address: Result<Vec<u8>, String>,
    ) -> (r: Result<EnsChecker, CheckError>)
        ensures
            r is Ok <==> url is Ok && address is Ok,
            r matches Ok(c) ==> c.rpc_url == url->Ok_0 && c.controller_address == address->Ok_0,
            r matches Err(e) ==> match (url, address) {
                (Err(m), _) => e@ == CheckErrorView::Other("Invalid RPC URL: "@ + m@),
                (Ok(_), Err(m)) => e@ == CheckErrorView::Other(
                    "Invalid controller address: "@ + m@,
                ),
                (Ok(_), Ok(_)) => false,
            },
    {
        match url {
            Err(m) => Err(
                CheckError::Other("Invalid RPC URL: ".to_owned().concat(m.as_str())),
            ),
            Ok(rpc_url) => match address {
                Err(m) => Err(
                    CheckError::Other(
                        "Invalid controller address: ".to_owned().concat(m.as_str()),
                    ),
                ),
                Ok(controller_address) => Ok(EnsChecker { rpc_url, controller_address }),
            },
        }
    }

    /// A checker that asks the server at that URL.
    pub fn with_rpc(rpc_url: &str) -> (r: Result<EnsChecker, CheckError>)
        ensures
            r is Ok <==> parsed_url(rpc_url@) is Ok,
            r matches Ok(c) ==> c.rpc_url@ == parsed_url(rpc_url@)->Ok_0 && c.controller_address@
                == address_bytes(ETH_REGISTRAR_CONTROLLER@),
            r matches Err(e) ==> e@ == CheckErrorView::Other(
                "Invalid RPC URL: "@ + parsed_url(rpc_url@)->Err_0,
            ),
    {
        let url = parse_url(rpc_url);
        let address = parse_address(ETH_REGISTRAR_CONTROLLER);
        proof {
            controller_is_an_address();
        }
        Self::from_parts(url, address)
    }

    /// A checker that asks a public server.
    pub fn new() -> (r: Result<EnsChecker, CheckError>)
        ensures
            r is Ok <==> parsed_url(PUBLIC_ETH_RPC@) is Ok,
            r matches Ok(c) ==> c.rpc_url@ == parsed_url(PUBLIC_ETH_RPC@)->Ok_0
                && c.controller_address@ == address_bytes(ETH_REGISTRAR_CONTROLLER@),
            r matches Err(e) ==> e@ == CheckErrorView::Other(
                "Invalid RPC URL: "@ + parsed_url(PUBLIC_ETH_RPC@)->Err_0,
            ),
    {
        Self::with_rpc(PUBLIC_ETH_RPC)
    }

    /// What the answer to the question says of the name.
    pub fn check_available(&self, answer: EthAnswer) -> (r: CheckResult)
        ensures
            r@ == eth_result(answer),
    {
        match answer {
            EthAnswer::Answered(is_available) => if is_available {
                CheckResult::Available
            } else {
                CheckResult::Taken
            },
            EthAnswer::Failed(message) => {
                let said = to_lowercase(message.as_str());
                if contains(said.as_str(), "rate limit") || contains(
                    said.as_str(),
                    "too many requests",
                ) {
                    CheckResult::Error(CheckError::RateLimited(message))
                } else if contains(said.as_str(), "timeout") {
                    CheckResult::Error(CheckError::Timeout(message))
                } else if contains(said.as_str(), "connection") {
                    CheckResult::Error(CheckError::Connection(message))
                } else {
                    CheckResult::Error(CheckError::Rpc(message))
                }
            },
            EthAnswer::TimedOut => CheckResult::Error(
                CheckError::Timeout("Request timed out after 30s".to_owned()),
            ),
        }
    }
}

/// The address of the contract is written as an address.
pub proof fn controller_is_an_address()
    ensures
        is_address(ETH_REGISTRAR_CONTROLLER@),
{
    reveal_strlit("0x253553366Da8546fC250F225fe3d25d0C782303b");
    let digits = without_prefix(ETH_REGISTRAR_CONTROLLER@);
    assert(digits.len() == 40);
    assert(forall|i: int| 0 <= i < 40 ==> hex_value(#[trigger] digits[i]) is Some);
}

/// What came of an HTTP request.
#[derive(Debug)]
pub enum HttpAnswer {
    /// The server answered with this status.
    Status(u16),
    /// The request failed, with this message: it took too long, no connection
    /// came about, or something else.
    Failed { timeout: bool, connect: bool, message: String },
}

/// What the status of an RDAP answer says of the name.
pub open spec fn rdap_status_result(status: u16) -> CheckResultView {
    if status == 404 {
        CheckResultView::Available
    } else if status == 200 {
        CheckResultView::Taken
    } else if status == 429 {
        CheckResultView::Error(CheckErrorView::RateLimited("Rate limited by RDAP server"@))
    } else if 500 <= status <= 599 {
        CheckResultView::Error(CheckErrorView::Http { status, message: "Server error"@ })
    } else {
        CheckResultView::Error(
            CheckErrorView::Http {
                status,
                message: "Unexpected status code: "@ + decimal(status as nat),
            },
        )
    }
}

/// What an RDAP answer says of the name.
pub open spec fn rdap_result(answer: HttpAnswer) -> CheckResultView {
    match answer {
        HttpAnswer::Status(status) => rdap_status_result(status),
        HttpAnswer::Failed { timeout, connect, message } => CheckResultView::Error(
            if timeout {
                CheckErrorView::Timeout(message@)
            } else if connect {
                CheckErrorView::Connection(message@)
            } else {
                CheckErrorView::Other(message@)
            },
        ),
    }
}

/// A name that is not found is available, one that is found is taken, and the
/// request is made again exactly when the server asks for patience or fails. Any
/// other status is an error that names it.
pub proof fn rdap_statuses(status: u16)
    ensures
        rdap_status_result(status) == CheckResultView::Available <==> status == 404,
        rdap_status_result(status) == CheckResultView::Taken <==> status == 200,
        rdap_status_result(status).retryable() <==> status == 429 || 500 <= status <= 599,
        rdap_result(HttpAnswer::Status(status)) == rdap_status_result(status),
        status == 429 <==> rdap_status_result(status) == CheckResultView::Error(
            CheckErrorView::RateLimited("Rate limited by RDAP server"@),
        ),
        500 <= status <= 599 ==> rdap_status_result(status) == CheckResultView::Error(
            CheckErrorView::Http { status, message: "Server error"@ },
        ),
        status != 404 && status != 200 && status != 429 && !(500 <= status <= 599)
            ==> rdap_status_result(status) == CheckResultView::Error(
            CheckErrorView::Http {
                status,
                message: "Unexpected status code: "@ + decimal(status as nat),
            },
        ),
{
}

/// A failed request is a timeout exactly if it took too long, a failed connection
/// exactly if it did not take too long and no connection came about, and something
/// else otherwise. It is made again exactly in the first two cases, and its message
/// is kept.
pub proof fn rdap_failures(timeout: bool, connect: bool, message: String)
    ensures
        ({
            let r = rdap_result(HttpAnswer::Failed { timeout, connect, message });
            &&& r is Error
            &&& r->Error_0 is Timeout <==> timeout
            &&& r->Error_0 is Connection <==> !timeout && connect
            &&& r->Error_0 is Other <==> !timeout && !connect
            &&& r.retryable() <==> timeout || connect
            &&& r->Error_0 == CheckErrorView::Timeout(message@) || r->Error_0
                == CheckErrorView::Connection(message@) || r->Error_0 == CheckErrorView::Other(
                message@,
            )
        }),
{
}

/// What an RDAP answer says of the name.
fn read_rdap_answer(answer: HttpAnswer) -> (r: CheckResult)
    ensures
        r@ == rdap_result(answer),
{
    match answer {
        HttpAnswer::Status(status) => {
            if status == 404 {
                CheckResult::Available
            } else if status == 200 {
                CheckResult::Taken
            } else if status == 429 {
                CheckResult::Error(
                    CheckError::RateLimited("Rate limited by RDAP server".to_owned()),
                )
            } else if 500 <= status && status <= 599 {
                CheckResult::Error(
                    CheckError::Http { status, message: "Server error".to_owned() },
                )
            } else {
                let number = decimal_text(status as u64);
                let message = "Unexpected status code: ".to_owned().concat(number.as_str());
                CheckResult::Error(CheckError::Http { status, message })
            }
        },
        HttpAnswer::Failed { timeout, connect, message } => {
            if timeout {
                CheckResult::Error(CheckError::Timeout(message))
            } else if connect {
                CheckResult::Error(CheckError::Connection(message))
            } else {
                CheckResult::Error(CheckError::Other(message))
            }
        },
    }
}

/// The URL of `name` under a domain.
pub open spec fn rdap_url(base_url: Seq<char>, name: Seq<char>, domain: Seq<char>) -> Seq<char> {
    base_url + "/"@ + name + "."@ + domain
}

/// The URL of `name` under a domain.
fn make_rdap_url(base_url: &str, name: &str, domain: &str) -> (r: String)
    ensures
        r@ == rdap_url(base_url@, name@, domain@),
{
    base_url.to_owned().concat("/").concat(name).concat(".").concat(domain)
}

/// The error when an HTTP client cannot be made.
pub open spec fn no_client(message: Seq<char>) -> CheckErrorView {
    CheckErrorView::Other("Failed to create HTTP client: "@ + message)
}

/// The URL of a name is that of the server, a slash, the name, a dot and the
/// domain, so two names never have one URL. A client that could not be made is
/// reported with what went wrong.
pub proof fn rdap_urls(
    base_url: Seq<char>,
    name: Seq<char>,
    other: Seq<char>,
    domain: Seq<char>,
    message: Seq<char>,
)
    ensures
        rdap_url(base_url, name, domain) == base_url + seq!['/'] + name + seq!['.'] + domain,
        rdap_url(base_url, name, domain) == rdap_url(base_url, other, domain) ==> name == other,
        no_client(message) == CheckErrorView::Other("Failed to create HTTP client: "@ + message),
{
    reveal_strlit("/");
    reveal_strlit(".");
    assert("/"@ =~= seq!['/'] && "."@ =~= seq!['.']);
    let a = rdap_url(base_url, name, domain);
    let b = rdap_url(base_url, other, domain);
    if a == b {
        let n = base_url.len() + 1;
        assert(a.len() == n + name.len() + 1 + domain.len());
        assert(b.len() == n + other.len() + 1 + domain.len());
        assert(name =~= a.subrange(n as int, (n + name.len()) as int));
        assert(other =~= b.subrange(n as int, (n + name.len()) as int));
    }
}

/// Asks for `.box` names, with a client of type `C`.
#[derive(Debug)]
pub struct RdapChecker<C> {
    pub client: C,
    pub base_url: String,
}

impl<C> RdapChecker<C> {
    /// A checker that asks at the usual place, given the client or what went
    /// wrong when it was made.
    pub fn new(client: Result<C, String>) -> (r: Result<Self, CheckError>)
        ensures
            r is Ok <==> client is Ok,
            r matches Ok(c) ==> c.client == client->Ok_0 && c.base_url@ == RDAP_BOX_ENDPOINT@,
            r matches Err(e) ==> e@ == no_client(client->Err_0@),
    {
        Self::with_endpoint(RDAP_BOX_ENDPOINT, client)
    }

    /// A checker that asks at `endpoint`, given the client or what went wrong
    /// when it was made.
    pub fn with_endpoint(endpoint: &str, client: Result<C, String>) -> (r: Result<Self, CheckError>)
        ensures
            r is Ok <==> client is Ok,
            r matches Ok(c) ==> c.client == client->Ok_0 && c.base_url@ == endpoint@,
            r matches Err(e) ==> e@ == no_client(client->Err_0@),
    {
        match client {
            Ok(client) => Ok(RdapChecker { client, base_url: endpoint.to_owned() }),
            Err(m) => Err(
                CheckError::Other("Failed to create HTTP client: ".to_owned().concat(m.as_str())),
            ),
        }
    }

    /// The URL to ask for `name`.
    pub fn request_url(&self, name: &str) -> (r: String)
        ensures
            r@ == rdap_url(self.base_url@, name@, "box"@),
    {
        make_rdap_url(self.base_url.as_str(), name, "box")
    }

    /// What the answer to the request says of the name.
    pub fn check_available(&self, answer: HttpAnswer) -> (r: CheckResult)
        ensures
            r@ == rdap_result(answer),
    {
        read_rdap_answer(answer)
    }
}

/// Asks for `.id` names, with a client of type `C`.
#[derive(Debug)]
pub struct IdChecker<C> {
    pub client: C,
    pub base_url: String,
}

impl<C> IdChecker<C> {
    /// A checker that asks at the usual place, given the client or what went
    /// wrong when it was made.
    pub fn new(client: Result<C, String>) -> (r: Result<Self, CheckError>)
        ensures
            r is Ok <==> client is Ok,
            r matches Ok(c) ==> c.client == client->Ok_0 && c.base_url@ == RDAP_ID_ENDPOINT@,
            r matches Err(e) ==> e@ == no_client(client->Err_0@),
    {
        Self::with_endpoint(RDAP_ID_ENDPOINT, client)
    }

    /// A checker that asks at `endpoint`, given the client or what went wrong
    /// when it was made.
    pub fn with_endpoint(endpoint: &str, client: Result<C, String>) -> (r: Result<Self, CheckError>)
        ensures
            r is Ok <==> client is Ok,
            r matches Ok(c) ==> c.client == client->Ok_0 && c.base_url@ == endpoint@,
            r matches Err(e) ==> e@ == no_client(client->Err_0@),
    {
        match client {
            Ok(client) => Ok(IdChecker { client, base_url: endpoint.to_owned() }),
            Err(m) => Err(
                CheckError::Other("Failed to create HTTP client: ".to_owned().concat(m.as_str())),
            ),
        }
    }

    /// The URL to ask for `name`.
    pub fn request_url(&self, name: &str) -> (r: String)
        ensures
            r@ == rdap_url(self.base_url@, name@, "id"@),
    {
        make_rdap_url(self.base_url.as_str(), name, "id")
    }

    /// What the answer to the request says of the name.
    pub fn check_available(&self, answer: HttpAnswer) -> (r: CheckResult)
        ensures
            r@ == rdap_result(answer),
    {
        read_rdap_answer(answer)
    }
}

/// What follows on an attempt.
#[derive(Debug)]
pub enum RetryStep {
    /// Its result stands.
    Stop,
    /// The check is made again after this wait.
    Wait(Duration),
}

/// The attempts at one check.
#[derive(Debug)]
pub struct Attempts {
    retries: u32,
}

impl View for Attempts {
    type V = nat;

    /// How often the check was made again.
    closed spec fn view(&self) -> nat {
        self.retries as nat
    }
}

/// After a result, with so many attempts made again before, the check is made again.
pub open spec fn tries_again(retries: nat, result: CheckResultView) -> bool {
    result.retryable() && retries < DEFAULT_MAX_RETRIES
}

impl Attempts {
    /// No attempt was made again yet.
    pub fn new() -> (r: Attempts)
        ensures
            r@ == 0,
    {
        Attempts { retries: 0 }
    }

    /// How often the check was made again.
    pub fn retries(&self) -> (r: u32)
        ensures
            r == self@,
    {
        self.retries
    }

    /// What follows on an attempt with this result.
    pub fn check_with_retry(&mut self, result: &CheckResult) -> (r: RetryStep)
        ensures
            r is Wait <==> tries_again(old(self)@, result@),
            r is Wait ==> final(self)@ == old(self)@ + 1,
            r is Stop ==> final(self)@ == old(self)@,
            r matches RetryStep::Wait(wait) ==> exists|ms: u64|
                ms <= backoff_limit(
                    final(self)@ as u32,
                    DEFAULT_INITIAL_BACKOFF_MS,
                    DEFAULT_MAX_BACKOFF_SECS,
                ) && wait == #[trigger] millis(ms),
            r matches RetryStep::Wait(wait) ==> exists|ms: u64| #[trigger]
                drawn(
                    backoff_limit(
                        final(self)@ as u32,
                        DEFAULT_INITIAL_BACKOFF_MS,
                        DEFAULT_MAX_BACKOFF_SECS,
                    ) as u64,
                    ms,
                ) && wait == millis(ms),
    {
        if !result.is_retryable() || self.retries >= DEFAULT_MAX_RETRIES {
            return RetryStep::Stop;
        }
        self.retries = self.retries + 1;
        proof {
            waits_of_the_retries(self.retries);
        }
        RetryStep::Wait(
            calculate_backoff(self.retries, DEFAULT_INITIAL_BACKOFF_MS, DEFAULT_MAX_BACKOFF_SECS),
        )
    }
}

/// How many attempts are made at a check if they give these results, one after
/// the other, and so many were made again before.
pub open spec fn attempts_made(results: Seq<CheckResultView>, retries: nat) -> nat
    decreases results.len(),
{
    if results.len() == 0 {
        0
    } else if tries_again(retries, results[0]) {
        1 + attempts_made(results.drop_first(), retries + 1)
    } else {
        1
    }
}

/// The attempts at a check end: at the first result that is not worth another
/// attempt, and in any case after the allowed number of retries.
pub proof fn attempts_end(results: Seq<CheckResultView>, retries: nat)
    requires
        retries <= DEFAULT_MAX_RETRIES,
    ensures
        attempts_made(results, retries) <= DEFAULT_MAX_RETRIES + 1 - retries,
        attempts_made(results, retries) <= results.len(),
        forall|i: int|
            0 <= i < attempts_made(results, retries) - 1 ==> (#[trigger] results[i]).retryable(),
        results.len() > DEFAULT_MAX_RETRIES - retries ==> {
            let last = attempts_made(results, retries) - 1;
            &&& 0 <= last < results.len()
            &&& !results[last].retryable() || last == DEFAULT_MAX_RETRIES - retries
        },
    decreases results.len(),
{
    if results.len() > 0 && tries_again(retries, results[0]) {
        let rest = results.drop_first();
        attempts_end(rest, retries + 1);
        let n = attempts_made(results, retries);
        assert forall|i: int| 0 <= i < n - 1 implies (#[trigger] results[i]).retryable() by {
            if i > 0 {
                assert(results[i] == rest[i - 1]);
            }
        }
    }
}

/// A check is made again exactly if its result is worth another attempt and it was
/// made again fewer than five times. So if each result is worth another attempt
/// there are six attempts in all, and otherwise the first that is not is the last,
/// if it comes before the sixth.
pub proof fn six_attempts_at_most(results: Seq<CheckResultView>, retries: nat, first: int)
    requires
        retries <= 5,
    ensures
        forall|r: CheckResultView| #[trigger]
            tries_again(retries, r) <==> r.retryable() && retries < 5,
        results.len() + retries >= 6 && (forall|i: int|
            0 <= i < results.len() ==> (#[trigger] results[i]).retryable()) ==> attempts_made(
            results,
            retries,
        ) == 6 - retries,
        0 <= first < results.len() && first + retries < 6 && !results[first].retryable() && (
        forall|i: int| 0 <= i < first ==> (#[trigger] results[i]).retryable()) ==> attempts_made(
            results,
            retries,
        ) == first + 1,
    decreases results.len(),
{
    if results.len() > 0 && tries_again(retries, results[0]) {
        let rest = results.drop_first();
        six_attempts_at_most(rest, retries + 1, first - 1);
        if forall|i: int| 0 <= i < results.len() ==> (#[trigger] results[i]).retryable() {
            assert forall|i: int| 0 <= i < rest.len() implies (#[trigger] rest[i]).retryable() by {
                assert(rest[i] == results[i + 1]);
            }
        }
        if first < results.len() && forall|i: int|
            0 <= i < first ==> (#[trigger] results[i]).retryable() {
            assert forall|i: int| 0 <= i < first - 1 implies (#[trigger] rest[i]).retryable() by {
                assert(rest[i] == results[i + 1]);
            }
        }
    }
}

} // verus!
