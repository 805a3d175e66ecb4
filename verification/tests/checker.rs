use pretty_ens::checker::{
    backoff_limit_ms, calculate_backoff, Attempts, CheckError, CheckResult, DualRateLimiter,
    EnsChecker, EthAnswer, HttpAnswer, IdChecker, RateQuota, RdapChecker, RetryStep,
    DEFAULT_MAX_RETRIES,
};
use pretty_ens::checkpoint::DomainStatus;
use std::time::Duration;

#[test]
fn test_calculate_backoff() {
    for _ in 0..10 {
        let backoff = calculate_backoff(0, 500, 30);
        assert!(backoff <= Duration::from_millis(500));
    }

    for _ in 0..10 {
        let backoff = calculate_backoff(10, 500, 30);
        assert!(backoff <= Duration::from_secs(30));
    }
}

#[test]
fn backoff_limits() {
    assert_eq!(backoff_limit_ms(0, 500, 30), 500);
    assert_eq!(backoff_limit_ms(1, 500, 30), 1000);
    assert_eq!(backoff_limit_ms(5, 500, 30), 16000);
    assert_eq!(backoff_limit_ms(6, 500, 30), 30000);
    assert_eq!(backoff_limit_ms(10, 1, 30), 1024);
    assert_eq!(backoff_limit_ms(u32::MAX, 1, 30), 1024);
    assert_eq!(backoff_limit_ms(3, u64::MAX, u64::MAX / 1000), u64::MAX / 1000 * 1000);
    assert_eq!(backoff_limit_ms(3, 0, 30), 0);
    for attempt in 0..20 {
        let here = backoff_limit_ms(attempt, 500, 30);
        assert!(here <= backoff_limit_ms(attempt + 1, 500, 30));
    }
}

#[test]
fn backoff_is_random_within_its_limit() {
    let waits: Vec<Duration> = (0..200).map(|_| calculate_backoff(20, 1000, 1000)).collect();
    assert!(waits.iter().all(|w| *w <= Duration::from_millis(1000000)));
    assert!(waits.iter().any(|w| *w != waits[0]));
    assert_eq!(calculate_backoff(4, 0, 30), Duration::from_millis(0));
    assert_eq!(calculate_backoff(4, 500, 0), Duration::from_millis(0));
}

fn all_errors() -> Vec<(CheckError, bool, &'static str)> {
    let m = || "why".to_string();
    let http = |status: u16| CheckError::Http { status, message: m() };
    vec![
        (CheckError::RateLimited(m()), true, "Rate limited: why"),
        (CheckError::Timeout(m()), true, "Timeout: why"),
        (CheckError::Connection(m()), true, "Connection error: why"),
        (CheckError::Rpc(m()), false, "RPC error: why"),
        (CheckError::Other(m()), false, "Other error: why"),
        (http(429), true, "HTTP error: 429 - why"),
        (http(500), true, "HTTP error: 500 - why"),
        (http(599), true, "HTTP error: 599 - why"),
        (http(600), false, "HTTP error: 600 - why"),
        (http(499), false, "HTTP error: 499 - why"),
        (http(0), false, "HTTP error: 0 - why"),
        (http(65535), false, "HTTP error: 65535 - why"),
    ]
}

#[test]
fn errors_worth_another_attempt() {
    for (e, retryable, text) in all_errors() {
        assert_eq!(e.is_retryable(), retryable, "{}", text);
        assert_eq!(e.message(), text);
        let r = CheckResult::Error(e);
        assert_eq!(r.is_retryable(), retryable);
        assert_eq!(r.to_status(), DomainStatus::Error);
        assert_eq!(r.error_message().as_deref(), Some(text));
    }
}

#[test]
fn results_without_error() {
    assert_eq!(CheckResult::Available.to_status(), DomainStatus::Available);
    assert_eq!(CheckResult::Taken.to_status(), DomainStatus::Taken);
    assert_eq!(CheckResult::Available.error_message(), None);
    assert!(!CheckResult::Available.is_retryable() && !CheckResult::Taken.is_retryable());
}

#[test]
fn quotas() {
    let limits = DualRateLimiter::new(5, 0, 3);
    assert_eq!(limits.eth, RateQuota { burst: 5, replenish_nanos: 200_000_000 });
    assert_eq!(limits.box_domain, RateQuota { burst: 1, replenish_nanos: 1_000_000_000 });
    assert_eq!(limits.id_domain, RateQuota { burst: 3, replenish_nanos: 333_333_333 });
    let most = DualRateLimiter::new(u32::MAX, 1, 1);
    assert_eq!(most.eth, RateQuota { burst: u32::MAX, replenish_nanos: 0 });
}

#[test]
fn ethereum_checker() {
    let checker = EnsChecker::new().unwrap();
    assert_eq!(checker.rpc_url, "https://ethereum-rpc.publicnode.com/");
    assert_eq!(
        checker.controller_address,
        vec![
            0x25, 0x35, 0x53, 0x36, 0x6d, 0xa8, 0x54, 0x6f, 0xc2, 0x50, 0xf2, 0x25, 0xfe, 0x3d,
            0x25, 0xd0, 0xc7, 0x82, 0x30, 0x3b
        ]
    );
    assert_eq!(EnsChecker::with_rpc("HTTP://Host:80/a b").unwrap().rpc_url, "http://host/a%20b");
    let e = EnsChecker::with_rpc("not a url").unwrap_err();
    assert_eq!(e.message(), "Other error: Invalid RPC URL: relative URL without a base");
    let e = EnsChecker::from_parts(Ok("u".to_string()), Err("bad".to_string())).unwrap_err();
    assert_eq!(e.message(), "Other error: Invalid controller address: bad");
    let e = EnsChecker::from_parts(Err("u".to_string()), Err("bad".to_string())).unwrap_err();
    assert_eq!(e.message(), "Other error: Invalid RPC URL: u");
    assert!(EnsChecker::from_parts(Ok("u".to_string()), Ok(vec![1])).is_ok());
}

fn eth(answer: EthAnswer) -> String {
    match EnsChecker::new().unwrap().check_available(answer) {
        CheckResult::Available => "available".to_string(),
        CheckResult::Taken => "taken".to_string(),
        CheckResult::Error(e) => e.message(),
    }
}

#[test]
fn ethereum_answers() {
    let failed = |m: &str| eth(EthAnswer::Failed(m.to_string()));
    assert_eq!(eth(EthAnswer::Answered(true)), "available");
    assert_eq!(eth(EthAnswer::Answered(false)), "taken");
    assert_eq!(eth(EthAnswer::TimedOut), "Timeout: Request timed out after 30s");
    assert_eq!(failed("Rate Limit hit"), "Rate limited: Rate Limit hit");
    assert_eq!(failed("TOO MANY REQUESTS"), "Rate limited: TOO MANY REQUESTS");
    assert_eq!(failed("timeout of rate limits"), "Rate limited: timeout of rate limits");
    assert_eq!(failed("a Connection timeout"), "Timeout: a Connection timeout");
    assert_eq!(failed("Connection reset"), "Connection error: Connection reset");
    assert_eq!(failed("execution reverted"), "RPC error: execution reverted");
    assert_eq!(failed(""), "RPC error: ");
    assert_eq!(failed("rate-limit, time out"), "RPC error: rate-limit, time out");
}

fn rdap(answer: HttpAnswer) -> String {
    match RdapChecker::new(Ok(())).unwrap().check_available(answer) {
        CheckResult::Available => "available".to_string(),
        CheckResult::Taken => "taken".to_string(),
        CheckResult::Error(e) => e.message(),
    }
}

#[test]
fn rdap_answers() {
    let status = |s: u16| rdap(HttpAnswer::Status(s));
    let failed = |timeout: bool, connect: bool| {
        rdap(HttpAnswer::Failed { timeout, connect, message: "m".to_string() })
    };
    assert_eq!(status(404), "available");
    assert_eq!(status(200), "taken");
    assert_eq!(status(429), "Rate limited: Rate limited by RDAP server");
    assert_eq!(status(503), "HTTP error: 503 - Server error");
    assert_eq!(status(302), "HTTP error: 302 - Unexpected status code: 302");
    assert_eq!(status(600), "HTTP error: 600 - Unexpected status code: 600");
    assert_eq!(failed(true, true), "Timeout: m");
    assert_eq!(failed(false, true), "Connection error: m");
    assert_eq!(failed(false, false), "Other error: m");
}

#[test]
fn rdap_statuses_worth_another_attempt() {
    let checker = IdChecker::new(Ok(())).unwrap();
    for s in 0..=u16::MAX {
        let r = checker.check_available(HttpAnswer::Status(s));
        assert_eq!(r.is_retryable(), s == 429 || (s >= 500 && s <= 599));
        assert_eq!(r.to_status() == DomainStatus::Available, s == 404);
        assert_eq!(r.to_status() == DomainStatus::Taken, s == 200);
    }
}

#[test]
fn rdap_checkers() {
    let b = RdapChecker::new(Ok(7)).unwrap();
    assert_eq!(b.client, 7);
    assert_eq!(b.request_url("hello"), "https://rdap.centralnic.com/box/domain/hello.box");
    let i = IdChecker::new(Ok(7)).unwrap();
    assert_eq!(i.request_url("hello"), "https://rdap.pandi.id/rdap/domain/hello.id");
    let b = RdapChecker::with_endpoint("http://x", Ok(())).unwrap();
    assert_eq!(b.request_url("a"), "http://x/a.box");
    let e = RdapChecker::<()>::new(Err("no TLS".to_string())).unwrap_err();
    assert_eq!(e.message(), "Other error: Failed to create HTTP client: no TLS");
    let e = IdChecker::<()>::with_endpoint("x", Err("no TLS".to_string())).unwrap_err();
    assert_eq!(e.message(), "Other error: Failed to create HTTP client: no TLS");
}

#[test]
fn attempts_end() {
    let again = CheckResult::Error(CheckError::Timeout("t".to_string()));
    let mut attempts = Attempts::new();
    for n in 1..=DEFAULT_MAX_RETRIES {
        match attempts.check_with_retry(&again) {
            RetryStep::Wait(wait) => {
                assert!(wait <= Duration::from_millis(backoff_limit_ms(n, 500, 30)));
            }
            RetryStep::Stop => panic!("stopped at {}", n),
        }
        assert_eq!(attempts.retries(), n);
    }
    assert!(matches!(attempts.check_with_retry(&again), RetryStep::Stop));
    assert_eq!(attempts.retries(), DEFAULT_MAX_RETRIES);

    let mut attempts = Attempts::new();
    assert!(matches!(attempts.check_with_retry(&CheckResult::Taken), RetryStep::Stop));
    let last = CheckResult::Error(CheckError::Rpc("r".to_string()));
    assert!(matches!(attempts.check_with_retry(&last), RetryStep::Stop));
    assert_eq!(attempts.retries(), 0);
}
