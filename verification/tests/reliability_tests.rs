use nerve_core::reliability::{check_rate_limit, RetryDecision};

#[test]
fn rate_limit_fraction_truncated() {
    // "3m2.838s" is truncated at the dot to "3m2s": 182 s, plus one second.
    let err = "rate limited, try again in 3m2.838s. Visit https://example.com for details";
    assert_eq!(check_rate_limit(err), RetryDecision::Retry(183000));
}

#[test]
fn rate_limit_plain_seconds() {
    let err = "quota hit, try again in 5s. Visit the dashboard";
    assert_eq!(check_rate_limit(err), RetryDecision::Retry(6000));
}

#[test]
fn rate_limit_fractional_seconds_only() {
    // "1.5s" truncates to "1s": one second, plus one second.
    let err = "rate limit exceeded, try again in 1.5s. Visit https://platform.example.com";
    assert_eq!(check_rate_limit(err), RetryDecision::Retry(2000));
}

#[test]
fn rate_limit_compound_duration() {
    // 1h30m = 5400 s.
    let err = "x try again in 1h30m. Visit later";
    assert_eq!(check_rate_limit(err), RetryDecision::Retry(5400000 + 1000));
}

#[test]
fn rate_limit_milliseconds() {
    let err = "x try again in 100ms. Visit later";
    assert_eq!(check_rate_limit(err), RetryDecision::Retry(1100));
}

#[test]
fn rate_limit_unparsable_duration_is_fatal() {
    let err = "x try again in soon. Visit later";
    assert_eq!(check_rate_limit(err), RetryDecision::NoRetry);
}

#[test]
fn rate_limit_needs_text_before_phrase() {
    // The phrase must not open its line: no character before it, no match.
    let err = "try again in 5s. Visit the dashboard";
    assert_eq!(check_rate_limit(err), RetryDecision::NoRetry);
}

#[test]
fn rate_limit_phrase_must_close_on_same_line() {
    let err = "x try again in 5s.\n Visit the dashboard";
    assert_eq!(check_rate_limit(err), RetryDecision::NoRetry);
}

#[test]
fn conn_reset_capitalised() {
    let err = "transport: Connection reset by peer";
    assert_eq!(check_rate_limit(err), RetryDecision::Retry(5000));
}

#[test]
fn conn_reset_lower_case() {
    let err = "read tcp 10.0.0.1:443: connection reset by peer";
    assert_eq!(check_rate_limit(err), RetryDecision::Retry(5000));
}

#[test]
fn rate_limit_pattern_wins_over_conn_reset() {
    // When the rate-limit phrase matches but its duration is garbage, the
    // attempt is fatal even though the reset phrase also occurs.
    let err = "x try again in soon. Visit later: connection reset by peer";
    assert_eq!(check_rate_limit(err), RetryDecision::NoRetry);
}

#[test]
fn other_errors_are_fatal() {
    assert_eq!(check_rate_limit("model not found"), RetryDecision::NoRetry);
    assert_eq!(check_rate_limit(""), RetryDecision::NoRetry);
    assert_eq!(
        check_rate_limit("internal server error, please retry"),
        RetryDecision::NoRetry
    );
}

// A backend that fails once with a transient error, then answers: the caller
// waits as the decision says, re-invokes once, and keeps the second result.
struct FlakyBackend {
    calls: std::cell::Cell<u32>,
}

impl FlakyBackend {
    fn chat(&self) -> Result<(String, Vec<String>), String> {
        let n = self.calls.get();
        self.calls.set(n + 1);
        if n == 0 {
            Err("rate limit exceeded, try again in 1.5s. Visit https://example.com".to_string())
        } else {
            Ok(("it worked".to_string(), Vec::new()))
        }
    }
}

#[test]
fn transient_failure_retried_once_then_second_result_kept() {
    let backend = FlakyBackend { calls: std::cell::Cell::new(0) };
    let mut waited: Option<u128> = None;
    let mut outcome = None;
    for _attempt in 0..3 {
        match backend.chat() {
            Ok(r) => {
                outcome = Some(r);
                break;
            }
            Err(e) => match check_rate_limit(&e) {
                RetryDecision::Retry(ms) => {
                    waited = Some(ms);
                }
                RetryDecision::NoRetry => {
                    break;
                }
            },
        }
    }
    // 1.5s truncates to 1s; the wait is that plus one second.
    assert_eq!(waited, Some(2000));
    let (reply, invocations) = outcome.expect("second attempt should have been kept");
    assert_eq!(reply, "it worked");
    assert!(invocations.is_empty());
    assert_eq!(backend.calls.get(), 2);
}
