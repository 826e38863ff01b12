use nugs::bman::{backoff_base_secs, page_failure_action, BmanError, PageAction, PageFailure, MAX_RETRIES};

fn http(code: u16, status: &str, body: &str, reason: Option<&str>, message: Option<&str>) -> PageFailure {
    PageFailure::Http {
        code,
        status: status.to_string(),
        body: body.to_string(),
        reason: reason.map(|s| s.to_string()),
        message: message.map(|s| s.to_string()),
    }
}

fn waits(a: &PageAction) -> Option<u64> {
    match a {
        PageAction::Retry { wait_base_secs } => Some(*wait_base_secs),
        PageAction::Fail(_) => None,
    }
}

#[test]
fn test_backoff_bases() {
    assert_eq!(backoff_base_secs(0), 5);
    assert_eq!(backoff_base_secs(1), 10);
    assert_eq!(backoff_base_secs(2), 15);
}

#[test]
fn test_rate_limit_retried_then_fails() {
    let f = http(403, "403 Forbidden", "{}", Some("userRateLimitExceeded"), Some("slow down"));
    assert_eq!(waits(&page_failure_action(0, &f, "folder")), Some(5));
    assert_eq!(waits(&page_failure_action(1, &f, "folder")), Some(10));
    match page_failure_action(MAX_RETRIES - 1, &f, "folder") {
        PageAction::Fail(BmanError::RateLimit(m)) => assert_eq!(m, "slow down"),
        other => panic!("unexpected {:?}", other),
    }
    let plain_429 = http(429, "429 Too Many Requests", "busy", None, None);
    match page_failure_action(2, &plain_429, "folder") {
        PageAction::Fail(BmanError::RateLimit(m)) => assert_eq!(m, "busy"),
        other => panic!("unexpected {:?}", other),
    }
}

#[test]
fn test_forbidden_and_not_found_fail_at_once() {
    let f = http(403, "403 Forbidden", "{}", Some("forbidden"), Some("no access"));
    match page_failure_action(0, &f, "folder") {
        PageAction::Fail(BmanError::Forbidden(m)) => assert_eq!(m, "no access"),
        other => panic!("unexpected {:?}", other),
    }
    let nf = http(404, "404 Not Found", "gone", None, None);
    match page_failure_action(0, &nf, "abc") {
        PageAction::Fail(BmanError::NotFound(m)) => assert_eq!(m, "abc"),
        other => panic!("unexpected {:?}", other),
    }
}

#[test]
fn test_server_errors_retried_and_others_fail() {
    let f = http(503, "503 Service Unavailable", "down", None, None);
    assert_eq!(waits(&page_failure_action(0, &f, "x")), Some(5));
    match page_failure_action(2, &f, "x") {
        PageAction::Fail(BmanError::DriveApi(m)) => assert_eq!(m, "down"),
        other => panic!("unexpected {:?}", other),
    }
    let bad = http(400, "400 Bad Request", "oops", Some("badRequest"), Some("bad"));
    match page_failure_action(0, &bad, "x") {
        PageAction::Fail(BmanError::DriveApi(m)) => assert_eq!(m, "HTTP 400 Bad Request: oops"),
        other => panic!("unexpected {:?}", other),
    }
    let t = PageFailure::Transport("connection refused".to_string());
    assert_eq!(waits(&page_failure_action(1, &t, "x")), Some(10));
    match page_failure_action(2, &t, "x") {
        PageAction::Fail(e) => assert_eq!(e.message(), "Drive API error: connection refused"),
        other => panic!("unexpected {:?}", other),
    }
}
