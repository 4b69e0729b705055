use tv_resolver::retry::{
    backoff_delay_ms, classify_status, retry_step, FetchError, FetchEvent, RetryState,
    StatusClass, BASE_DELAY_MS, MAX_RETRIES,
};

#[test]
fn test_classify_status() {
    assert_eq!(classify_status(200), StatusClass::Success);
    assert_eq!(classify_status(204), StatusClass::Success);
    assert_eq!(classify_status(429), StatusClass::Retryable);
    assert_eq!(classify_status(500), StatusClass::Retryable);
    assert_eq!(classify_status(503), StatusClass::Retryable);
    assert_eq!(classify_status(404), StatusClass::Unrecoverable);
    assert_eq!(classify_status(301), StatusClass::Unrecoverable);
}

#[test]
fn test_retry_bound_exhausts_exactly_max_retries() {
    // Facing only retryable failures, every allowed attempt is used and the
    // request then fails with the retries-exceeded error.
    let mut state = RetryState::Attempting { attempt: 1 };
    for used in 1..=MAX_RETRIES {
        state = retry_step(
            state,
            MAX_RETRIES,
            FetchEvent::Response { status: 503, body_ok: false },
        );
        if used < MAX_RETRIES {
            assert_eq!(state, RetryState::Attempting { attempt: used + 1 });
        }
    }
    assert_eq!(
        state,
        RetryState::Failed(FetchError::MaxRetriesExceeded { max_retries: MAX_RETRIES })
    );
}

#[test]
fn test_connection_failures_consume_attempts() {
    let mut state = RetryState::Attempting { attempt: 1 };
    state = retry_step(state, MAX_RETRIES, FetchEvent::ConnectionFailed);
    assert_eq!(state, RetryState::Attempting { attempt: 2 });
    state = retry_step(state, MAX_RETRIES, FetchEvent::ConnectionFailed);
    state = retry_step(state, MAX_RETRIES, FetchEvent::ConnectionFailed);
    assert_eq!(
        state,
        RetryState::Failed(FetchError::MaxRetriesExceeded { max_retries: MAX_RETRIES })
    );
}

#[test]
fn test_unrecoverable_status_fails_immediately() {
    let state = retry_step(
        RetryState::Attempting { attempt: 1 },
        MAX_RETRIES,
        FetchEvent::Response { status: 404, body_ok: false },
    );
    assert_eq!(state, RetryState::Failed(FetchError::UnrecoverableStatus(404)));
}

#[test]
fn test_success_and_bad_body() {
    let ok = retry_step(
        RetryState::Attempting { attempt: 2 },
        MAX_RETRIES,
        FetchEvent::Response { status: 200, body_ok: true },
    );
    assert_eq!(ok, RetryState::Succeeded);

    let bad = retry_step(
        RetryState::Attempting { attempt: 2 },
        MAX_RETRIES,
        FetchEvent::Response { status: 200, body_ok: false },
    );
    assert_eq!(bad, RetryState::Failed(FetchError::Request));
}

#[test]
fn test_backoff_doubles_each_attempt() {
    assert_eq!(backoff_delay_ms(BASE_DELAY_MS, 1), 500);
    assert_eq!(backoff_delay_ms(BASE_DELAY_MS, 2), 1000);
    assert_eq!(backoff_delay_ms(BASE_DELAY_MS, 3), 2000);
    assert_eq!(backoff_delay_ms(u64::MAX - 1, 2), u64::MAX);
}
