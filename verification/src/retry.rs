//! Retry policy of the catalog resolver.
//!
//! Each page request is retried with exponential backoff: a base delay that
//! doubles on every attempt, and a fixed maximum attempt count. A response is
//! retryable when the status signals rate limiting or a server-side failure;
//! any other non-success status is unrecoverable and fails at once. The loop
//! that performs the requests and sleeps lives outside the library; here the
//! policy is a pure transition function over an explicit state, so that each
//! decision is verified.
use vstd::prelude::*;

verus! {

/// How many attempts a page request is given before it fails.
pub const MAX_RETRIES: u32 = 3;

/// Base backoff delay in milliseconds; it doubles on each further attempt.
pub const BASE_DELAY_MS: u64 = 500;

/// Why a fetch failed.
#[derive(Debug, Clone, Copy, PartialEq, Eq, Structural)]
pub enum FetchError {
    /// The response arrived but its body could not be read as the expected
    /// record.
    Request,
    /// The service answered with a status that retrying cannot mend.
    UnrecoverableStatus(u16),
    /// Every allowed attempt was used up on retryable failures.
    MaxRetriesExceeded { max_retries: u32 },
}

/// What one attempt at a request observed.
#[derive(Debug, Clone, Copy, PartialEq, Eq, Structural)]
pub enum FetchEvent {
    /// The connection itself failed before any status arrived.
    ConnectionFailed,
    /// A response arrived with this status; `body_ok` says whether its body
    /// decoded as the expected record.
    Response { status: u16, body_ok: bool },
}

/// How a response status is acted on.
#[derive(Debug, Clone, Copy, PartialEq, Eq, Structural)]
pub enum StatusClass {
    /// A success status: the response body is the answer.
    Success,
    /// Rate limiting or a server-side error: worth another attempt.
    Retryable,
    /// Any other status: fail at once.
    Unrecoverable,
}

/// Where a page request stands after some attempts.
#[derive(Debug, Clone, Copy, PartialEq, Eq, Structural)]
pub enum RetryState {
    /// The next attempt will be number `attempt`, counting from 1.
    Attempting { attempt: u32 },
    /// A response was accepted.
    Succeeded,
    /// The request failed for the given reason.
    Failed(FetchError),
}

/// A success status.
pub open spec fn is_success_status(status: u16) -> bool {
    200 <= status < 300
}

/// A retryable status: rate limiting or a server-side error.
pub open spec fn is_retryable_status(status: u16) -> bool {
    status == 429 || (500 <= status < 600)
}

/// The class of a response status.
pub open spec fn classify_status_spec(status: u16) -> StatusClass {
    if is_success_status(status) {
        StatusClass::Success
    } else if is_retryable_status(status) {
        StatusClass::Retryable
    } else {
        StatusClass::Unrecoverable
    }
}

/// Classifies a response status: success on 2xx, retryable on 429 and 5xx,
/// unrecoverable otherwise.
pub fn classify_status(status: u16) -> (r: StatusClass)
    ensures
        r == classify_status_spec(status),
{
    if 200 <= status && status < 300 {
        StatusClass::Success
    } else if status == 429 || (500 <= status && status < 600) {
        StatusClass::Retryable
    } else {
        StatusClass::Unrecoverable
    }
}

/// An event that only merits another attempt: a connection failure, or a
/// response whose status is retryable.
pub open spec fn event_retryable(event: FetchEvent) -> bool {
    match event {
        FetchEvent::ConnectionFailed => true,
        FetchEvent::Response { status, .. } => is_retryable_status(status),
    }
}

/// The state after acting on one attempt's event.
pub open spec fn retry_step_spec(state: RetryState, max_retries: u32, event: FetchEvent) -> RetryState {
    match state {
        RetryState::Attempting { attempt } => match event {
            FetchEvent::ConnectionFailed => if attempt >= max_retries {
                RetryState::Failed(FetchError::MaxRetriesExceeded { max_retries })
            } else {
                RetryState::Attempting { attempt: (attempt + 1) as u32 }
            },
            FetchEvent::Response { status, body_ok } => {
                if is_success_status(status) {
                    if body_ok {
                        RetryState::Succeeded
                    } else {
                        RetryState::Failed(FetchError::Request)
                    }
                } else if is_retryable_status(status) {
                    if attempt >= max_retries {
                        RetryState::Failed(FetchError::MaxRetriesExceeded { max_retries })
                    } else {
                        RetryState::Attempting { attempt: (attempt + 1) as u32 }
                    }
                } else {
                    RetryState::Failed(FetchError::UnrecoverableStatus(status))
                }
            },
        },
        _ => state,
    }
}

/// Acts on the event observed by one attempt.
///
/// From `Attempting { attempt }`: a successful response with a readable body
/// succeeds; one with an unreadable body fails with `Request`; an
/// unrecoverable status fails at once with that status; a retryable event
/// moves to the next attempt, or to `MaxRetriesExceeded` when `attempt` was
/// the last one allowed. A terminal state is left unchanged.
pub fn retry_step(state: RetryState, max_retries: u32, event: FetchEvent) -> (r: RetryState)
    requires
        state matches RetryState::Attempting { attempt } ==> 1 <= attempt <= max_retries,
    ensures
        r == retry_step_spec(state, max_retries, event),
{
    match state {
        RetryState::Attempting { attempt } => {
            let acted: StatusClass = match event {
                FetchEvent::ConnectionFailed => StatusClass::Retryable,
                FetchEvent::Response { status, .. } => classify_status(status),
            };
            match acted {
                StatusClass::Success => {
                    let body_ok = match event {
                        FetchEvent::Response { body_ok, .. } => body_ok,
                        FetchEvent::ConnectionFailed => false,
                    };
                    if body_ok {
                        RetryState::Succeeded
                    } else {
                        RetryState::Failed(FetchError::Request)
                    }
                },
                StatusClass::Retryable => {
                    if attempt >= max_retries {
                        RetryState::Failed(FetchError::MaxRetriesExceeded { max_retries })
                    } else {
                        RetryState::Attempting { attempt: attempt + 1 }
                    }
                },
                StatusClass::Unrecoverable => {
                    let status = match event {
                        FetchEvent::Response { status, .. } => status,
                        FetchEvent::ConnectionFailed => 0,
                    };
                    RetryState::Failed(FetchError::UnrecoverableStatus(status))
                },
            }
        },
        RetryState::Succeeded => RetryState::Succeeded,
        RetryState::Failed(e) => RetryState::Failed(e),
    }
}

/// The state reached from `state` after acting on `events` in order, stopping
/// early if a terminal state is reached.
pub open spec fn run_retries(state: RetryState, max_retries: u32, events: Seq<FetchEvent>) -> RetryState
    decreases events.len(),
{
    if events.len() == 0 {
        state
    } else {
        run_retries(retry_step_spec(state, max_retries, events[0]), max_retries, events.skip(1))
    }
}

/// Retry bound, first half: a request that faces only retryable failures uses
/// each of its `max_retries` attempts and then fails with
/// `MaxRetriesExceeded`, and with any fewer such events it is still awaiting
/// its next attempt, so it neither fails early nor retries further.
pub proof fn lemma_retry_bound(attempt: u32, max_retries: u32, events: Seq<FetchEvent>)
    requires
        1 <= attempt <= max_retries,
        events.len() <= max_retries - attempt + 1,
        forall|i: int| 0 <= i < events.len() ==> event_retryable(#[trigger] events[i]),
    ensures
        events.len() == max_retries - attempt + 1 ==> run_retries(
            RetryState::Attempting { attempt },
            max_retries,
            events,
        ) == RetryState::Failed(FetchError::MaxRetriesExceeded { max_retries }),
        events.len() < max_retries - attempt + 1 ==> run_retries(
            RetryState::Attempting { attempt },
            max_retries,
            events,
        ) == (RetryState::Attempting { attempt: (attempt + events.len()) as u32 }),
    decreases events.len(),
{
    if events.len() > 0 {
        assert(event_retryable(events[0]));
        let next = retry_step_spec(RetryState::Attempting { attempt }, max_retries, events[0]);
        assert(run_retries(RetryState::Attempting { attempt }, max_retries, events)
            == run_retries(next, max_retries, events.skip(1)));
        if attempt >= max_retries {
            assert(events.len() == 1);
            assert(next == RetryState::Failed(FetchError::MaxRetriesExceeded { max_retries }));
            assert(events.skip(1).len() == 0);
            assert(run_retries(next, max_retries, events.skip(1)) == next);
        } else {
            assert(next == (RetryState::Attempting { attempt: (attempt + 1) as u32 }));
            lemma_retry_bound((attempt + 1) as u32, max_retries, events.skip(1));
        }
    }
}

/// Retry bound, second half: one unrecoverable status fails the request at
/// once, with that status surfaced, whatever the attempt number.
pub proof fn lemma_unrecoverable_immediate(
    attempt: u32,
    max_retries: u32,
    status: u16,
    body_ok: bool,
)
    requires
        !is_success_status(status),
        !is_retryable_status(status),
    ensures
        retry_step_spec(
            RetryState::Attempting { attempt },
            max_retries,
            FetchEvent::Response { status, body_ok },
        ) == RetryState::Failed(FetchError::UnrecoverableStatus(status)),
{
}

/// The backoff delay before attempt number `attempt` (1-based): the base
/// delay doubled once per earlier attempt, saturating at the largest delay
/// rather than overflowing.
pub open spec fn backoff_delay_spec(base: u64, attempt: u32) -> u64
    decreases attempt,
{
    if attempt <= 1 {
        base
    } else {
        let prev = backoff_delay_spec(base, (attempt - 1) as u32);
        if prev > u64::MAX / 2 {
            u64::MAX
        } else {
            (prev * 2) as u64
        }
    }
}

/// Computes the backoff delay in milliseconds before the given attempt.
pub fn backoff_delay_ms(base: u64, attempt: u32) -> (r: u64)
    ensures
        r == backoff_delay_spec(base, attempt),
{
    let mut delay: u64 = base;
    let mut i: u32 = 1;
    while i < attempt
        invariant
            1 <= i,
            i <= attempt || i == 1,
            delay == backoff_delay_spec(base, i),
        decreases attempt - i,
    {
        if delay > u64::MAX / 2 {
            delay = u64::MAX;
        } else {
            delay = delay * 2;
        }
        i = i + 1;
    }
    delay
}

} // verus!
