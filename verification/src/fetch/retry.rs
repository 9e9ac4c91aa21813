//! When a request is tried again.

use vstd::prelude::*;

verus! {

/// Attempts at a request that keeps failing.
pub const MAX_ATTEMPTS: usize = 3;

/// Further attempts at a request that is forbidden.
pub const MAX_403_RETRIES: usize = 3;

/// Seconds that a media request may take.
pub const MEDIA_ATTEMPT_TIMEOUT_SECS: u64 = 12;

/// Seconds that a text request may take.
pub const TEXT_ATTEMPT_TIMEOUT_SECS: u64 = 20;

/// Downloads at a time.
pub const SHARED_DOWNLOAD_CONCURRENCY: usize = 10;

/// Downloads at a time from one host.
pub const PER_HOST_DOWNLOAD_CONCURRENCY: usize = 8;

/// Whether a request is tried again after its `attempt`-th failure.
pub open spec fn retries(status: Option<u16>, attempt: int, forbidden: int) -> bool {
    match status {
        Some(s) => if s == 403 {
            forbidden < MAX_403_RETRIES
        } else if s == 408 || s == 429 || 500 <= s < 600 {
            attempt < MAX_ATTEMPTS
        } else {
            false
        },
        None => attempt < MAX_ATTEMPTS,
    }
}

/// Whether a request is tried again after its `attempt`-th failure.
pub fn should_retry(status: Option<u16>, attempt: usize, forbidden_retries: usize) -> (r: bool)
    ensures
        r == retries(status, attempt as int, forbidden_retries as int),
{
    match status {
        Some(s) => if s == 403 {
            forbidden_retries < MAX_403_RETRIES
        } else if s == 408 || s == 429 || (500 <= s && s < 600) {
            attempt < MAX_ATTEMPTS
        } else {
            false
        },
        None => attempt < MAX_ATTEMPTS,
    }
}

/// Milliseconds before the next attempt.
pub open spec fn delay_ms(attempt: int, forbidden: int) -> int {
    let base = if forbidden > 0 {
        200 * forbidden
    } else {
        250 * attempt
    };
    if base > 1_500 {
        1_500
    } else {
        base
    }
}

/// Milliseconds before the next attempt.
pub fn retry_delay(attempt: usize, forbidden_retries: usize) -> (r: u64)
    ensures
        r == delay_ms(attempt as int, forbidden_retries as int),
        r <= 1_500,
{
    let base: u128 = if forbidden_retries > 0 {
        200 * forbidden_retries as u128
    } else {
        250 * attempt as u128
    };
    if base > 1_500 {
        1_500
    } else {
        base as u64
    }
}

/// How an attempt ended.
#[derive(Debug, Clone, Copy, PartialEq, Eq, Structural)]
pub enum Attempt {
    /// With a failure, and the status if there was a reply.
    Failed(Option<u16>),
    TimedOut,
}

/// A request under way.
#[derive(Debug, Clone, Copy, PartialEq, Eq, Structural)]
pub struct RetryState {
    /// The attempt that is made, counted from 1.
    pub attempt: usize,
    /// How often the request was tried again because it was forbidden.
    pub forbidden_retries: usize,
}

impl RetryState {
    /// Only a forbidden request gets beyond the third attempt.
    pub open spec fn wf(self) -> bool {
        &&& 1 <= self.attempt <= self.forbidden_retries + MAX_ATTEMPTS
        &&& self.forbidden_retries <= MAX_403_RETRIES
    }

    /// The state for the next attempt, or nothing where the request is given up.
    pub open spec fn after(self, a: Attempt) -> Option<RetryState> {
        let next = RetryState { attempt: (self.attempt + 1) as usize, ..self };
        match a {
            Attempt::TimedOut => if self.attempt >= MAX_ATTEMPTS {
                None
            } else {
                Some(next)
            },
            Attempt::Failed(status) => if !retries(
                status,
                self.attempt as int,
                self.forbidden_retries as int,
            ) {
                None
            } else if status == Some(403u16) {
                Some(
                    RetryState {
                        forbidden_retries: (self.forbidden_retries + 1) as usize,
                        ..next
                    },
                )
            } else {
                Some(next)
            },
        }
    }

    /// The first attempt.
    pub fn first() -> (r: Self)
        ensures
            r == (RetryState { attempt: 1, forbidden_retries: 0 }),
            r.wf(),
    {
        RetryState { attempt: 1, forbidden_retries: 0 }
    }

    /// The state for the next attempt and the milliseconds before it, or nothing where the request
    /// is given up.
    pub fn next(&self, a: Attempt) -> (r: Option<(RetryState, u64)>)
        requires
            self.wf(),
        ensures
            match r {
                Some((s, ms)) => self.after(a) == Some(s) && s.wf() && ms == delay_ms(
                    self.attempt as int,
                    s.forbidden_retries as int,
                ),
                None => self.after(a) is None,
            },
    {
        let next = RetryState { attempt: self.attempt + 1, ..*self };
        match a {
            Attempt::TimedOut => {
                if self.attempt >= MAX_ATTEMPTS {
                    return None;
                }
                Some((next, retry_delay(self.attempt, next.forbidden_retries)))
            },
            Attempt::Failed(status) => {
                if !should_retry(status, self.attempt, self.forbidden_retries) {
                    return None;
                }
                let forbidden: bool = match status {
                    Some(s) => s == 403,
                    None => false,
                };
                if forbidden {
                    let s = RetryState { forbidden_retries: self.forbidden_retries + 1, ..next };
                    return Some((s, retry_delay(self.attempt, s.forbidden_retries)));
                }
                Some((next, retry_delay(self.attempt, next.forbidden_retries)))
            },
        }
    }
}

/// The state after the first `n` attempts, if the request has not been given up.
pub open spec fn after_all(attempts: Seq<Attempt>, n: int) -> Option<RetryState>
    decreases n,
{
    if n <= 0 {
        Some(RetryState { attempt: 1, forbidden_retries: 0 })
    } else {
        match after_all(attempts, n - 1) {
            Some(s) => s.after(attempts[n - 1]),
            None => None,
        }
    }
}

proof fn lemma_attempts(attempts: Seq<Attempt>, n: int)
    requires
        0 <= n <= attempts.len(),
    ensures
        after_all(attempts, n) matches Some(s) ==> s.wf() && s.attempt == n + 1,
    decreases n,
{
    if n > 0 {
        lemma_attempts(attempts, n - 1);
    }
}

/// However a request fails, it is given up after six attempts at the latest.
pub proof fn law_attempts_are_bounded(attempts: Seq<Attempt>)
    requires
        attempts.len() >= MAX_ATTEMPTS + MAX_403_RETRIES,
    ensures
        after_all(attempts, (MAX_ATTEMPTS + MAX_403_RETRIES) as int) is None,
{
    lemma_attempts(attempts, (MAX_ATTEMPTS + MAX_403_RETRIES) as int);
}

/// A request that got no reply, or one that says that the server is at fault or overloaded, is
/// tried again up to the third attempt; one that the client is at fault for is not, except that a
/// forbidden one gets three further attempts of its own.
pub proof fn law_passing_failures_are_retried(s: RetryState, status: u16)
    requires
        s.wf(),
    ensures
        s.after(Attempt::Failed(None)) is Some <==> s.attempt < 3,
        s.after(Attempt::TimedOut) is Some <==> s.attempt < 3,
        500 <= status < 600 || status == 408 || status == 429 ==> (s.after(
            Attempt::Failed(Some(status)),
        ) is Some <==> s.attempt < 3),
        400 <= status < 500 && status != 403 && status != 408 && status != 429 ==> s.after(
            Attempt::Failed(Some(status)),
        ) is None,
        s.after(Attempt::Failed(Some(403u16))) is Some <==> s.forbidden_retries < 3,
        s.after(Attempt::Failed(Some(status))) matches Some(n) ==> n.attempt == s.attempt + 1
            && n.forbidden_retries - s.forbidden_retries == (if status == 403 {
            1int
        } else {
            0
        }),
        s.after(Attempt::TimedOut) matches Some(n) ==> n.attempt == s.attempt + 1
            && n.forbidden_retries == s.forbidden_retries,
{
}

/// Each further attempt waits a quarter of a second longer, a forbidden one a fifth, and none
/// longer than a second and a half.
pub proof fn law_waits_grow(n: int)
    requires
        n >= 1,
    ensures
        delay_ms(1, 0) == 250,
        n < 6 ==> delay_ms(n + 1, 0) - delay_ms(n, 0) == 250,
        forall|attempt: int| #[trigger] delay_ms(attempt, 1) == 200,
        n < 7 ==> delay_ms(n, n + 1) - delay_ms(n, n) == 200,
        n >= 6 ==> delay_ms(n, 0) == 1_500,
        n >= 8 ==> delay_ms(1, n) == 1_500,
{
}

} // verus!
