//! The retry policy of a fetch: how many attempts are made, how long to
//! wait before each, and how the overall deadline ends the sequence.

use vstd::prelude::*;
use std::time::Duration;
use tokio_retry::strategy::{jitter, ExponentialBackoff};

verus! {

/// The first backoff delay, in milliseconds; each later one is ten times
/// the one before.
pub const BACKOFF_BASE_MS: u64 = 10;

/// The longest delay, in milliseconds, whose jittered value is known to
/// stay within it.
pub const JITTER_EXACT_MS: u64 = 1_000_000_000_000_000;

/// `b` to the power `e`.
pub open spec fn pow(b: int, e: nat) -> int
    decreases e,
{
    if e == 0 {
        1
    } else {
        b * pow(b, (e - 1) as nat)
    }
}

/// The `k`-th delay (from 0) of an exponential backoff that starts at
/// `base` milliseconds and multiplies by `base`, saturating at `u64::MAX`.
pub open spec fn backoff_ms(base: u64, k: nat) -> u64 {
    if pow(base as int, k + 1) <= u64::MAX {
        pow(base as int, k + 1) as u64
    } else {
        u64::MAX
    }
}

/// Relies on tokio_retry's ExponentialBackoff::from_millis, whose `k`-th
/// item is `base` to the power `k + 1` milliseconds, each step a
/// saturating multiplication by `base`.
#[verifier::external_body]
fn backoff_delay_ms(base: u64, k: usize) -> (r: u64)
    ensures
        r == backoff_ms(base, k as nat),
{
    ExponentialBackoff::from_millis(base).nth(k).map_or(u64::MAX, |d| d.as_millis() as u64)
}

/// Relies on tokio_retry's jitter, which scales a delay by a random factor
/// in `[0, 1)` through `Duration::mul_f64`: the result is never longer than
/// the delay, wherever the delay in seconds is held exactly enough by an
/// `f64` for rounding to stay below a millisecond.
#[verifier::external_body]
fn jitter_ms(ms: u64) -> (r: u64)
    ensures
        ms <= JITTER_EXACT_MS ==> r <= ms,
{
    jitter(Duration::from_millis(ms)).as_millis() as u64
}

/// The backoff delay before retry `k` (from 0), in milliseconds, before
/// any jitter: ten times the one before, starting at ten.
pub fn backoff_delay(k: usize) -> (r: u64)
    ensures
        r == backoff_ms(BACKOFF_BASE_MS, k as nat),
{
    backoff_delay_ms(BACKOFF_BASE_MS, k)
}

/// What happened to the attempt in flight, or to the whole sequence.
#[derive(Debug, Clone, Copy, PartialEq, Eq, Structural)]
pub enum Event {
    /// The request was answered.
    Succeeded,
    /// The request failed (a network error).
    Failed,
    /// The overall deadline passed.
    DeadlineExpired,
}

/// Where a sequence of attempts stands.
#[derive(Debug, Clone, Copy, PartialEq, Eq, Structural)]
pub enum Verdict {
    /// Another attempt is to be made.
    Pending,
    /// An attempt was answered.
    Success,
    /// Every attempt of the budget failed.
    Exhausted,
    /// The deadline passed first, whatever budget was left.
    TimedOut,
}

/// The state of a sequence of attempts at one fetch.
#[derive(Debug, Clone, Copy, PartialEq, Eq, Structural)]
pub struct Retry {
    /// The number of attempts allowed.
    pub budget: usize,
    /// The number of attempts made so far.
    pub attempts: usize,
    pub verdict: Verdict,
}

/// The state before any attempt.
pub open spec fn retry_init(budget: usize) -> Retry {
    Retry {
        budget,
        attempts: 0,
        verdict: if budget == 0 {
            Verdict::Exhausted
        } else {
            Verdict::Pending
        },
    }
}

/// The state after an event. A finished sequence stays as it is.
pub open spec fn retry_step(s: Retry, e: Event) -> Retry {
    if s.verdict != Verdict::Pending {
        s
    } else {
        match e {
            Event::Succeeded => Retry { attempts: (s.attempts + 1) as usize, verdict: Verdict::Success, ..s },
            Event::Failed => Retry {
                attempts: (s.attempts + 1) as usize,
                verdict: if s.attempts + 1 >= s.budget {
                    Verdict::Exhausted
                } else {
                    Verdict::Pending
                },
                ..s
            },
            Event::DeadlineExpired => Retry { verdict: Verdict::TimedOut, ..s },
        }
    }
}

/// The state after a sequence of events.
pub open spec fn retry_run(s: Retry, es: Seq<Event>) -> Retry
    decreases es.len(),
{
    if es.len() == 0 {
        s
    } else {
        retry_step(retry_run(s, es.drop_last()), es.last())
    }
}

impl Retry {
    /// While pending, fewer attempts than the budget have been made.
    pub open spec fn wf(&self) -> bool {
        &&& self.attempts <= self.budget
        &&& self.verdict == Verdict::Pending ==> self.attempts < self.budget
    }

    /// A sequence of at most `budget` attempts.
    pub fn new(budget: usize) -> (r: Retry)
        ensures
            r == retry_init(budget),
            r.wf(),
    {
        Retry {
            budget,
            attempts: 0,
            verdict: if budget == 0 {
                Verdict::Exhausted
            } else {
                Verdict::Pending
            },
        }
    }

    /// Whether another attempt is to be made.
    pub fn should_attempt(&self) -> (r: bool)
        ensures
            r == (self.verdict == Verdict::Pending),
    {
        self.verdict == Verdict::Pending
    }

    /// How long to wait before the next attempt: nothing before the first;
    /// before a later one, the backoff delay for it scaled by a random
    /// factor below one.
    pub fn delay_ms(&self) -> (r: u64)
        ensures
            self.attempts == 0 ==> r == 0,
            self.attempts > 0 && backoff_ms(BACKOFF_BASE_MS, (self.attempts - 1) as nat)
                <= JITTER_EXACT_MS ==> r <= backoff_ms(BACKOFF_BASE_MS, (self.attempts - 1) as nat),
    {
        if self.attempts == 0 {
            0
        } else {
            let full = backoff_delay(self.attempts - 1);
            jitter_ms(full)
        }
    }

    /// Takes the event into account.
    pub fn record(&mut self, e: Event)
        requires
            old(self).wf(),
        ensures
            *final(self) == retry_step(*old(self), e),
            final(self).wf(),
    {
        if self.verdict != Verdict::Pending {
            return;
        }
        match e {
            Event::Succeeded => {
                self.attempts = self.attempts + 1;
                self.verdict = Verdict::Success;
            },
            Event::Failed => {
                self.attempts = self.attempts + 1;
                if self.attempts >= self.budget {
                    self.verdict = Verdict::Exhausted;
                }
            },
            Event::DeadlineExpired => {
                self.verdict = Verdict::TimedOut;
            },
        }
    }
}

/// `n` failures in a row.
pub open spec fn failures(n: nat) -> Seq<Event> {
    Seq::new(n, |i: int| Event::Failed)
}

proof fn lemma_failures_pending(budget: usize, n: nat)
    requires
        n < budget,
    ensures
        retry_run(retry_init(budget), failures(n)) == (Retry {
            budget,
            attempts: n as usize,
            verdict: Verdict::Pending,
        }),
    decreases n,
{
    if n > 0 {
        lemma_failures_pending(budget, (n - 1) as nat);
        assert(failures(n).drop_last() =~= failures((n - 1) as nat));
    }
}

/// With a budget of `r` attempts, `r - 1` failures followed by a success
/// end in success after exactly `r` attempts.
pub proof fn lemma_success_after_failures(r: usize)
    requires
        r >= 1,
    ensures
        retry_run(retry_init(r), failures((r - 1) as nat).push(Event::Succeeded))
            == (Retry { budget: r, attempts: r, verdict: Verdict::Success }),
{
    lemma_failures_pending(r, (r - 1) as nat);
    assert(failures((r - 1) as nat).push(Event::Succeeded).drop_last() =~= failures((r - 1) as nat));
}

/// With a budget of `r` attempts, a fetch that always fails is abandoned
/// after exactly `r` attempts, and no further event changes that.
pub proof fn lemma_exhausted_after_budget(r: usize, more: Seq<Event>)
    ensures
        retry_run(retry_init(r), failures(r as nat)) == (Retry {
            budget: r,
            attempts: r,
            verdict: Verdict::Exhausted,
        }),
        retry_run(retry_init(r), failures(r as nat) + more) == retry_run(
            retry_init(r),
            failures(r as nat),
        ),
    decreases more.len(),
{
    if r > 0 {
        lemma_failures_pending(r, (r - 1) as nat);
        assert(failures(r as nat).drop_last() =~= failures((r - 1) as nat));
    } else {
        assert(failures(0) =~= Seq::<Event>::empty());
    }
    if more.len() > 0 {
        lemma_exhausted_after_budget(r, more.drop_last());
        assert((failures(r as nat) + more).drop_last() =~= failures(r as nat) + more.drop_last());
    } else {
        assert(failures(r as nat) + more =~= failures(r as nat));
    }
}

/// Once the deadline passes during a pending sequence, the fetch reports a
/// timeout, whatever budget was left.
pub proof fn lemma_deadline_ends_in_timeout(r: usize, es: Seq<Event>)
    requires
        retry_run(retry_init(r), es).verdict == Verdict::Pending,
    ensures
        retry_run(retry_init(r), es.push(Event::DeadlineExpired)).verdict == Verdict::TimedOut,
{
    assert(es.push(Event::DeadlineExpired).drop_last() =~= es);
}

} // verus!
