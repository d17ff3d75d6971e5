//! Retrying after a conflict: how long to wait, and when to give up.

use vstd::prelude::*;
use crate::error::Error;

verus! {

/// The first delay, in milliseconds.
pub const INITIAL_DELAY_MS: u64 = 50;

/// The longest delay, in milliseconds.
pub const MAX_DELAY_MS: u64 = 2000;

/// The number of attempts after which a component gives up.
pub const MAX_ATTEMPTS: u32 = 5;

/// The delay before the retry that follows the failed attempt number
/// `attempt` (the first attempt is number 1), without jitter: 50 ms after
/// the first, twice as long after each further one, and never more than 2 s.
pub open spec fn base_delay(attempt: nat) -> nat
    decreases attempt,
{
    if attempt <= 1 {
        50
    } else if 2 * base_delay((attempt - 1) as nat) > 2000 {
        2000
    } else {
        2 * base_delay((attempt - 1) as nat)
    }
}

/// The delay with jitter: between half the base delay and the whole of it,
/// the place in that range chosen by `entropy`.
pub open spec fn jittered(base: nat, entropy: u64) -> nat {
    (base / 2 + (entropy as int) % (base - base / 2 + 1)) as nat
}

/// The base delay is never longer than the longest delay.
pub proof fn lemma_base_delay_bounds(attempt: nat)
    ensures
        50 <= base_delay(attempt) <= 2000,
    decreases attempt,
{
    if attempt > 1 {
        lemma_base_delay_bounds((attempt - 1) as nat);
    }
}

/// What to do after an attempt.
#[derive(Clone, Copy, Debug, PartialEq, Eq, Structural)]
pub enum Step {
    /// The attempt succeeded.
    Done,
    /// Wait this many milliseconds, then start again from the beginning.
    Retry { delay_ms: u64 },
    /// Stop, and hand this error to the caller.
    Fail(Error),
}

/// What to do after attempt number `attempt` ended with `outcome`: a
/// conflict is retried after a delay until `MAX_ATTEMPTS` attempts have
/// been made, then `exhausted` is handed out; every other error is handed
/// out at once.
pub open spec fn step_after(
    attempt: u32,
    outcome: Result<(), Error>,
    entropy: u64,
    exhausted: Error,
) -> Step {
    match outcome {
        Ok(()) => Step::Done,
        Err(Error::ConditionNotMet) => if attempt >= MAX_ATTEMPTS {
            Step::Fail(exhausted)
        } else {
            Step::Retry { delay_ms: jittered(base_delay(attempt as nat), entropy) as u64 }
        },
        Err(e) => Step::Fail(e),
    }
}

/// The delay before the retry that follows the failed attempt number `attempt`, without jitter.
pub fn delay_base(attempt: u32) -> (ms: u64)
    ensures
        ms == base_delay(attempt as nat),
{
    let mut ms: u64 = INITIAL_DELAY_MS;
    let mut done: u32 = 1;
    while done < attempt
        invariant
            1 <= done,
            done == 1 || done <= attempt,
            ms == base_delay(done as nat),
            ms <= 2000,
        decreases attempt - done,
    {
        proof {
            lemma_base_delay_bounds(done as nat);
        }
        ms = if ms * 2 > MAX_DELAY_MS {
            MAX_DELAY_MS
        } else {
            ms * 2
        };
        done += 1;
    }
    ms
}

/// The delay with jitter.
pub fn delay_with_jitter(attempt: u32, entropy: u64) -> (ms: u64)
    ensures
        ms == jittered(base_delay(attempt as nat), entropy),
        base_delay(attempt as nat) / 2 <= ms <= base_delay(attempt as nat),
{
    let base = delay_base(attempt);
    proof {
        lemma_base_delay_bounds(attempt as nat);
    }
    let low = base / 2;
    let span = base - low + 1;
    low + entropy % span
}

/// What to do after attempt number `attempt` ended with `outcome`.
pub fn next_step(attempt: u32, outcome: Result<(), Error>, entropy: u64, exhausted: Error) -> (step:
    Step)
    ensures
        step == step_after(attempt, outcome, entropy, exhausted),
{
    match outcome {
        Ok(()) => Step::Done,
        Err(Error::ConditionNotMet) => if attempt >= MAX_ATTEMPTS {
            Step::Fail(exhausted)
        } else {
            Step::Retry { delay_ms: delay_with_jitter(attempt, entropy) }
        },
        Err(e) => Step::Fail(e),
    }
}

} // verus!
