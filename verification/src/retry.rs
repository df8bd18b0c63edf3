//! Retrying of requests that fail.

use vstd::prelude::*;

verus! {

/// The attempts at a request: which one is under way, and how many there may be.
#[derive(Debug, Clone, Copy, PartialEq, Eq, Structural)]
pub struct Retry {
    attempt: u32,
    attempts: u32,
}

/// What is to be done after an attempt that failed.
#[derive(Debug, Clone, Copy, PartialEq, Eq, Structural)]
pub enum RetryStep {
    /// Wait, and try again.
    Again,
    /// Return the error.
    GiveUp,
}

/// What is done after the given attempt failed, out of at most `attempts`.
pub open spec fn step_after(attempt: nat, attempts: nat) -> RetryStep {
    if attempt < attempts {
        RetryStep::Again
    } else {
        RetryStep::GiveUp
    }
}

impl Retry {
    /// The number of the attempt that is under way, counted from one.
    pub closed spec fn attempt_spec(&self) -> u32 {
        self.attempt
    }

    /// How many attempts there may be.
    pub closed spec fn attempts_spec(&self) -> u32 {
        self.attempts
    }

    /// Whether an attempt that may be made is under way.
    pub open spec fn well_formed(&self) -> bool {
        1 <= self.attempt_spec() <= self.attempts_spec()
    }

    /// Begins with the first of at most `attempts` attempts.
    pub fn new(attempts: u32) -> (r: Self)
        requires
            attempts >= 1,
        ensures
            r.well_formed(),
            r.attempt_spec() == 1,
            r.attempts_spec() == attempts,
    {
        Retry { attempt: 1, attempts }
    }

    /// The number of the attempt that is under way, counted from one.
    pub fn attempt(&self) -> (r: u32)
        ensures
            r == self.attempt_spec(),
    {
        self.attempt
    }

    /// Goes on after an attempt that failed: to the next one, if there is one.
    pub fn failed(&mut self) -> (r: RetryStep)
        requires
            old(self).well_formed(),
        ensures
            final(self).well_formed(),
            final(self).attempts_spec() == old(self).attempts_spec(),
            r == step_after(
                old(self).attempt_spec() as nat,
                old(self).attempts_spec() as nat,
            ),
            final(self).attempt_spec() == old(self).attempt_spec() + if r == RetryStep::Again {
                1int
            } else {
                0int
            },
    {
        if self.attempt < self.attempts {
            self.attempt = self.attempt + 1;
            RetryStep::Again
        } else {
            RetryStep::GiveUp
        }
    }
}

/// How many attempts are made from the given one on, and whether the last one
/// succeeds, if `succeeds` says which attempts would.
pub open spec fn attempts_made(
    attempt: nat,
    attempts: nat,
    succeeds: spec_fn(nat) -> bool,
) -> (nat, bool)
    decreases attempts - attempt,
{
    if succeeds(attempt) {
        (1, true)
    } else if step_after(attempt, attempts) == RetryStep::Again {
        let rest = attempts_made(attempt + 1, attempts, succeeds);
        (rest.0 + 1, rest.1)
    } else {
        (1, false)
    }
}

/// A request is tried until it succeeds: if the attempt `good` is the first that
/// does and may be made, it is the last one that is made.
pub proof fn retries_until_success(
    attempt: nat,
    attempts: nat,
    succeeds: spec_fn(nat) -> bool,
    good: nat,
)
    requires
        attempt <= good <= attempts,
        succeeds(good),
        forall|i: nat| attempt <= i < good ==> !(#[trigger] succeeds(i)),
    ensures
        attempts_made(attempt, attempts, succeeds) == ((good - attempt + 1) as nat, true),
    decreases good - attempt,
{
    if attempt < good {
        retries_until_success(attempt + 1, attempts, succeeds, good);
    }
}

/// A request that never succeeds is tried exactly as often as it may be, and
/// fails.
pub proof fn retries_are_bounded(attempt: nat, attempts: nat, succeeds: spec_fn(nat) -> bool)
    requires
        attempt <= attempts,
        forall|i: nat| attempt <= i <= attempts ==> !(#[trigger] succeeds(i)),
    ensures
        attempts_made(attempt, attempts, succeeds) == ((attempts - attempt + 1) as nat, false),
    decreases attempts - attempt,
{
    if attempt < attempts {
        retries_are_bounded(attempt + 1, attempts, succeeds);
    }
}

} // verus!
