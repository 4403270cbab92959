//! Bringing up the connection pool: what to do after each attempt to
//! reach the store.
//!
//! The attempts themselves are made elsewhere. Here stands the decision
//! that follows each of them: the pool is ready, or the next attempt is
//! due after a delay, or the retries are used up and the failure is final.

use vstd::prelude::*;
use crate::backoff::{backoff_delay, delay_before, lemma_delay_within_cap, lemma_waited_within, waited_before};
use crate::error::ReadError;

verus! {

/// How often and how patiently the store is tried again.
#[derive(Debug, Clone, Copy, PartialEq, Eq)]
pub struct RetryPolicy {
    /// The attempts that may follow the first one.
    pub max_retries: u32,
    /// The delay before the first retry, in milliseconds.
    pub base_delay_ms: u64,
    /// The longest delay before any retry, in milliseconds.
    pub max_delay_ms: u64,
}

/// How an attempt to build the pool ended.
#[derive(Debug, Clone, Copy, PartialEq, Eq)]
pub enum Attempt {
    Connected,
    Failed,
}

/// What is to be done after an attempt.
#[derive(Debug, Clone, Copy, PartialEq, Eq)]
pub enum Next {
    /// The pool stands.
    Ready,
    /// Wait, then try again.
    RetryAfter { delay_ms: u64 },
    /// Give up: the process cannot start.
    Fatal { error: ReadError },
}

/// How far a bootstrap has come: the policy that it follows, the retries
/// made so far, and the milliseconds waited before them in all.
pub struct Progress {
    pub policy: RetryPolicy,
    pub retries_made: nat,
    pub waited_ms: nat,
}

impl RetryPolicy {
    /// The delay before attempt number `attempt`, the first being attempt
    /// zero.
    pub open spec fn delay(self, attempt: nat) -> int {
        delay_before(self.base_delay_ms, self.max_delay_ms, attempt)
    }

    /// All the delays before attempt number `attempt`, added up.
    pub open spec fn waited(self, attempt: nat) -> int {
        waited_before(self.base_delay_ms, self.max_delay_ms, attempt)
    }

    /// A bootstrap under this policy at its start: nothing tried again
    /// yet, nothing waited.
    pub open spec fn start(self) -> Progress {
        Progress { policy: self, retries_made: 0, waited_ms: 0 }
    }
}

/// A run of `n` failed attempts.
pub open spec fn failures(n: nat) -> Seq<Attempt> {
    Seq::new(n, |i: int| Attempt::Failed)
}

impl Progress {
    /// What follows an attempt. Success ends the bootstrap. A failure is
    /// followed by the next retry after its delay, as long as retries are
    /// left, and is final once they are used up.
    pub open spec fn advance(self, attempt: Attempt) -> (Progress, Next) {
        match attempt {
            Attempt::Connected => (self, Next::Ready),
            Attempt::Failed => if self.retries_made >= self.policy.max_retries {
                (
                    self,
                    Next::Fatal { error: ReadError::PoolInit { retries: self.policy.max_retries } },
                )
            } else {
                let retry = self.retries_made + 1;
                (
                    Progress {
                        policy: self.policy,
                        retries_made: retry,
                        waited_ms: (self.waited_ms + self.policy.delay(retry)) as nat,
                    },
                    Next::RetryAfter { delay_ms: self.policy.delay(retry) as u64 },
                )
            },
        }
    }

    /// What follows each of a run of attempts, and how far the bootstrap
    /// has come after the last of them.
    pub open spec fn run(self, attempts: Seq<Attempt>) -> (Progress, Seq<Next>)
        decreases attempts.len(),
    {
        if attempts.len() == 0 {
            (self, Seq::empty())
        } else {
            let (before, steps) = self.run(attempts.drop_last());
            let (after, step) = before.advance(attempts.last());
            (after, steps.push(step))
        }
    }

    /// Whether the progress is one that its policy leads to: no more
    /// retries than allowed, and the wait that the schedule gives for
    /// them.
    pub open spec fn scheduled(self) -> bool {
        &&& self.retries_made <= self.policy.max_retries
        &&& self.waited_ms == self.policy.waited(self.retries_made)
    }
}

/// As long as retries are left, each failure is followed by a retry
/// after the delay of the schedule, and the delays add up as scheduled.
pub proof fn lemma_failures_are_retried(policy: RetryPolicy, n: nat)
    requires
        n <= policy.max_retries,
    ensures
        ({
            let (progress, steps) = policy.start().run(failures(n));
            &&& progress.policy == policy
            &&& progress.retries_made == n
            &&& progress.waited_ms == policy.waited(n)
            &&& steps.len() == n
            &&& forall|k: int|
                0 <= k < n ==> #[trigger] steps[k] == (Next::RetryAfter {
                    delay_ms: policy.delay((k + 1) as nat) as u64,
                })
        }),
    decreases n,
{
    if n > 0 {
        lemma_failures_are_retried(policy, (n - 1) as nat);
        assert(failures(n).drop_last() =~= failures((n - 1) as nat));
        lemma_waited_within(policy.base_delay_ms, policy.max_delay_ms, (n - 1) as nat);
        lemma_delay_within_cap(policy.base_delay_ms, policy.max_delay_ms, n);
    }
}

/// A store that is reached after `n` failed attempts, `n` being no more
/// than the retries allowed, is reached: the bootstrap ends ready, having
/// waited exactly what the schedule gives for `n` retries.
pub proof fn lemma_connects_after_failures(policy: RetryPolicy, n: nat)
    requires
        n <= policy.max_retries,
    ensures
        ({
            let (progress, steps) = policy.start().run(failures(n).push(Attempt::Connected));
            &&& steps.len() == n + 1
            &&& steps[n as int] == Next::Ready
            &&& forall|k: int|
                0 <= k < n ==> #[trigger] steps[k] == (Next::RetryAfter {
                    delay_ms: policy.delay((k + 1) as nat) as u64,
                })
            &&& progress.retries_made == n
            &&& progress.waited_ms == policy.waited(n)
        }),
{
    lemma_failures_are_retried(policy, n);
    let attempts = failures(n).push(Attempt::Connected);
    assert(attempts.drop_last() =~= failures(n));
}

/// A store that is never reached is given up after exactly the retries
/// allowed: every failure but the last is followed by a retry, and the
/// failure of the last retry is final.
pub proof fn lemma_gives_up_after_max_retries(policy: RetryPolicy)
    ensures
        ({
            let n = policy.max_retries as nat;
            let (progress, steps) = policy.start().run(failures(n + 1));
            &&& steps.len() == n + 1
            &&& steps[n as int] == (Next::Fatal {
                error: ReadError::PoolInit { retries: policy.max_retries },
            })
            &&& forall|k: int| 0 <= k < n ==> #[trigger] steps[k] is RetryAfter
            &&& progress.retries_made == n
            &&& progress.waited_ms == policy.waited(n)
        }),
{
    let n = policy.max_retries as nat;
    lemma_failures_are_retried(policy, n);
    assert(failures(n + 1).drop_last() =~= failures(n));
}

/// The bootstrap of the pool as it goes along.
#[derive(Debug)]
pub struct Bootstrap {
    policy: RetryPolicy,
    retries_made: u32,
    waited_ms: u128,
}

impl View for Bootstrap {
    type V = Progress;

    closed spec fn view(&self) -> Progress {
        Progress {
            policy: self.policy,
            retries_made: self.retries_made as nat,
            waited_ms: self.waited_ms as nat,
        }
    }
}

impl Bootstrap {
    #[verifier::type_invariant]
    spec fn on_schedule(&self) -> bool {
        &&& self.retries_made <= self.policy.max_retries
        &&& self.waited_ms == self.policy.waited(self.retries_made as nat)
    }

    /// Begins a bootstrap: the first attempt is due at once.
    pub fn new(policy: RetryPolicy) -> (bootstrap: Bootstrap)
        ensures
            bootstrap@ == policy.start(),
    {
        Bootstrap { policy, retries_made: 0, waited_ms: 0 }
    }

    /// The policy that the bootstrap follows.
    pub fn policy(&self) -> (policy: RetryPolicy)
        ensures
            policy == self@.policy,
    {
        self.policy
    }

    /// The retries made so far.
    pub fn retries_made(&self) -> (n: u32)
        ensures
            n == self@.retries_made,
            self@.scheduled(),
    {
        proof {
            use_type_invariant(self);
        }
        self.retries_made
    }

    /// The milliseconds waited so far, all delays added up.
    pub fn waited_ms(&self) -> (ms: u128)
        ensures
            ms == self@.waited_ms,
            self@.scheduled(),
    {
        proof {
            use_type_invariant(self);
        }
        self.waited_ms
    }

    /// Takes note of how an attempt ended and says what is to be done.
    pub fn on_attempt(&mut self, attempt: Attempt) -> (next: Next)
        ensures
            (final(self)@, next) == old(self)@.advance(attempt),
            final(self)@.scheduled(),
    {
        proof {
            use_type_invariant(&*self);
        }
        match attempt {
            Attempt::Connected => Next::Ready,
            Attempt::Failed => {
                if self.retries_made >= self.policy.max_retries {
                    Next::Fatal { error: ReadError::PoolInit { retries: self.policy.max_retries } }
                } else {
                    let retry: u32 = self.retries_made + 1;
                    let delay_ms: u64 = backoff_delay(
                        retry,
                        self.policy.base_delay_ms,
                        self.policy.max_delay_ms,
                    );
                    proof {
                        lemma_waited_within(
                            self.policy.base_delay_ms,
                            self.policy.max_delay_ms,
                            self.retries_made as nat,
                        );
                        assert(self.retries_made * self.policy.max_delay_ms <= 0xffff_ffff
                            * 0xffff_ffff_ffff_ffff) by (nonlinear_arith)
                            requires
                                self.retries_made <= 0xffff_ffff,
                                self.policy.max_delay_ms <= 0xffff_ffff_ffff_ffff,
                        ;
                    }
                    *self = Bootstrap {
                        policy: self.policy,
                        retries_made: retry,
                        waited_ms: self.waited_ms + delay_ms as u128,
                    };
                    Next::RetryAfter { delay_ms }
                }
            },
        }
    }
}

} // verus!
