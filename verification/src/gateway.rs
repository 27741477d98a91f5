//! The connection-pool gateway and the retry-on-exhaustion policy.
//!
//! The pool is an external collaborator with a bounded capacity; its
//! observable state is the number of leases out.  A caller that meets
//! exhaustion sleeps a fixed backoff interval and retries; the retry
//! budget is bounded by default, surfacing `PoolExhausted` as a terminal
//! error once spent, with an unbounded mode for batch jobs that choose to
//! wait.

use vstd::prelude::*;

use crate::errors::PipelineError;

verus! {

/// The observable state of a bounded connection pool: how many of its
/// `capacity` leases are out.  Leases are exclusively owned; acquiring
/// yields an exhaustion signal, never an abort, when none is free.
pub struct PoolModel {
    capacity: u64,
    in_use: u64,
}

impl PoolModel {
    pub closed spec fn capacity_of(self) -> int {
        self.capacity as int
    }

    pub closed spec fn in_use_of(self) -> int {
        self.in_use as int
    }

    pub closed spec fn wf(self) -> bool {
        self.in_use <= self.capacity
    }

    /// Whether a lease is free to grant.
    pub open spec fn can_acquire(self) -> bool {
        self.in_use_of() < self.capacity_of()
    }

    pub fn new(capacity: u64) -> (p: PoolModel)
        ensures
            p.wf(),
            p.capacity_of() == capacity,
            p.in_use_of() == 0,
    {
        PoolModel { capacity, in_use: 0 }
    }

    /// Grants a lease exactly when one is free; exhaustion leaves the
    /// pool unchanged.
    pub fn try_acquire(&mut self) -> (got: bool)
        requires
            old(self).wf(),
        ensures
            final(self).wf(),
            final(self).capacity_of() == old(self).capacity_of(),
            got == old(self).can_acquire(),
            got ==> final(self).in_use_of() == old(self).in_use_of() + 1,
            !got ==> final(self).in_use_of() == old(self).in_use_of(),
    {
        if self.in_use < self.capacity {
            self.in_use = self.in_use + 1;
            true
        } else {
            false
        }
    }

    /// Returns a lease to the pool.
    pub fn release(&mut self)
        requires
            old(self).wf(),
            old(self).in_use_of() > 0,
        ensures
            final(self).wf(),
            final(self).capacity_of() == old(self).capacity_of(),
            final(self).in_use_of() == old(self).in_use_of() - 1,
    {
        self.in_use = self.in_use - 1;
    }
}

/// The backpressure loop makes progress: once any lease of an exhausted
/// pool is released, the next acquire attempt cannot be refused — so a
/// waiter retrying after a release obtains its lease and no task is
/// refused forever while leases keep being returned.
pub proof fn lemma_retry_after_release(before: PoolModel, after: PoolModel)
    requires
        before.wf(),
        after.wf(),
        !before.can_acquire(),
        after.capacity_of() == before.capacity_of(),
        after.in_use_of() == before.in_use_of() - 1,
    ensures
        after.can_acquire(),
{
}

/// The retry policy at every pool-acquisition site: a fixed backoff
/// interval, and a bounded attempt budget unless the caller chose the
/// unbounded waiting mode (`max_attempts` of `None`).
pub struct BackoffPolicy {
    pub backoff_millis: u64,
    pub max_attempts: Option<u64>,
}

/// Decides the next step after the acquire attempt number
/// `attempts_so_far + 1` came back exhausted: the fixed backoff to sleep
/// before retrying while the budget allows one more attempt, else the
/// terminal `PoolExhausted` error.
pub fn on_exhausted(policy: &BackoffPolicy, attempts_so_far: u64) -> (d: Result<
    u64,
    PipelineError,
>)
    ensures
        (match policy.max_attempts {
            None => true,
            Some(m) => attempts_so_far + 1 < m,
        }) ==> (d matches Ok(ms) && ms == policy.backoff_millis),
        (match policy.max_attempts {
            None => false,
            Some(m) => attempts_so_far + 1 >= m,
        }) ==> (d matches Err(e) && e is PoolExhausted),
{
    match policy.max_attempts {
        None => Ok(policy.backoff_millis),
        Some(m) => {
            if m > 0 && attempts_so_far < m - 1 {
                Ok(policy.backoff_millis)
            } else {
                Err(PipelineError::PoolExhausted)
            }
        },
    }
}

/// Reads the outcome of a delete statement: zero rows affected where at
/// least one was expected is reported as `NotFound`.
pub fn delete_outcome(rows_affected: u64) -> (r: Result<u64, PipelineError>)
    ensures
        rows_affected > 0 ==> (r matches Ok(n) && n == rows_affected),
        rows_affected == 0 ==> (r matches Err(e) && e is NotFound),
{
    if rows_affected > 0 {
        Ok(rows_affected)
    } else {
        Err(PipelineError::NotFound)
    }
}

} // verus!
