use bulk_pipeline::errors::PipelineError;
use bulk_pipeline::gateway::{delete_outcome, on_exhausted, BackoffPolicy, PoolModel};

#[test]
fn contention_resolves_after_release() {
    // Pool capacity 1, two callers wanting a lease at once: the second
    // observes exhaustion, is told to retry after the fixed backoff, and
    // succeeds once the first caller releases its lease.
    let mut pool = PoolModel::new(1);
    assert!(pool.try_acquire());
    assert!(!pool.try_acquire());
    let policy = BackoffPolicy { backoff_millis: 500, max_attempts: Some(10) };
    let decision = on_exhausted(&policy, 0);
    assert_eq!(decision.unwrap(), 500);
    pool.release();
    assert!(pool.try_acquire());
}

#[test]
fn pool_grants_up_to_capacity() {
    let mut pool = PoolModel::new(2);
    assert!(pool.try_acquire());
    assert!(pool.try_acquire());
    assert!(!pool.try_acquire());
    pool.release();
    pool.release();
    assert!(pool.try_acquire());
}

#[test]
fn retry_budget_is_bounded() {
    let policy = BackoffPolicy { backoff_millis: 250, max_attempts: Some(3) };
    assert_eq!(on_exhausted(&policy, 0).unwrap(), 250);
    assert_eq!(on_exhausted(&policy, 1).unwrap(), 250);
    assert!(matches!(
        on_exhausted(&policy, 2),
        Err(PipelineError::PoolExhausted)
    ));
}

#[test]
fn zero_budget_fails_at_once() {
    let policy = BackoffPolicy { backoff_millis: 250, max_attempts: Some(0) };
    assert!(matches!(
        on_exhausted(&policy, 0),
        Err(PipelineError::PoolExhausted)
    ));
}

#[test]
fn unbounded_mode_always_retries() {
    let policy = BackoffPolicy { backoff_millis: 125, max_attempts: None };
    assert_eq!(on_exhausted(&policy, 0).unwrap(), 125);
    assert_eq!(on_exhausted(&policy, 1000000).unwrap(), 125);
}

#[test]
fn delete_outcome_reports_rows() {
    assert_eq!(delete_outcome(5).unwrap(), 5);
}

#[test]
fn delete_outcome_zero_is_not_found() {
    assert!(matches!(delete_outcome(0), Err(PipelineError::NotFound)));
}
