use amq_engine::commands::Action;
use amq_engine::executor::{within_executor, DefaultExecutor, Executor};
use amq_engine::status::Error;

#[test]
fn jobs_run_in_submission_order() {
    let mut pool = DefaultExecutor::new(vec![10, 11]);
    pool.submit(Action::ConnectionCloseOk(Error::IoError));
    pool.submit(Action::RemoveChannel(2, Error::IoError));
    pool.submit(Action::CancelConsumer(1, "a".to_string()));
    assert_eq!(pool.next_job(), Some(Action::ConnectionCloseOk(Error::IoError)));
    assert_eq!(pool.next_job(), Some(Action::RemoveChannel(2, Error::IoError)));
    assert_eq!(pool.next_job(), Some(Action::CancelConsumer(1, "a".to_string())));
    assert_eq!(pool.next_job(), None);
}

#[test]
fn spawn_reports_success_and_enqueues() {
    let mut pool = DefaultExecutor::new(vec![10]);
    assert!(pool.spawn(Action::ConnectionCloseOk(Error::IoError)).is_ok());
    assert_eq!(pool.next_job(), Some(Action::ConnectionCloseOk(Error::IoError)));
}

#[test]
fn shutdown_joins_every_worker_but_the_current_thread() {
    let pool = DefaultExecutor::new(vec![10, 11, 12]);
    assert_eq!(pool.join_plan(11), vec![10, 12]);
    // From outside the pool, every worker is joined.
    assert_eq!(pool.join_plan(99), vec![10, 11, 12]);
}

#[test]
fn within_executor_detects_pool_membership() {
    let pool = DefaultExecutor::new(vec![10, 11]);
    assert!(within_executor(&pool, 10));
    assert!(within_executor(&pool, 11));
    assert!(!within_executor(&pool, 12));
}
