use forkpool::error::PoolError;
use forkpool::pool::{
    effective_concurrency, event_capacity, job_answer, ForkPlan, Forked, Role, StaticForkPool,
};

#[test]
fn as_many_workers_as_asked_for() {
    assert_eq!(effective_concurrency(3, Some(8)), 3);
    assert_eq!(effective_concurrency(1, None), 1);
}

#[test]
fn as_many_workers_as_the_machine_runs() {
    assert_eq!(effective_concurrency(0, Some(8)), 8);
    assert_eq!(effective_concurrency(0, None), 4);
}

#[test]
fn two_events_for_each_worker() {
    assert_eq!(event_capacity(6), 12);
}

#[test]
fn the_parent_becomes_the_router() {
    let pool: StaticForkPool<u8> = StaticForkPool::new();
    let mut plan = pool.init_pool(false, 3, Some(16)).unwrap();
    for fd in [11, 12, 13] {
        assert!(plan.forks());
        plan.forked(Forked::Parent(fd));
    }
    assert!(!plan.forks());
    match plan.role() {
        Role::Router(streams) => assert_eq!(streams, vec![11, 12, 13]),
        Role::Worker(_) => panic!("the parent is no worker"),
    }
}

#[test]
fn a_child_forks_no_further() {
    let mut plan = ForkPlan::new(3);
    plan.forked(Forked::Parent(11));
    plan.forked(Forked::Child(22));
    assert!(!plan.forks());
    assert!(matches!(plan.role(), Role::Worker(22)));
}

#[test]
fn a_pool_is_started_once() {
    let mut pool: StaticForkPool<u8> = Default::default();
    assert!(!pool.is_initialized());
    assert!(pool.init_pool(false, 2, None).is_some());
    pool.install(1);
    assert!(pool.is_initialized());
    assert!(pool.init_pool(false, 2, None).is_none());
    pool.install(2);
    assert_eq!(pool.sender, Some(1));
}

#[test]
fn a_worker_starts_no_pool() {
    let pool: StaticForkPool<u8> = StaticForkPool::new();
    assert!(pool.init_pool(true, 2, None).is_none());
}

#[test]
fn a_job_needs_a_router() {
    let pool: StaticForkPool<u8> = StaticForkPool::new();
    let res: Result<u8, PoolError> = pool.process(5, |_: &u8, _: i32| Some(9));
    assert!(matches!(res, Err(PoolError::NotInitialized)));
}

#[test]
fn a_job_is_passed_on() {
    let pool = StaticForkPool { sender: Some(100) };
    let res = pool.process(5, |sender: &i32, input: i32| Some(*sender + input));
    assert_eq!(res.unwrap(), 105);
}

#[test]
fn a_closed_router_is_reported() {
    let pool = StaticForkPool { sender: Some(100) };
    let res: Result<i32, PoolError> = pool.process(5, |_: &i32, _: i32| None);
    assert_eq!(res.unwrap_err().message(), "Pool router closed");
}

#[test]
fn the_answer_is_passed_back() {
    assert_eq!(job_answer(Some(Ok(3))).unwrap(), 3);
    let failed: Result<u8, PoolError> = job_answer(Some(Err(PoolError::Job("no".to_string()))));
    assert_eq!(failed.unwrap_err().message(), "no");
    let dropped: Result<u8, PoolError> = job_answer(None);
    assert_eq!(dropped.unwrap_err().message(), "Job cancelled");
}
