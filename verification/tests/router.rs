use forkpool::error::PoolError;
use forkpool::message::{Event, Msg};
use forkpool::router::{connection_event, Action, Router, Wake};

type Ev = Event<u32, u32>;

fn ready(worker: usize) -> Ev {
    Event::Msg(worker, Msg::Ready)
}

fn done(worker: usize, id: u64, output: Result<u32, String>) -> Ev {
    Event::Msg(worker, Msg::Done { id, output })
}

/// (worker, number, input) of each offer that was made.
type Offers = Vec<(usize, u64, u32)>;

/// Hands out jobs, refusing the workers in `refuse`; returns the offers that were made.
fn hand_out(router: &mut Router<u32, &'static str>, refuse: &[usize]) -> Offers {
    let try_send = |mut offers: Offers, worker: usize, message: Msg<u32, u32>| {
        match message {
            Msg::Job { id, input } => offers.push((worker, id, input)),
            _ => panic!("only jobs go to workers"),
        }
        (offers, !refuse.contains(&worker))
    };
    let (offers, _) = router.assign(vec![], &try_send);
    offers
}

/// Takes every message and counts them.
fn accept(count: u32, _: usize, _: Msg<u32, u32>) -> (u32, bool) {
    (count + 1, true)
}

#[test]
fn jobs_wait_until_a_worker_is_ready() {
    let mut router: Router<u32, &str> = Router::new(1);
    router.submit(5, "a");
    assert!(router.next_assignment::<u32>().is_none());
    assert!(router.on_event(ready(0)).is_none());
    assert!(matches!(
        router.next_assignment::<u32>(),
        Some((0, Msg::Job { id: 1, input: 5 }))
    ));
}

#[test]
fn jobs_go_out_in_order_to_the_latest_idle_worker() {
    let mut router: Router<u32, &str> = Router::new(3);
    for w in 0..3 {
        router.on_event(ready(w));
    }
    router.submit(10, "a");
    router.submit(20, "b");
    assert_eq!(hand_out(&mut router, &[]), vec![(2, 1, 10), (1, 2, 20)]);
    router.submit(30, "c");
    router.submit(40, "d");
    assert_eq!(hand_out(&mut router, &[]), vec![(0, 3, 30)]);
    assert_eq!(hand_out(&mut router, &[]), vec![]);
}

#[test]
fn a_refused_job_keeps_its_place() {
    let mut router: Router<u32, &str> = Router::new(2);
    router.on_event(ready(0));
    router.on_event(ready(1));
    router.submit(10, "a");
    router.submit(20, "b");
    assert_eq!(hand_out(&mut router, &[1]), vec![(1, 1, 10)]);
    assert_eq!(hand_out(&mut router, &[]), vec![(1, 1, 10), (0, 2, 20)]);
}

#[test]
fn a_refused_assignment_changes_nothing() {
    let mut router: Router<u32, &str> = Router::new(1);
    router.on_event(ready(0));
    router.submit(10, "a");
    router.record_assignment(false);
    assert!(matches!(
        router.next_assignment::<u32>(),
        Some((0, Msg::Job { id: 1, input: 10 }))
    ));
    router.record_assignment(true);
    assert!(router.next_assignment::<u32>().is_none());
}

#[test]
fn an_outcome_goes_to_its_own_job() {
    let mut router: Router<u32, &str> = Router::new(2);
    router.on_event(ready(0));
    router.on_event(ready(1));
    router.submit(10, "a");
    router.submit(20, "b");
    hand_out(&mut router, &[]);
    let (reply, result) = router.on_event(done(0, 2, Ok(200))).unwrap();
    assert_eq!(reply, "b");
    assert_eq!(result.unwrap(), 200);
    let (reply, result) = router.on_event(done(1, 1, Err("bad".to_string()))).unwrap();
    assert_eq!(reply, "a");
    assert_eq!(result.unwrap_err().message(), "bad");
}

#[test]
fn a_second_outcome_brings_no_answer() {
    let mut router: Router<u32, &str> = Router::new(1);
    router.on_event(ready(0));
    router.submit(10, "a");
    hand_out(&mut router, &[]);
    assert!(router.on_event(done(0, 1, Ok(1))).is_some());
    assert!(router.on_event(done(0, 1, Ok(2))).is_none());
    assert!(router.on_event(done(0, 77, Ok(3))).is_none());
}

#[test]
fn a_worker_is_idle_again_after_its_job() {
    let mut router: Router<u32, &str> = Router::new(1);
    router.on_event(ready(0));
    router.submit(10, "a");
    router.submit(20, "b");
    assert_eq!(hand_out(&mut router, &[]), vec![(0, 1, 10)]);
    router.on_event(done(0, 1, Ok(1)));
    assert_eq!(hand_out(&mut router, &[]), vec![(0, 2, 20)]);
}

#[test]
fn the_job_of_a_dead_worker_goes_first() {
    let mut router: Router<u32, &str> = Router::new(2);
    router.on_event(ready(0));
    router.submit(10, "a");
    router.submit(20, "b");
    assert_eq!(hand_out(&mut router, &[]), vec![(0, 1, 10)]);
    assert!(router.on_event(Ev::Died(0)).is_none());
    assert_eq!(router.dead_workers(), 1);
    router.on_event(ready(1));
    assert_eq!(hand_out(&mut router, &[]), vec![(1, 1, 10)]);
    let (reply, result) = router.on_event(done(1, 1, Ok(11))).unwrap();
    assert_eq!(reply, "a");
    assert_eq!(result.unwrap(), 11);
    assert_eq!(hand_out(&mut router, &[]), vec![(1, 2, 20)]);
}

#[test]
fn a_dead_worker_without_a_job_leaves_the_queue_alone() {
    let mut router: Router<u32, &str> = Router::new(2);
    router.submit(10, "a");
    router.on_event(Ev::Died(1));
    router.on_event(ready(0));
    assert_eq!(hand_out(&mut router, &[]), vec![(0, 1, 10)]);
}

#[test]
fn a_job_message_to_the_router_is_ignored() {
    let mut router: Router<u32, &str> = Router::new(1);
    router.submit(10, "a");
    assert!(router.on_event(Ev::Msg(0, Msg::Job { id: 1, input: 10 })).is_none());
    assert!(router.next_assignment::<u32>().is_none());
    router.on_event(ready(0));
    assert_eq!(hand_out(&mut router, &[]), vec![(0, 1, 10)]);
}

#[test]
fn all_jobs_are_given_up_when_all_workers_are_dead() {
    let mut router: Router<u32, &str> = Router::new(2);
    router.submit(10, "a");
    router.submit(20, "b");
    router.on_event(Ev::Died(0));
    assert!(router.give_up().is_none());
    router.on_event(Ev::Died(1));
    let lost = router.give_up().unwrap();
    assert_eq!(lost.replies.len(), 2);
    assert_eq!(lost.replies.get(&1), Some(&"a"));
    assert_eq!(lost.replies.get(&2), Some(&"b"));
    assert!(matches!(lost.error, PoolError::AllWorkersDied(2)));
    assert_eq!(
        lost.error.message(),
        "All 2 workers died — likely init failure (e.g. LibreOffice SDK not found)"
    );
    assert!(router.give_up().is_none());
}

#[test]
fn a_dead_pool_turns_a_new_job_down() {
    let mut router: Router<u32, &str> = Router::new(1);
    router.on_event(ready(0));
    router.on_event(Ev::Died(0));
    assert!(router.begin_round(0, &accept).1.is_none());
    router.submit(10, "late");
    let lost = router.begin_round(0, &accept).1.unwrap();
    assert_eq!(lost.replies.get(&1), Some(&"late"));
}

#[test]
fn a_round_hands_out_jobs() {
    let mut router: Router<u32, &str> = Router::new(1);
    assert!(matches!(router.on_wake(Wake::<u32, u32, &str>::Job(8, "a")), Action::Wait));
    assert!(matches!(router.on_wake(Wake::Worker(ready(0))), Action::Wait));
    let (sent, lost) =
        router.begin_round(vec![], &|mut sent: Vec<usize>, worker: usize, _: Msg<u32, u32>| {
            sent.push(worker);
            (sent, true)
        });
    assert!(lost.is_none());
    assert_eq!(sent, vec![0]);
    match router.on_wake(Wake::Worker(done(0, 1, Ok(16)))) {
        Action::Answer(reply, result) => {
            assert_eq!(reply, "a");
            assert_eq!(result.unwrap(), 16);
        }
        _ => panic!("an answer is due"),
    }
}

#[test]
fn an_ended_child_is_to_be_collected() {
    let mut router: Router<u32, &str> = Router::new(1);
    assert!(matches!(router.on_wake(Wake::<u32, u32, &str>::ChildExited), Action::Reap));
}

#[test]
fn assign_counts_the_jobs_that_went_out() {
    let mut router: Router<u32, &str> = Router::new(3);
    for w in 0..3 {
        router.on_event(ready(w));
    }
    router.submit(1, "a");
    router.submit(2, "b");
    let only_two = |count: u32, w: usize, _: Msg<u32, u32>| (count + 1, w == 2);
    assert_eq!(router.assign(0, &only_two), (2, 1));
    assert_eq!(router.assign(0, &accept), (1, 1));
    assert_eq!(router.assign(0, &accept), (0, 0));
}

#[test]
fn what_a_connection_brings() {
    let message: Option<Result<Msg<u32, u32>, String>> = Some(Ok(Msg::Ready));
    assert!(matches!(connection_event(3, message), Event::Msg(3, Msg::Ready)));
    let broken: Option<Result<Msg<u32, u32>, String>> = Some(Err("?".to_string()));
    assert!(matches!(connection_event(4, broken), Event::Died(4)));
    let ended: Option<Result<Msg<u32, u32>, String>> = None;
    assert!(matches!(connection_event(5, ended), Event::Died(5)));
}

#[test]
fn jobs_are_numbered_from_one_up() {
    let mut router: Router<u32, &str> = Router::new(1);
    router.on_event(ready(0));
    for n in 1..=5u64 {
        router.submit(n as u32 * 10, "a");
        assert_eq!(hand_out(&mut router, &[]), vec![(0, n, n as u32 * 10)]);
        assert!(router.on_event(done(0, n, Ok(0))).is_some());
    }
}

#[test]
fn death_undoes_an_assignment() {
    let mut router: Router<u32, &str> = Router::new(3);
    for w in 0..3 {
        router.on_event(ready(w));
    }
    router.submit(10, "a");
    router.submit(20, "b");
    assert!(router.next_assignment::<u32>().is_some());
    router.record_assignment(true);
    router.on_event(Ev::Died(2));
    assert_eq!(hand_out(&mut router, &[]), vec![(1, 1, 10), (0, 2, 20)]);
}

#[test]
fn each_offer_is_made_once() {
    let mut router: Router<u32, &str> = Router::new(4);
    for w in 0..4 {
        router.on_event(ready(w));
    }
    for n in 1..=6 {
        router.submit(n * 10, "a");
    }
    assert_eq!(
        hand_out(&mut router, &[1]),
        vec![(3, 1, 10), (2, 2, 20), (1, 3, 30)]
    );
    assert_eq!(hand_out(&mut router, &[]), vec![(1, 3, 30), (0, 4, 40)]);
    assert_eq!(hand_out(&mut router, &[]), vec![]);
}

#[test]
fn a_job_goes_to_each_worker_at_most_once() {
    let mut router: Router<u32, &str> = Router::new(3);
    for w in 0..3 {
        router.on_event(ready(w));
    }
    router.submit(10, "a");
    let mut tried: Vec<usize> = vec![];
    for _ in 0..3 {
        let offers = hand_out(&mut router, &[]);
        assert_eq!(offers.len(), 1);
        let (worker, id, input) = offers[0];
        assert_eq!((id, input), (1, 10));
        assert!(!tried.contains(&worker));
        tried.push(worker);
        assert_eq!(hand_out(&mut router, &[]), vec![]);
        router.on_event(Ev::Died(worker));
    }
    assert_eq!(tried, vec![2, 1, 0]);
    assert_eq!(hand_out(&mut router, &[]), vec![]);
    let lost = router.give_up().unwrap();
    assert_eq!(lost.replies.get(&1), Some(&"a"));
}

#[test]
fn new_jobs_go_out_oldest_first_behind_those_that_were_out() {
    let mut router: Router<u32, &str> = Router::new(4);
    router.submit(10, "a");
    router.submit(20, "b");
    router.on_event(ready(0));
    router.on_event(ready(1));
    assert_eq!(hand_out(&mut router, &[]), vec![(1, 1, 10), (0, 2, 20)]);
    router.submit(30, "c");
    router.submit(40, "d");
    router.on_event(Ev::Died(1));
    router.on_event(Ev::Died(0));
    router.on_event(ready(2));
    assert_eq!(hand_out(&mut router, &[]), vec![(2, 2, 20)]);
    router.on_event(done(2, 2, Ok(0)));
    assert_eq!(hand_out(&mut router, &[]), vec![(2, 1, 10)]);
    router.on_event(done(2, 1, Ok(0)));
    assert_eq!(hand_out(&mut router, &[]), vec![(2, 3, 30)]);
    router.on_event(ready(3));
    assert_eq!(hand_out(&mut router, &[]), vec![(3, 4, 40)]);
}

#[test]
fn a_job_stays_with_a_worker_that_died_while_idle() {
    let mut router: Router<u32, &str> = Router::new(2);
    router.on_event(ready(1));
    router.on_event(ready(0));
    router.on_event(Ev::Died(0));
    router.submit(10, "a");
    assert_eq!(hand_out(&mut router, &[]), vec![(0, 1, 10)]);
    assert_eq!(hand_out(&mut router, &[]), vec![]);
    assert!(router.give_up().is_none());
    router.on_event(Ev::Died(1));
    let lost = router.give_up().unwrap();
    assert_eq!(lost.replies.get(&1), Some(&"a"));
}

#[test]
fn the_workers_that_are_left_answer_every_job() {
    let mut router: Router<u32, u32> = Router::new(4);
    for n in 1..=3 {
        router.submit(n, n);
    }
    // Two workers never get ready, and one dies with its job.
    router.on_event(Ev::Died(0));
    router.on_event(Ev::Died(1));
    router.on_event(ready(2));
    assert_eq!(router.assign(0, &accept), (1, 1));
    router.on_event(Ev::Died(2));
    assert!(router.give_up().is_none());
    router.on_event(ready(3));
    let mut answers: Vec<(u32, u32)> = vec![];
    while let Some((worker, Msg::Job { id, input })) = router.next_assignment::<u32>() {
        router.record_assignment(true);
        assert_eq!(worker, 3);
        let (reply, result) = router.on_event(done(worker, id, Ok(input * 2))).unwrap();
        answers.push((reply, result.unwrap()));
    }
    assert_eq!(answers, vec![(1, 2), (2, 4), (3, 6)]);
    assert!(router.give_up().is_none());
}
