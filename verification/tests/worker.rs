use forkpool::message::Msg;
use forkpool::worker::{job_output, JobOutcome, Worker, WorkerAction, WorkerEvent};

type Event = WorkerEvent<u32, u32>;
type Action = WorkerAction<u32, u32>;

fn waiting_worker() -> Worker {
    let mut worker = Worker::new();
    assert!(matches!(worker.on_event(Event::Initialized(true)), Action::Send(Msg::Ready)));
    assert!(matches!(worker.on_event(Event::Sent(true)), Action::Receive));
    worker
}

#[test]
fn a_worker_reports_and_waits() {
    assert!(matches!(waiting_worker(), Worker::Waiting));
}

#[test]
fn a_worker_that_cannot_start_stops() {
    let mut worker = Worker::new();
    assert!(matches!(worker.on_event(Event::Initialized(false)), Action::Stop));
    assert!(matches!(worker, Worker::Stopped));
}

#[test]
fn a_worker_that_cannot_report_stops() {
    let mut worker = Worker::new();
    worker.on_event(Event::Initialized(true));
    assert!(matches!(worker.on_event(Event::Sent(false)), Action::Stop));
    assert!(matches!(worker, Worker::Stopped));
}

#[test]
fn a_worker_does_a_job() {
    let mut worker = waiting_worker();
    let action = worker.on_event(Event::Received(Some(Msg::Job { id: 12, input: 34 })));
    assert!(matches!(action, Action::Run(34)));
    assert!(matches!(worker, Worker::Working(12)));
    let action = worker.on_event(Event::Finished(JobOutcome::Returned(68)));
    assert!(matches!(action, Action::Send(Msg::Done { id: 12, output: Ok(68) })));
    assert!(matches!(worker.on_event(Event::Sent(true)), Action::Receive));
    assert!(matches!(worker, Worker::Waiting));
}

#[test]
fn a_worker_ignores_what_is_no_job() {
    let mut worker = waiting_worker();
    assert!(matches!(worker.on_event(Event::Received(Some(Msg::Ready))), Action::Receive));
    let stray = Msg::Done { id: 1, output: Ok(2) };
    assert!(matches!(worker.on_event(Event::Received(Some(stray))), Action::Receive));
    assert!(matches!(worker, Worker::Waiting));
}

#[test]
fn a_worker_stops_when_the_connection_ends() {
    let mut worker = waiting_worker();
    assert!(matches!(worker.on_event(Event::Received(None)), Action::Stop));
    assert!(matches!(worker, Worker::Stopped));
}

#[test]
fn a_worker_that_cannot_answer_stops() {
    let mut worker = waiting_worker();
    worker.on_event(Event::Received(Some(Msg::Job { id: 1, input: 1 })));
    worker.on_event(Event::Finished(JobOutcome::Returned(2)));
    assert!(matches!(worker.on_event(Event::Sent(false)), Action::Stop));
}

#[test]
fn a_failed_job_does_not_stop_the_worker() {
    let mut worker = waiting_worker();
    worker.on_event(Event::Received(Some(Msg::Job { id: 4, input: 1 })));
    match worker.on_event(Event::Finished(JobOutcome::Panicked(Some("oh".to_string())))) {
        Action::Send(Msg::Done { id, output }) => {
            assert_eq!(id, 4);
            assert_eq!(output, Err("Panic: oh".to_string()));
        }
        _ => panic!("an answer is due"),
    }
    assert!(matches!(worker.on_event(Event::Sent(true)), Action::Receive));
}

#[test]
fn outcomes_in_words() {
    assert_eq!(job_output(JobOutcome::Returned(3)), Ok(3));
    assert_eq!(job_output::<u8>(JobOutcome::Failed("no".to_string())), Err("no".to_string()));
    assert_eq!(
        job_output::<u8>(JobOutcome::Panicked(Some("boom".to_string()))),
        Err("Panic: boom".to_string())
    );
    assert_eq!(job_output::<u8>(JobOutcome::Panicked(None)), Err("Panic: (unknown)".to_string()));
}

#[test]
fn each_place_awaits_its_own_kind_of_event() {
    let mut worker = Worker::new();
    assert!(worker.is_awaiting(&Event::Initialized(true)));
    assert!(!worker.is_awaiting(&Event::Sent(true)));
    worker.on_event(Event::Initialized(true));
    assert!(worker.is_awaiting(&Event::Sent(false)));
    worker.on_event(Event::Sent(true));
    assert!(worker.is_awaiting(&Event::Received(None)));
    assert!(!worker.is_awaiting(&Event::Finished(JobOutcome::Returned(1))));
    worker.on_event(Event::Received(Some(Msg::Job { id: 1, input: 1 })));
    assert!(worker.is_awaiting(&Event::Finished(JobOutcome::Returned(1))));
    assert!(!Worker::Stopped.is_awaiting(&Event::Received(None)));
}
