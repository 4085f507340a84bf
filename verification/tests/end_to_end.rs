use bytes::BytesMut;
use forkpool::codec::RmpCodec;
use forkpool::error::PoolError;
use forkpool::message::Msg;
use forkpool::pdfium::{heavy_work, HeavyIn, HeavyOut};
use forkpool::router::{connection_event, Action, Router, Wake};
use forkpool::worker::{JobOutcome, Worker, WorkerAction, WorkerEvent};

type Message = Msg<HeavyIn, HeavyOut>;
type Wire = (u8, u64, u32, String);

fn pack(message: Message) -> Result<Vec<u8>, String> {
    let wire: Wire = match message {
        Msg::Ready => (0, 0, 0, String::new()),
        Msg::Job { id, input } => (1, id, input.0, String::new()),
        Msg::Done { id, output: Ok(output) } => (2, id, output.0, String::new()),
        Msg::Done { id, output: Err(e) } => (3, id, 0, e),
    };
    rmp_serde::to_vec(&wire).map_err(|e| e.to_string())
}

fn unpack(bytes: &[u8]) -> Result<Message, String> {
    let (kind, id, value, text): Wire = rmp_serde::from_slice(bytes).map_err(|e| e.to_string())?;
    match kind {
        0 => Ok(Msg::Ready),
        1 => Ok(Msg::Job { id, input: HeavyIn(value) }),
        2 => Ok(Msg::Done { id, output: Ok(HeavyOut(value)) }),
        3 => Ok(Msg::Done { id, output: Err(text) }),
        _ => Err("unknown kind".to_string()),
    }
}

/// A worker and both directions of its connection.
struct Child {
    worker: Worker,
    alive: bool,
    to: BytesMut,
    from: BytesMut,
}

impl Child {
    fn new() -> Child {
        let mut child = Child {
            worker: Worker::new(),
            alive: true,
            to: BytesMut::new(),
            from: BytesMut::new(),
        };
        child.follow(WorkerEvent::Initialized(true));
        child
    }

    fn follow(&mut self, event: WorkerEvent<HeavyIn, HeavyOut>) {
        let mut event = event;
        loop {
            event = match self.worker.on_event(event) {
                WorkerAction::Send(message) => {
                    let mut codec: RmpCodec<Message> = RmpCodec::new();
                    let sent = codec.encode(pack(message), &mut self.from).is_ok();
                    WorkerEvent::Sent(sent)
                }
                WorkerAction::Run(input) => {
                    let outcome = match heavy_work(&(), input) {
                        Ok(output) => JobOutcome::Returned(output),
                        Err(e) => JobOutcome::Failed(e),
                    };
                    WorkerEvent::Finished(outcome)
                }
                WorkerAction::Receive | WorkerAction::Stop => return,
            };
        }
    }

    fn turn(&mut self) {
        let mut codec: RmpCodec<Message> = RmpCodec::new();
        while let Ok(Some(message)) = codec.decode(&mut self.to, unpack) {
            self.follow(WorkerEvent::Received(Some(message)));
        }
    }
}

/// Runs the jobs to their end; the workers in `dying` die with the first job they get.
fn run(workers: usize, dying: &[usize], inputs: &[u32]) -> Vec<Option<Result<u32, PoolError>>> {
    let mut children: Vec<Child> = (0..workers).map(|_| Child::new()).collect();
    let mut router: Router<HeavyIn, usize> = Router::new(workers);
    let mut answers: Vec<Option<Result<u32, PoolError>>> = inputs.iter().map(|_| None).collect();
    for (place, input) in inputs.iter().enumerate() {
        let wake: Wake<HeavyIn, HeavyOut, usize> = Wake::Job(HeavyIn(*input), place);
        assert!(matches!(router.on_wake(wake), Action::Wait));
    }
    for _ in 0..1000 {
        let try_send = |mut children: Vec<Child>, worker: usize, message: Message| {
            let mut codec: RmpCodec<Message> = RmpCodec::new();
            let accepted = codec.encode(pack(message), &mut children[worker].to).is_ok();
            (children, accepted)
        };
        let (sent, lost) = router.begin_round(children, &try_send);
        children = sent;
        if let Some(lost) = lost {
            for (_, place) in lost.replies {
                answers[place] = Some(Err(PoolError::Job(lost.error.message())));
            }
            break;
        }
        for worker in 0..workers {
            let received: Option<Result<Message, PoolError>> = {
                let child = &mut children[worker];
                if !child.alive {
                    continue;
                }
                if dying.contains(&worker) && child.to.len() > 0 {
                    child.alive = false;
                    None
                } else {
                    child.turn();
                    let mut codec: RmpCodec<Message> = RmpCodec::new();
                    match codec.decode(&mut child.from, unpack) {
                        Ok(None) => continue,
                        Ok(Some(message)) => Some(Ok(message)),
                        Err(e) => Some(Err(e)),
                    }
                }
            };
            if let Action::Answer(place, result) =
                router.on_wake(Wake::Worker(connection_event(worker, received)))
            {
                assert!(answers[place].is_none());
                answers[place] = Some(result.map(|output| output.0));
            }
        }
    }
    answers
}

fn values(answers: Vec<Option<Result<u32, PoolError>>>) -> Vec<u32> {
    answers.into_iter().map(|answer| answer.unwrap().unwrap()).collect()
}

#[test]
fn test_heavy_pool() {
    let result = values(run(4, &[], &[21]));
    assert_eq!(result[0], 42);
}

#[test]
fn test_heavy_concurrent() {
    let inputs: Vec<u32> = (0..10).collect();
    let results = values(run(4, &[], &inputs));
    for i in 0..10 {
        assert_eq!(results[i as usize], i * 2);
    }
}

#[test]
fn test_heavy_from_second_binary() {
    let result = values(run(1, &[], &[100]));
    assert_eq!(result[0], 200);
}

#[test]
fn every_job_is_answered_although_workers_die() {
    let inputs: Vec<u32> = (0..20).collect();
    let results = values(run(3, &[0, 2], &inputs));
    assert_eq!(results, inputs.iter().map(|i| i * 2).collect::<Vec<u32>>());
}

#[test]
fn every_job_is_turned_down_when_all_workers_die() {
    let answers = run(2, &[0, 1], &[1, 2, 3]);
    for answer in answers {
        assert_eq!(
            answer.unwrap().unwrap_err().message(),
            "All 2 workers died — likely init failure (e.g. LibreOffice SDK not found)"
        );
    }
}

#[test]
fn every_job_gets_its_own_answer_and_only_one() {
    let inputs: Vec<u32> = vec![7, 3, 7, 0, 11, 3, 1000];
    for workers in 1..=5 {
        assert_eq!(values(run(workers, &[], &inputs)), vec![14, 6, 14, 0, 22, 6, 2000]);
    }
}
