//! The router: which job goes to which worker, and who gets which answer.
use crate::error::PoolError;
use crate::message::{Event, Msg};
use std::collections::{HashMap, VecDeque};
use vstd::prelude::*;
use vstd::std_specs::hash::*;

verus! {

broadcast use group_hash_axioms;

/// The state of a router, as its contracts speak of it.
#[verifier::ext_equal]
pub struct RouterView<I, R> {
    /// How many workers the pool was started with.
    pub workers: nat,
    /// The jobs that wait for a worker, the next one first, each with its number.
    pub queue: Seq<(u64, I)>,
    /// For each job that has not been answered, where its answer goes.
    pub pending: Map<u64, R>,
    /// For each worker that was handed a job, that job and its number.
    pub in_flight: Map<usize, (u64, I)>,
    /// The workers that have reported that they can take a job, the latest one last.
    pub idle: Seq<usize>,
    /// How many workers have died.
    pub dead: nat,
    /// The number of the job that came last.
    pub last_id: u64,
}

impl<I, R> RouterView<I, R> {
    /// A router that has heard nothing yet.
    pub open spec fn start(workers: nat) -> Self {
        RouterView {
            workers,
            queue: Seq::empty(),
            pending: Map::empty(),
            in_flight: Map::empty(),
            idle: Seq::empty(),
            dead: 0,
            last_id: 0,
        }
    }

    /// The number that the next job gets.
    pub open spec fn next_id(self) -> u64 {
        if self.last_id == u64::MAX {
            0
        } else {
            (self.last_id + 1) as u64
        }
    }

    /// A job has come: it gets the next number and the last place in the queue.
    pub open spec fn submitted(self, input: I, reply: R) -> Self {
        let id = self.next_id();
        RouterView {
            last_id: id,
            pending: self.pending.insert(id, reply),
            queue: self.queue.push((id, input)),
            ..self
        }
    }

    /// Whether there is both a job that waits and a worker that could take it.
    pub open spec fn can_assign(self) -> bool {
        self.queue.len() > 0 && self.idle.len() > 0
    }

    /// The first job of the queue has gone to the worker that became idle last.
    pub open spec fn assigned_one(self) -> Self {
        RouterView {
            queue: self.queue.skip(1),
            in_flight: self.in_flight.insert(self.idle.last(), self.queue[0]),
            idle: self.idle.drop_last(),
            ..self
        }
    }

    /// `count` jobs have gone out, one after the other.
    pub open spec fn assigned(self, count: nat) -> Self
        decreases count,
    {
        if count == 0 {
            self
        } else {
            self.assigned((count - 1) as nat).assigned_one()
        }
    }

    /// Whether `message` is the job in place `i` of the queue, with a clone of its input.
    pub open spec fn is_job_message<O>(self, i: int, message: Msg<I, O>) -> bool where I: Clone {
        message matches Msg::Job { id, input } && id == self.queue[i].0 && cloned(
            self.queue[i].1,
            input,
        )
    }

    /// Whether offering the job in place `i` of the queue to the `i`-th latest idle worker
    /// through `try_send` came back with `accepted` and took the outbox from `before` to `after`.
    pub open spec fn offered<S, O, F: Fn(S, usize, Msg<I, O>) -> (S, bool)>(
        self,
        try_send: F,
        i: int,
        before: S,
        after: S,
        accepted: bool,
    ) -> bool where I: Clone {
        exists|message: Msg<I, O>|
            self.is_job_message(i, message) && #[trigger] call_ensures(
                try_send,
                (before, self.idle[self.idle.len() - 1 - i], message),
                (after, accepted),
            )
    }

    /// Whether `outboxes` are the states that the outbox goes through while `count` jobs go out:
    /// the first `count` offers are accepted, and the next one, if there is one to make, is
    /// refused. Each state comes from the one before it by one offer.
    pub open spec fn handing_out<S, O, F: Fn(S, usize, Msg<I, O>) -> (S, bool)>(
        self,
        try_send: F,
        count: nat,
        outboxes: Seq<S>,
    ) -> bool where I: Clone {
        let refused = count < self.queue.len() && count < self.idle.len();
        &&& count <= self.queue.len()
        &&& count <= self.idle.len()
        &&& outboxes.len() == count + 1 + (if refused {
            1int
        } else {
            0
        })
        &&& forall|i: int|
            0 <= i < count ==> self.offered::<S, O, F>(
                try_send,
                i,
                #[trigger] outboxes[i],
                outboxes[i + 1],
                true,
            )
        &&& refused ==> self.offered::<S, O, F>(
            try_send,
            count as int,
            outboxes[count as int],
            outboxes[count + 1int],
            false,
        )
    }

    /// Whether `count` is how many jobs go out when `try_send` decides, which takes the outbox
    /// from `before` to `after` by these offers and no others.
    pub open spec fn handed_out<S, O, F: Fn(S, usize, Msg<I, O>) -> (S, bool)>(
        self,
        try_send: F,
        count: nat,
        before: S,
        after: S,
    ) -> bool where I: Clone {
        exists|outboxes: Seq<S>| #[trigger]
            self.handing_out::<S, O, F>(try_send, count, outboxes) && outboxes[0] == before
                && outboxes.last() == after
    }

    /// Whether `outboxes` are the states that the outbox goes through by offers that were all
    /// accepted.
    pub open spec fn all_accepted<S, O, F: Fn(S, usize, Msg<I, O>) -> (S, bool)>(
        self,
        try_send: F,
        outboxes: Seq<S>,
    ) -> bool where I: Clone {
        &&& outboxes.len() > 0
        &&& forall|i: int|
            0 <= i < outboxes.len() - 1 ==> self.offered::<S, O, F>(
                try_send,
                i,
                #[trigger] outboxes[i],
                outboxes[i + 1],
                true,
            )
    }

    /// Whether `try_send`, from this outbox on, takes every offer that may be made: the next job
    /// in the queue to the next idle worker, once all the offers before it were accepted.
    pub open spec fn takes_offers<S, O, F: Fn(S, usize, Msg<I, O>) -> (S, bool)>(
        self,
        try_send: F,
        outbox: S,
    ) -> bool where I: Clone {
        forall|i: int, outboxes: Seq<S>, message: Msg<I, O>|
            0 <= i < self.queue.len() && i < self.idle.len() && #[trigger] self.all_accepted::<
                S,
                O,
                F,
            >(try_send, outboxes) && outboxes[0] == outbox && outboxes.len() == i + 1
                && #[trigger] self.is_job_message(i, message) ==> call_requires(
                try_send,
                (outboxes.last(), self.idle[self.idle.len() - 1 - i], message),
            )
    }

    /// Whether there are jobs to answer and nobody left to do them.
    pub open spec fn lost(self) -> bool {
        self.dead == self.workers && !self.pending.is_empty()
    }

    /// The jobs that were still to be answered are answered.
    pub open spec fn given_up(self) -> Self {
        RouterView { pending: Map::empty(), ..self }
    }

    /// What a worker's event makes of the state.
    pub open spec fn after_event<O>(self, event: Event<I, O>) -> Self {
        match event {
            Event::Msg(worker, Msg::Ready) => RouterView { idle: self.idle.push(worker), ..self },
            Event::Msg(worker, Msg::Done { id, output }) => RouterView {
                in_flight: self.in_flight.remove(worker),
                pending: self.pending.remove(id),
                idle: self.idle.push(worker),
                ..self
            },
            Event::Died(worker) => RouterView {
                dead: self.dead + 1,
                in_flight: self.in_flight.remove(worker),
                queue: if self.in_flight.contains_key(worker) {
                    seq![self.in_flight[worker]] + self.queue
                } else {
                    self.queue
                },
                ..self
            },
            Event::Msg(_, Msg::Job { .. }) => self,
        }
    }

    /// The answer that a worker's event brings, and where it goes.
    pub open spec fn answer_of<O>(self, event: Event<I, O>) -> Option<(R, Result<O, PoolError>)> {
        match event {
            Event::Msg(_, Msg::Done { id, output }) => if self.pending.contains_key(id) {
                Some((self.pending[id], job_result(output)))
            } else {
                None
            },
            _ => None,
        }
    }

    /// What the thing that the router was woken by makes of the state.
    pub open spec fn after_wake<O>(self, wake: Wake<I, O, R>) -> Self {
        match wake {
            Wake::Job(input, reply) => self.submitted(input, reply),
            Wake::Worker(event) => self.after_event(event),
            Wake::ChildExited => self,
        }
    }

    /// What is to be done about the thing that the router was woken by.
    pub open spec fn action_for<O>(self, wake: Wake<I, O, R>) -> Action<O, R> {
        match wake {
            Wake::Job(input, reply) => Action::Wait,
            Wake::Worker(event) => match self.answer_of(event) {
                Some((reply, result)) => Action::Answer(reply, result),
                None => Action::Wait,
            },
            Wake::ChildExited => Action::Reap,
        }
    }
}

/// Jobs that nobody is left to do.
pub struct LostJobs<R> {
    /// Where the answer to each of them goes, by the number of the job.
    pub replies: HashMap<u64, R>,
    /// The answer that each of them gets.
    pub error: PoolError,
}

/// What a router waits for.
pub enum Wake<I, O, R> {
    /// A job was handed in, with where its answer goes.
    Job(I, R),
    /// A worker did something.
    Worker(Event<I, O>),
    /// A child process has ended.
    ChildExited,
}

/// What is to be done before the router waits again.
pub enum Action<O, R> {
    /// Nothing.
    Wait,
    /// Give this answer.
    Answer(R, Result<O, PoolError>),
    /// Collect the child processes that have ended.
    Reap,
}

/// The result of a job whose worker sent back `output`.
pub open spec fn job_result<O>(output: Result<O, String>) -> Result<O, PoolError> {
    match output {
        Ok(o) => Ok(o),
        Err(e) => Err(PoolError::Job(e)),
    }
}

/// What the router learns from what came over the connection to a worker: a message is passed
/// on, and anything else (the end of the stream, or bytes that make no sense) means that the
/// worker is gone.
pub fn connection_event<I, O, E>(worker: usize, received: Option<Result<Msg<I, O>, E>>) -> (event:
    Event<I, O>)
    ensures
        event == (match received {
            Some(Ok(message)) => Event::Msg(worker, message),
            _ => Event::Died(worker),
        }),
{
    match received {
        Some(Ok(message)) => Event::Msg(worker, message),
        _ => Event::Died(worker),
    }
}

/// What keeps track of the jobs and the workers of a pool.
///
/// `I` is the input of a job, and `R` whatever an answer is given through.
pub struct Router<I, R> {
    workers: usize,
    queue: VecDeque<(u64, I)>,
    pending: HashMap<u64, R>,
    in_flight: HashMap<usize, (u64, I)>,
    idle: Vec<usize>,
    dead_workers: usize,
    ctr: u64,
}

impl<I, R> View for Router<I, R> {
    type V = RouterView<I, R>;

    closed spec fn view(&self) -> RouterView<I, R> {
        RouterView {
            workers: self.workers as nat,
            queue: self.queue@,
            pending: self.pending@,
            in_flight: self.in_flight@,
            idle: self.idle@,
            dead: self.dead_workers as nat,
            last_id: self.ctr,
        }
    }
}

impl<I, R> Router<I, R> {
    /// A router for a pool of `workers` workers, none of which has reported yet.
    pub fn new(workers: usize) -> (router: Self)
        requires
            workers > 0,
        ensures
            router@ == RouterView::<I, R>::start(workers as nat),
    {
        Router {
            workers,
            queue: VecDeque::new(),
            pending: HashMap::new(),
            in_flight: HashMap::new(),
            idle: Vec::new(),
            dead_workers: 0,
            ctr: 0,
        }
    }

    /// How many workers have died.
    pub fn dead_workers(&self) -> (n: usize)
        ensures
            n == self@.dead,
    {
        self.dead_workers
    }

    /// Takes in a job; `reply` is where its answer goes.
    pub fn submit(&mut self, input: I, reply: R)
        ensures
            final(self)@ == old(self)@.submitted(input, reply),
    {
        self.ctr = self.ctr.wrapping_add(1);
        self.pending.insert(self.ctr, reply);
        self.queue.push_back((self.ctr, input));
    }

    /// The worker that gets a job next, and the message that hands it over.
    pub fn next_assignment<O>(&self) -> (assignment: Option<(usize, Msg<I, O>)>) where I: Clone
        ensures
            assignment is Some <==> self@.can_assign(),
            assignment matches Some((worker, message)) ==> worker == self@.idle.last()
                && self@.is_job_message(0, message),
    {
        if self.queue.len() == 0 || self.idle.len() == 0 {
            return None;
        }
        let worker: usize = self.idle[self.idle.len() - 1];
        let job: &(u64, I) = &self.queue[0];
        Some((worker, Msg::Job { id: job.0, input: job.1.clone() }))
    }

    /// Notes what became of the message that `next_assignment` gave: when it was taken,
    /// the job is the worker's; when it was refused, the job keeps its place.
    pub fn record_assignment(&mut self, accepted: bool)
        requires
            old(self)@.can_assign(),
        ensures
            final(self)@ == (if accepted {
                old(self)@.assigned_one()
            } else {
                old(self)@
            }),
    {
        if accepted {
            let job: Option<(u64, I)> = self.queue.pop_front();
            let worker: Option<usize> = self.idle.pop();
            match (job, worker) {
                (Some(job), Some(worker)) => {
                    self.in_flight.insert(worker, job);
                },
                _ => {},
            }
            assert(self@ =~= old(self)@.assigned_one());
        }
    }

    /// Hands jobs to idle workers, the first job of the queue to the worker that became
    /// idle last, until there are no more jobs, no more idle workers, or `try_send` refuses
    /// a message. Nothing else is sent. Returns how many jobs went out.
    ///
    /// `outbox` is whatever `try_send` sends through; it is handed from offer to offer and
    /// returned.
    pub fn assign<S, O, F: Fn(S, usize, Msg<I, O>) -> (S, bool)>(
        &mut self,
        outbox: S,
        try_send: &F,
    ) -> (res: (S, usize)) where I: Clone
        requires
            old(self)@.takes_offers::<S, O, F>(*try_send, outbox),
        ensures
            old(self)@.handed_out::<S, O, F>(*try_send, res.1 as nat, outbox, res.0),
            final(self)@ == old(self)@.assigned(res.1 as nat),
    {
        let ghost start = self@;
        let ghost mut outboxes: Seq<S> = seq![outbox];
        let mut current: S = outbox;
        assert(self.queue.len() == start.queue.len());
        let mut count: usize = 0;
        loop
            invariant
                start.queue.len() <= usize::MAX,
                count <= start.queue.len(),
                count <= start.idle.len(),
                self@ == start.assigned(count as nat),
                outboxes.len() == count + 1,
                outboxes[0] == outbox,
                outboxes[count as int] == current,
                start.all_accepted::<S, O, F>(*try_send, outboxes),
                start.takes_offers::<S, O, F>(*try_send, outbox),
                start == old(self)@,
            decreases start.queue.len() - count,
        {
            proof {
                lemma_assigned(start, count as nat);
            }
            let (worker, message): (usize, Msg<I, O>) = match self.next_assignment::<O>() {
                Some(assignment) => assignment,
                None => {
                    assert(start.handing_out::<S, O, F>(*try_send, count as nat, outboxes));
                    return (current, count);
                },
            };
            assert(worker == start.idle[start.idle.len() - 1 - count]);
            assert(start.is_job_message(count as int, message));
            let ghost before = current;
            let (after, accepted): (S, bool) = try_send(current, worker, message);
            current = after;
            assert(start.offered::<S, O, F>(
                *try_send,
                count as int,
                before,
                current,
                accepted,
            ));
            proof {
                outboxes = outboxes.push(current);
            }
            self.record_assignment(accepted);
            if !accepted {
                assert(start.handing_out::<S, O, F>(*try_send, count as nat, outboxes));
                return (current, count);
            }
            count = count + 1;
        }
    }

    /// Once every worker has died, gives up on the jobs that are still to be answered:
    /// hands over where their answers go, and the error that is the answer to each.
    pub fn give_up(&mut self) -> (lost: Option<LostJobs<R>>)
        ensures
            lost is Some <==> old(self)@.lost(),
            match lost {
                Some(jobs) => {
                    &&& jobs.replies@ == old(self)@.pending
                    &&& jobs.error == PoolError::AllWorkersDied(old(self)@.dead as usize)
                    &&& final(self)@ == old(self)@.given_up()
                },
                None => final(self)@ == old(self)@,
            },
    {
        if self.dead_workers == self.workers && !self.pending.is_empty() {
            let mut replies: HashMap<u64, R> = HashMap::new();
            std::mem::swap(&mut replies, &mut self.pending);
            Some(LostJobs { replies, error: PoolError::AllWorkersDied(self.dead_workers) })
        } else {
            None
        }
    }

    /// Takes in what a worker did. Returns the answer that is due because of it, with where
    /// it goes.
    pub fn on_event<O>(&mut self, event: Event<I, O>) -> (answer: Option<(R, Result<O, PoolError>)>)
        requires
            event is Died ==> old(self)@.dead < usize::MAX,
        ensures
            final(self)@ == old(self)@.after_event(event),
            answer == old(self)@.answer_of(event),
    {
        match event {
            Event::Msg(worker, Msg::Ready) => {
                self.idle.push(worker);
                None
            },
            Event::Msg(worker, Msg::Done { id, output }) => {
                self.in_flight.remove(&worker);
                let answer: Option<(R, Result<O, PoolError>)> = match self.pending.remove(&id) {
                    Some(reply) => {
                        let result: Result<O, PoolError> = match output {
                            Ok(o) => Ok(o),
                            Err(e) => Err(PoolError::Job(e)),
                        };
                        Some((reply, result))
                    },
                    None => None,
                };
                self.idle.push(worker);
                answer
            },
            Event::Died(worker) => {
                self.dead_workers = self.dead_workers + 1;
                if let Some(job) = self.in_flight.remove(&worker) {
                    self.queue.push_front(job);
                }
                None
            },
            Event::Msg(_, Msg::Job { .. }) => None,
        }
    }

    /// Begins a round: hands out the jobs that can be handed out, and gives up if there are
    /// jobs left to answer and every worker has died.
    pub fn begin_round<S, O, F: Fn(S, usize, Msg<I, O>) -> (S, bool)>(
        &mut self,
        outbox: S,
        try_send: &F,
    ) -> (res: (S, Option<LostJobs<R>>)) where I: Clone
        requires
            old(self)@.takes_offers::<S, O, F>(*try_send, outbox),
        ensures
            res.1 is Some <==> old(self)@.lost(),
            exists|count: nat| #[trigger]
                old(self)@.handed_out::<S, O, F>(*try_send, count, outbox, res.0) && match res.1 {
                    Some(jobs) => {
                        &&& jobs.replies@ == old(self)@.pending
                        &&& jobs.error == PoolError::AllWorkersDied(old(self)@.dead as usize)
                        &&& final(self)@ == old(self)@.assigned(count).given_up()
                    },
                    None => final(self)@ == old(self)@.assigned(count),
                },
    {
        let (sent, count): (S, usize) = self.assign::<S, O, F>(outbox, try_send);
        proof {
            lemma_assigned(old(self)@, count as nat);
        }
        let lost: Option<LostJobs<R>> = self.give_up();
        proof {
            let v = old(self)@;
            let res = (sent, lost);
            assert(v.handed_out::<S, O, F>(*try_send, count as nat, outbox, res.0));
        }
        (sent, lost)
    }

    /// Takes in what the router was woken by, and says what is to be done about it.
    pub fn on_wake<O>(&mut self, wake: Wake<I, O, R>) -> (action: Action<O, R>)
        requires
            wake matches Wake::Worker(Event::Died(_)) ==> old(self)@.dead < usize::MAX,
        ensures
            final(self)@ == old(self)@.after_wake(wake),
            action == old(self)@.action_for(wake),
    {
        match wake {
            Wake::Job(input, reply) => {
                self.submit(input, reply);
                Action::Wait
            },
            Wake::Worker(event) => match self.on_event(event) {
                Some((reply, result)) => Action::Answer(reply, result),
                None => Action::Wait,
            },
            Wake::ChildExited => Action::Reap,
        }
    }
}

/// What a number of assignments does to each part of the state.
pub(crate) proof fn lemma_assigned<I, R>(v: RouterView<I, R>, count: nat)
    requires
        count <= v.queue.len(),
        count <= v.idle.len(),
    ensures
        v.assigned(count).queue == v.queue.skip(count as int),
        v.assigned(count).idle == v.idle.take(v.idle.len() - count),
        v.assigned(count) == (RouterView {
            queue: v.assigned(count).queue,
            idle: v.assigned(count).idle,
            in_flight: v.assigned(count).in_flight,
            ..v
        }),
    decreases count,
{
    if count == 0 {
        assert(v.queue.skip(0) =~= v.queue);
        assert(v.idle.take(v.idle.len() as int) =~= v.idle);
    } else {
        lemma_assigned(v, (count - 1) as nat);
        assert(v.queue.skip(count - 1).skip(1) =~= v.queue.skip(count as int));
        assert(v.idle.take(v.idle.len() - (count - 1)).drop_last() =~= v.idle.take(
            v.idle.len() - count,
        ));
    }
}

} // verus!
