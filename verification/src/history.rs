//! What becomes of each job, over everything that happens in a pool.
//!
//! A history is a pool together with a record of its jobs: who handed in what, which workers
//! each job was handed to, and what it was answered. The record only watches; it shows that the
//! answer to a job is the outcome of the work on that job's own input.
use crate::error::PoolError;
use crate::message::{Event, Msg};
use crate::pdfium::{HeavyIn, HeavyOut};
use crate::system::{Link, Step, System};
use crate::worker::{JobOutcome, WorkerAction, WorkerEvent};
use vstd::prelude::*;

verus! {

/// What is known of a job.
pub struct JobRecord<I, O, R> {
    /// The number that the router gave it.
    pub id: u64,
    /// What was handed in.
    pub input: I,
    /// Where its answer goes.
    pub reply: R,
    /// The workers that it was handed to, the latest one last.
    pub tried: Seq<usize>,
    /// The answers that were given to it, and where they went.
    pub answers: Seq<(R, Result<O, PoolError>)>,
}

/// A pool and what has become of its jobs.
pub struct History<I, O, R> {
    pub pool: System<I, O, R>,
    /// All jobs that were ever handed in, in that order.
    pub jobs: Seq<JobRecord<I, O, R>>,
    /// For each number, the place in `jobs` of the job that got it last.
    pub place: Map<u64, nat>,
    /// For each worker, the input that it was given last.
    pub given: Map<usize, I>,
}

/// Whether `output` reports an outcome of work on a clone of `input`, where `ran` tells which
/// outcomes the work on an input can have.
pub open spec fn own_outcome<I: Clone, O>(
    ran: spec_fn(I, JobOutcome<O>) -> bool,
    input: I,
    output: Result<O, String>,
) -> bool {
    exists|x: I, outcome: JobOutcome<O>| #[trigger]
        cloned(input, x) && ran(x, outcome) && #[trigger] crate::worker::reports(outcome, output)
}

impl<I: Clone, O, R> JobRecord<I, O, R> {
    /// Whether `answer` is an answer to this job: it goes where the job's answer is to go, and
    /// is the outcome of the work on the job's own input.
    pub open spec fn is_answer(
        self,
        ran: spec_fn(I, JobOutcome<O>) -> bool,
        answer: (R, Result<O, PoolError>),
    ) -> bool {
        &&& answer.0 == self.reply
        &&& exists|output: Result<O, String>| #[trigger]
            own_outcome(ran, self.input, output) && answer.1 == crate::router::job_result(output)
    }
}

impl<I: Clone, O, R> History<I, O, R> {
    /// A pool of `workers` workers, before anything has happened.
    pub open spec fn start(workers: usize) -> Self {
        History {
            pool: System::start(workers),
            jobs: Seq::empty(),
            place: Map::empty(),
            given: Map::empty(),
        }
    }

    /// The job that got this number last.
    pub open spec fn job(self, id: u64) -> JobRecord<I, O, R> {
        self.jobs[self.place[id] as int]
    }

    /// Whether `step` can happen: as in any pool, and work ends only with an outcome that the
    /// work on the input that the worker was given can have.
    pub open spec fn can(
        self,
        ran: spec_fn(I, JobOutcome<O>) -> bool,
        step: Step<I, O, R>,
    ) -> bool {
        &&& self.pool.can(step)
        &&& step matches Step::Act { worker, event: WorkerEvent::Finished(outcome), .. } ==> ran(
            self.given[worker],
            outcome,
        )
    }

    /// What a step leads to.
    pub open spec fn next(self, step: Step<I, O, R>) -> Self {
        let pool = self.pool.next(step);
        match step {
            Step::Submit(input, reply) => {
                let id = self.pool.router.next_id();
                History {
                    pool,
                    jobs: self.jobs.push(
                        JobRecord {
                            id,
                            input,
                            reply,
                            tried: Seq::empty(),
                            answers: Seq::empty(),
                        },
                    ),
                    place: self.place.insert(id, self.jobs.len()),
                    ..self
                }
            },
            Step::Assign(_) => {
                let id = self.pool.router.queue[0].0;
                let job = self.job(id);
                History {
                    pool,
                    jobs: self.jobs.update(
                        self.place[id] as int,
                        JobRecord { tried: job.tried.push(self.pool.router.idle.last()), ..job },
                    ),
                    ..self
                }
            },
            Step::Act { worker, event: WorkerEvent::Received(Some(Msg::Job { id, input })), .. } => {
                History { pool, given: self.given.insert(worker, input), ..self }
            },
            Step::Deliver(worker) => match self.pool.links[worker].from[0] {
                Msg::Done { id, output } => {
                    let event = Event::<I, O>::Msg(worker, Msg::Done { id, output });
                    match self.pool.router.answer_of(event) {
                        Some(answer) => {
                            let job = self.job(id);
                            History {
                                pool,
                                jobs: self.jobs.update(
                                    self.place[id] as int,
                                    JobRecord { answers: job.answers.push(answer), ..job },
                                ),
                                ..self
                            }
                        },
                        None => History { pool, ..self },
                    }
                },
                _ => History { pool, ..self },
            },
            _ => History { pool, ..self },
        }
    }

    /// Whether the jobs that the router has still to answer are those that have no answer.
    pub open spec fn open_jobs_known(self) -> bool {
        let router = self.pool.router;
        &&& forall|id: u64| #[trigger]
            router.pending.contains_key(id) ==> {
                &&& self.place.contains_key(id)
                &&& self.place[id] < self.jobs.len()
                &&& self.job(id).id == id
                &&& self.job(id).reply == router.pending[id]
                &&& self.job(id).answers.len() == 0
            }
        &&& forall|k: int|
            0 <= k < self.jobs.len() && (#[trigger] self.jobs[k]).answers.len() == 0 ==> {
                &&& router.pending.contains_key(self.jobs[k].id)
                &&& self.place[self.jobs[k].id] == k
            }
    }

    /// Whether every job, wherever the router keeps it, has the input that was handed in.
    pub open spec fn inputs_kept(self) -> bool {
        let router = self.pool.router;
        &&& forall|i: int|
            0 <= i < router.queue.len() ==> (#[trigger] router.queue[i]).1 == self.job(
                router.queue[i].0,
            ).input
        &&& forall|w: usize| #[trigger]
            router.in_flight.contains_key(w) ==> router.in_flight[w].1 == self.job(
                router.in_flight[w].0,
            ).input
    }

    /// Whether a worker works on its own job's input, and has reported nothing but the outcome
    /// of that.
    pub open spec fn works_on_own_input(
        self,
        ran: spec_fn(I, JobOutcome<O>) -> bool,
        worker: usize,
    ) -> bool {
        let link = self.pool.links[worker];
        &&& link.worker is Working ==> cloned(
            self.pool.router.in_flight[worker].1,
            self.given[worker],
        )
        &&& link.from.len() > 0 ==> (link.from[0] matches Msg::Done { id, output } ==> own_outcome(
            ran,
            self.job(id).input,
            output,
        ))
    }

    /// Whether no job has had more than one answer, nor another's answer.
    pub open spec fn answers_right(self, ran: spec_fn(I, JobOutcome<O>) -> bool) -> bool {
        forall|k: int|
            0 <= k < self.jobs.len() ==> {
                &&& (#[trigger] self.jobs[k]).answers.len() <= 1
                &&& self.jobs[k].answers.len() == 1 ==> self.jobs[k].is_answer(
                    ran,
                    self.jobs[k].answers[0],
                )
            }
    }

    /// Whether no job was handed to a worker twice, nor to another worker before the one that
    /// had it was gone.
    pub open spec fn tries_apart(self) -> bool {
        let router = self.pool.router;
        &&& forall|k: int|
            0 <= k < self.jobs.len() ==> (#[trigger] self.jobs[k]).tried.no_duplicates()
        &&& forall|k: int, j: int|
            0 <= k < self.jobs.len() && 0 <= j < self.jobs[k].tried.len() ==> {
                &&& #[trigger] self.jobs[k].tried[j] < router.workers
                &&& j < self.jobs[k].tried.len() - 1 ==> !self.pool.links.contains_key(
                    self.jobs[k].tried[j],
                )
            }
        &&& forall|id: u64, j: int|
            router.pending.contains_key(id) && 0 <= j < self.job(id).tried.len() ==> {
                let w = #[trigger] self.job(id).tried[j];
                &&& !router.idle.contains(w)
                &&& router.in_flight.contains_key(w) ==> router.in_flight[w].0 == id
                &&& !router.in_flight.contains_key(w) ==> !self.pool.links.contains_key(w)
            }
        &&& forall|w: usize| #[trigger]
            router.in_flight.contains_key(w) ==> {
                let tried = self.job(router.in_flight[w].0).tried;
                tried.len() > 0 && tried.last() == w
            }
    }

    /// Whether the jobs in the queue that have been out before come first, and the others follow
    /// in the order in which they were handed in.
    pub open spec fn queue_ordered(self) -> bool {
        let queue = self.pool.router.queue;
        forall|i: int, j: int|
            0 <= i < j < queue.len() ==> {
                let a = self.place[(#[trigger] queue[i]).0];
                let b = self.place[(#[trigger] queue[j]).0];
                self.jobs[a as int].tried.len() > 0 || (self.jobs[b as int].tried.len() == 0 && a
                    < b)
            }
    }

    /// Whether all of this holds, in a pool that is in order.
    pub open spec fn sound(self, ran: spec_fn(I, JobOutcome<O>) -> bool) -> bool {
        &&& self.pool.in_order()
        &&& self.open_jobs_known()
        &&& self.inputs_kept()
        &&& forall|w: usize| #[trigger]
            self.pool.links.contains_key(w) ==> self.works_on_own_input(ran, w)
        &&& self.answers_right(ran)
        &&& self.tries_apart()
        &&& self.queue_ordered()
    }
}

/// A history begins sound.
pub proof fn law_history_begins_sound<I: Clone, O, R>(
    workers: usize,
    ran: spec_fn(I, JobOutcome<O>) -> bool,
)
    ensures
        History::<I, O, R>::start(workers).sound(ran),
{
    crate::system::law_pool_begins_in_order::<I, O, R>(workers);
    crate::system::lemma_fresh_links::<I, O>(workers as nat);
}

/// Taking in a job keeps a history sound.
proof fn lemma_submit_sound<I: Clone, O, R>(
    h: History<I, O, R>,
    ran: spec_fn(I, JobOutcome<O>) -> bool,
    input: I,
    reply: R,
)
    requires
        h.sound(ran),
        h.can(ran, Step::Submit(input, reply)),
    ensures
        h.next(Step::Submit(input, reply)).sound(ran),
{
    let step = Step::<I, O, R>::Submit(input, reply);
    let t = h.next(step);
    crate::system::law_pool_stays_in_order(h.pool, step);
    assert(forall|id: u64| #[trigger]
        h.pool.router.pending.contains_key(id) ==> id != h.pool.router.next_id());
    assert forall|id: u64| #[trigger] h.pool.router.pending.contains_key(id) implies t.job(id)
        == h.job(id) by {}
    assert forall|w: usize| #[trigger] t.pool.links.contains_key(w) implies t.works_on_own_input(
        ran,
        w,
    ) by {
        assert(h.pool.links.contains_key(w));
        assert(h.pool.agrees(w));
        assert(h.works_on_own_input(ran, w));
    }
    assert(t.open_jobs_known());
    assert(t.inputs_kept());
    assert(t.answers_right(ran));
    assert(t.tries_apart());
    assert(t.queue_ordered());
}

/// Handing a job to a worker keeps a history sound.
proof fn lemma_assign_sound<I: Clone, O, R>(
    h: History<I, O, R>,
    ran: spec_fn(I, JobOutcome<O>) -> bool,
    message: Msg<I, O>,
)
    requires
        h.sound(ran),
        h.can(ran, Step::Assign(message)),
    ensures
        h.next(Step::Assign(message)).sound(ran),
{
    let step = Step::<I, O, R>::Assign(message);
    let t = h.next(step);
    let router = h.pool.router;
    let worker = router.idle.last();
    let id = router.queue[0].0;
    let p = h.place[id];
    crate::system::law_pool_stays_in_order(h.pool, step);
    assert(router.pending.contains_key(id));
    assert(router.idle[router.idle.len() - 1] == worker);
    assert(router.idle.contains(worker));
    assert forall|n: u64| #[trigger] router.pending.contains_key(n) && n != id implies t.job(n)
        == h.job(n) by {
        assert(h.job(n).id == n);
        assert(h.job(id).id == id);
    }
    assert(t.job(id).tried == h.job(id).tried.push(worker));
    assert forall|w: usize| #[trigger] t.pool.links.contains_key(w) implies t.works_on_own_input(
        ran,
        w,
    ) by {
        assert(h.pool.links.contains_key(w));
        assert(h.pool.agrees(w));
        assert(h.works_on_own_input(ran, w));
    }
    assert(t.open_jobs_known());
    assert(t.inputs_kept());
    assert(t.answers_right(ran));
    assert(t.tries_apart()) by {
        assert forall|k: int| 0 <= k < t.jobs.len() implies (
        #[trigger] t.jobs[k]).tried.no_duplicates() by {
            assert(h.jobs[k].tried.no_duplicates());
            if k == p {
                assert forall|j: int| 0 <= j < h.job(id).tried.len() implies h.job(id).tried[j]
                    != worker by {}
            }
        }
        assert forall|n: u64, j: int|
            t.pool.router.pending.contains_key(n) && 0 <= j < t.job(n).tried.len() implies {
            let w = #[trigger] t.job(n).tried[j];
            &&& !t.pool.router.idle.contains(w)
            &&& t.pool.router.in_flight.contains_key(w) ==> t.pool.router.in_flight[w].0 == n
            &&& !t.pool.router.in_flight.contains_key(w) ==> !t.pool.links.contains_key(w)
        } by {
            let w = t.job(n).tried[j];
            assert(forall|v: usize|
                t.pool.router.idle.contains(v) ==> router.idle.contains(v) && v != worker) by {
                assert forall|v: usize| t.pool.router.idle.contains(v) implies router.idle.contains(
                    v,
                ) && v != worker by {
                    let q = choose|q: int|
                        0 <= q < t.pool.router.idle.len() && t.pool.router.idle[q] == v;
                    assert(router.idle[q] == v);
                }
            }
            if n != id || j < h.job(id).tried.len() {
                assert(h.job(n).tried[j] == w);
            }
        }
    }
    assert(t.queue_ordered()) by {
        assert forall|i: int| 0 <= i < t.pool.router.queue.len() implies #[trigger]
        t.pool.router.queue[i] == router.queue[i + 1] && router.queue[i + 1].0 != id by {}
    }
}

/// Whatever a worker does keeps a history sound.
proof fn lemma_act_sound<I: Clone, O, R>(
    h: History<I, O, R>,
    ran: spec_fn(I, JobOutcome<O>) -> bool,
    worker: usize,
    event: WorkerEvent<I, O>,
    action: WorkerAction<I, O>,
    sent: bool,
)
    requires
        h.sound(ran),
        h.can(ran, Step::Act { worker, event, action, sent }),
    ensures
        h.next(Step::Act { worker, event, action, sent }).sound(ran),
{
    let step = Step::<I, O, R>::Act { worker, event, action, sent };
    let t = h.next(step);
    crate::system::law_pool_stays_in_order(h.pool, step);
    assert(t.pool.router == h.pool.router && t.jobs == h.jobs && t.place == h.place);
    assert forall|w: usize| #[trigger] t.pool.links.contains_key(w) implies t.works_on_own_input(
        ran,
        w,
    ) by {
        assert(h.pool.links.contains_key(w));
        assert(h.pool.agrees(w));
        assert(h.works_on_own_input(ran, w));
    }
    assert(t.pool.links.dom() =~= h.pool.links.dom());
    assert forall|w: usize| #[trigger] t.pool.links.contains_key(w) == h.pool.links.contains_key(
        w,
    ) by {}
    assert(t.open_jobs_known());
    assert(t.inputs_kept());
    assert(t.answers_right(ran));
    assert(t.tries_apart());
    assert(t.queue_ordered());
}

/// A message that reaches the router keeps a history sound.
proof fn lemma_deliver_sound<I: Clone, O, R>(
    h: History<I, O, R>,
    ran: spec_fn(I, JobOutcome<O>) -> bool,
    worker: usize,
)
    requires
        h.sound(ran),
        h.can(ran, Step::Deliver(worker)),
    ensures
        h.next(Step::Deliver(worker)).sound(ran),
{
    let step = Step::<I, O, R>::Deliver(worker);
    let t = h.next(step);
    let router = h.pool.router;
    crate::system::law_pool_stays_in_order(h.pool, step);
    assert(h.pool.agrees(worker));
    assert(h.works_on_own_input(ran, worker));
    assert(t.pool.router.idle == router.idle.push(worker));
    assert forall|v: usize| #[trigger] t.pool.router.idle.contains(v) implies router.idle.contains(
        v,
    ) || v == worker by {
        let q = choose|q: int| 0 <= q < t.pool.router.idle.len() && t.pool.router.idle[q] == v;
        if q < router.idle.len() {
            assert(router.idle[q] == v);
        }
    }
    assert forall|n: u64| #[trigger] t.pool.router.pending.contains_key(n) implies t.job(n)
        == h.job(n) && router.pending.contains_key(n) by {
        assert(router.pending.contains_key(n));
        assert(h.job(n).id == n);
        if let Msg::Done { id, output } = h.pool.links[worker].from[0] {
            assert(h.job(id).id == id);
        }
    }
    assert forall|w: usize| #[trigger] t.pool.links.contains_key(w) implies t.works_on_own_input(
        ran,
        w,
    ) by {
        assert(h.pool.links.contains_key(w));
        assert(h.pool.agrees(w));
        assert(h.works_on_own_input(ran, w));
    }
    assert forall|w: usize| #[trigger] t.pool.links.contains_key(w) == h.pool.links.contains_key(
        w,
    ) by {}
    assert(t.open_jobs_known());
    assert(t.inputs_kept());
    assert(t.answers_right(ran)) by {
        assert forall|k: int| 0 <= k < t.jobs.len() implies (#[trigger] t.jobs[k]).answers.len()
            <= 1 && (t.jobs[k].answers.len() == 1 ==> t.jobs[k].is_answer(
            ran,
            t.jobs[k].answers[0],
        )) by {
            assert(h.jobs[k].answers.len() <= 1);
            if let Msg::Done { id, output } = h.pool.links[worker].from[0] {
                assert(router.pending.contains_key(id));
                if k == h.place[id] {
                    let answer = (router.pending[id], crate::router::job_result(output));
                    assert(t.jobs[k].answers == seq![answer]);
                    assert(own_outcome(ran, t.jobs[k].input, output));
                }
            }
        }
    }
    assert(t.tries_apart()) by {
        assert forall|n: u64, j: int|
            t.pool.router.pending.contains_key(n) && 0 <= j < t.job(n).tried.len() implies {
            let w = #[trigger] t.job(n).tried[j];
            &&& !t.pool.router.idle.contains(w)
            &&& t.pool.router.in_flight.contains_key(w) ==> t.pool.router.in_flight[w].0 == n
            &&& !t.pool.router.in_flight.contains_key(w) ==> !t.pool.links.contains_key(w)
        } by {
            let w = h.job(n).tried[j];
            assert(router.pending.contains_key(n));
        }
    }
    assert(t.queue_ordered());
}

/// The death of a worker keeps a history sound.
proof fn lemma_die_sound<I: Clone, O, R>(
    h: History<I, O, R>,
    ran: spec_fn(I, JobOutcome<O>) -> bool,
    worker: usize,
)
    requires
        h.sound(ran),
        h.can(ran, Step::Die(worker)),
    ensures
        h.next(Step::Die(worker)).sound(ran),
{
    let step = Step::<I, O, R>::Die(worker);
    let t = h.next(step);
    let router = h.pool.router;
    crate::system::law_pool_stays_in_order(h.pool, step);
    assert(h.pool.agrees(worker));
    assert forall|w: usize| #[trigger] t.pool.links.contains_key(w) implies t.works_on_own_input(
        ran,
        w,
    ) && h.pool.links.contains_key(w) by {
        assert(h.pool.links.contains_key(w));
        assert(h.pool.agrees(w));
        assert(h.works_on_own_input(ran, w));
    }
    assert(t.open_jobs_known());
    assert(t.inputs_kept());
    assert(t.answers_right(ran));
    assert(t.tries_apart()) by {
        assert forall|n: u64, j: int|
            t.pool.router.pending.contains_key(n) && 0 <= j < t.job(n).tried.len() implies {
            let w = #[trigger] t.job(n).tried[j];
            &&& !t.pool.router.idle.contains(w)
            &&& t.pool.router.in_flight.contains_key(w) ==> t.pool.router.in_flight[w].0 == n
            &&& !t.pool.router.in_flight.contains_key(w) ==> !t.pool.links.contains_key(w)
        } by {
            let w = h.job(n).tried[j];
            assert(router.pending.contains_key(n));
        }
    }
    assert(t.queue_ordered());
}

/// Whatever happens in a pool, its history stays sound.
pub proof fn law_history_stays_sound<I: Clone, O, R>(
    h: History<I, O, R>,
    ran: spec_fn(I, JobOutcome<O>) -> bool,
    step: Step<I, O, R>,
)
    requires
        h.sound(ran),
        h.can(ran, step),
    ensures
        h.next(step).sound(ran),
{
    match step {
        Step::Submit(input, reply) => lemma_submit_sound(h, ran, input, reply),
        Step::Assign(message) => lemma_assign_sound(h, ran, message),
        Step::Act { worker, event, action, sent } => {
            lemma_act_sound(h, ran, worker, event, action, sent);
        },
        Step::Deliver(worker) => lemma_deliver_sound(h, ran, worker),
        Step::Die(worker) => lemma_die_sound(h, ran, worker),
    }
}

// ---- What holds of each job ----

/// The answer to a job is the outcome of the work on that job's own input, and goes to whoever
/// handed that job in: so it is with every outcome that reaches the router.
pub proof fn law_answer_is_own_outcome<I: Clone, O, R>(
    h: History<I, O, R>,
    ran: spec_fn(I, JobOutcome<O>) -> bool,
    worker: usize,
    id: u64,
    output: Result<O, String>,
)
    requires
        h.sound(ran),
        h.can(ran, Step::Deliver(worker)),
        h.pool.links[worker].from[0] == (Msg::<I, O>::Done { id, output }),
    ensures
        h.pool.router.answer_of(Event::<I, O>::Msg(worker, Msg::Done { id, output })) == Some(
            (h.job(id).reply, crate::router::job_result(output)),
        ),
        h.job(id).id == id,
        own_outcome(ran, h.job(id).input, output),
        h.job(id).answers.len() == 0,
        h.next(Step::Deliver(worker)).job(id).answers == seq![
            (h.job(id).reply, crate::router::job_result(output)),
        ],
{
    assert(h.pool.agrees(worker));
    assert(h.works_on_own_input(ran, worker));
    assert(h.pool.router.pending.contains_key(id));
}

/// A job is answered at most once, with the outcome of the work on its own input; and a job that
/// has no answer yet is one that the router still has to answer.
pub proof fn law_answered_once<I: Clone, O, R>(
    h: History<I, O, R>,
    ran: spec_fn(I, JobOutcome<O>) -> bool,
    k: int,
)
    requires
        h.sound(ran),
        0 <= k < h.jobs.len(),
    ensures
        h.jobs[k].answers.len() <= 1,
        h.jobs[k].answers.len() == 1 ==> h.jobs[k].is_answer(ran, h.jobs[k].answers[0]),
        h.jobs[k].answers.len() == 0 <==> h.pool.router.pending.contains_key(h.jobs[k].id)
            && h.place[h.jobs[k].id] == k,
        h.jobs[k].answers.len() == 0 ==> h.pool.router.pending[h.jobs[k].id] == h.jobs[k].reply,
{
    if h.pool.router.pending.contains_key(h.jobs[k].id) && h.place[h.jobs[k].id] == k {
        assert(h.job(h.jobs[k].id).answers.len() == 0);
    }
}

/// A job is handed to each worker at most once, and so to no more workers than there are; and it
/// was handed to another worker only after the death of the one before.
pub proof fn law_tried_once_per_worker<I: Clone, O, R>(
    h: History<I, O, R>,
    ran: spec_fn(I, JobOutcome<O>) -> bool,
    k: int,
)
    requires
        h.sound(ran),
        0 <= k < h.jobs.len(),
    ensures
        h.jobs[k].tried.no_duplicates(),
        h.jobs[k].tried.len() <= h.pool.router.workers,
        forall|j: int|
            0 <= j < h.jobs[k].tried.len() - 1 ==> !h.pool.links.contains_key(
                #[trigger] h.jobs[k].tried[j],
            ),
{
    let tried = h.jobs[k].tried;
    let workers = h.pool.router.workers;
    let all = vstd::set_lib::set_int_range(0, workers as int);
    vstd::set_lib::lemma_int_range(0, workers as int);
    let places = tried.map_values(|w: usize| w as int);
    assert(places.no_duplicates());
    places.unique_seq_to_set();
    assert(places.to_set().subset_of(all)) by {
        assert forall|p: int| places.to_set().contains(p) implies all.contains(p) by {
            let j = choose|j: int| 0 <= j < places.len() && places[j] == p;
            assert(h.jobs[k].tried[j] < workers);
        }
    }
    vstd::set_lib::lemma_len_subset(places.to_set(), all);
}

/// When a job is handed out, every worker that had it before is dead.
pub proof fn law_retried_only_after_death<I: Clone, O, R>(
    h: History<I, O, R>,
    ran: spec_fn(I, JobOutcome<O>) -> bool,
    message: Msg<I, O>,
)
    requires
        h.sound(ran),
        h.can(ran, Step::Assign(message)),
    ensures
        forall|j: int|
            0 <= j < h.job(h.pool.router.queue[0].0).tried.len() ==> !h.pool.links.contains_key(
                #[trigger] h.job(h.pool.router.queue[0].0).tried[j],
            ),
{
    let id = h.pool.router.queue[0].0;
    assert(h.pool.router.pending.contains_key(id));
    assert forall|j: int| 0 <= j < h.job(id).tried.len() implies !h.pool.links.contains_key(
        #[trigger] h.job(id).tried[j],
    ) by {
        let w = h.job(id).tried[j];
        assert(!h.pool.router.in_flight.contains_key(w));
    }
}

/// Jobs go out in the order in which they were handed in: the job that is handed out next has
/// been out before, or it is the oldest of those that have not.
pub proof fn law_oldest_goes_next<I: Clone, O, R>(
    h: History<I, O, R>,
    ran: spec_fn(I, JobOutcome<O>) -> bool,
    message: Msg<I, O>,
    k: int,
)
    requires
        h.sound(ran),
        h.can(ran, Step::Assign(message)),
        0 <= k < h.jobs.len(),
        h.jobs[k].answers.len() == 0,
        h.jobs[k].tried.len() == 0,
    ensures
        h.job(h.pool.router.queue[0].0).tried.len() > 0 || h.place[h.pool.router.queue[0].0] <= k,
{
    let router = h.pool.router;
    let id = h.jobs[k].id;
    assert(router.pending.contains_key(id));
    assert(!router.running(id));
    let i = choose|i: int| 0 <= i < router.queue.len() && (#[trigger] router.queue[i]).0 == id;
    if i > 0 {
        assert(router.queue[0].0 != router.queue[i].0);
    }
}

/// Nobody is left without an answer: the answers that a pool without workers still owes, which
/// the router gives up on, are those of the jobs that have none.
pub proof fn law_unanswered_jobs_are_given_up<I: Clone, O, R>(
    h: History<I, O, R>,
    ran: spec_fn(I, JobOutcome<O>) -> bool,
)
    requires
        h.sound(ran),
    ensures
        h.pool.router.lost() <==> h.pool.links.is_empty() && exists|k: int|
            0 <= k < h.jobs.len() && (#[trigger] h.jobs[k]).answers.len() == 0,
        forall|k: int|
            0 <= k < h.jobs.len() && (#[trigger] h.jobs[k]).answers.len() == 0
                ==> h.pool.router.pending.contains_pair(h.jobs[k].id, h.jobs[k].reply),
        forall|id: u64| #[trigger]
            h.pool.router.pending.contains_key(id) ==> h.job(id).id == id && h.job(
                id,
            ).answers.len() == 0 && h.job(id).reply == h.pool.router.pending[id],
{
    let pending = h.pool.router.pending;
    crate::system::law_gives_up_without_workers(h.pool);
    if !pending.is_empty() {
        assert(exists|id: u64| pending.contains_key(id)) by {
            if forall|id: u64| !pending.contains_key(id) {
                assert(pending.dom() =~= Set::empty());
                assert(pending =~= Map::empty());
            }
        }
        let id = choose|id: u64| pending.contains_key(id);
        assert(h.jobs[h.place[id] as int].answers.len() == 0);
    }
    assert forall|k: int|
        0 <= k < h.jobs.len() && (#[trigger] h.jobs[k]).answers.len() == 0 implies !pending.is_empty()
        && pending.contains_pair(h.jobs[k].id, h.jobs[k].reply) by {
        assert(pending.contains_key(h.jobs[k].id));
        assert(h.job(h.jobs[k].id).reply == pending[h.jobs[k].id]);
        assert(pending.dom().contains(h.jobs[k].id));
    }
}

// ---- Whole runs ----

impl<I: Clone, O, R> History<I, O, R> {
    /// Whether the steps can happen one after the other.
    pub open spec fn can_run(
        self,
        ran: spec_fn(I, JobOutcome<O>) -> bool,
        steps: Seq<Step<I, O, R>>,
    ) -> bool
        decreases steps.len(),
    {
        if steps.len() == 0 {
            true
        } else {
            self.can(ran, steps[0]) && self.next(steps[0]).can_run(ran, steps.skip(1))
        }
    }

    /// What the steps lead to.
    pub open spec fn run(self, steps: Seq<Step<I, O, R>>) -> Self
        decreases steps.len(),
    {
        if steps.len() == 0 {
            self
        } else {
            self.next(steps[0]).run(steps.skip(1))
        }
    }

    /// What was handed in, and where each answer is to go.
    pub open spec fn handed_in(self) -> Seq<(I, R)> {
        self.jobs.map_values(|job: JobRecord<I, O, R>| (job.input, job.reply))
    }

    /// What the steps hand in, and where each answer is to go.
    pub open spec fn submissions(steps: Seq<Step<I, O, R>>) -> Seq<(I, R)>
        decreases steps.len(),
    {
        if steps.len() == 0 {
            Seq::empty()
        } else {
            let rest = Self::submissions(steps.skip(1));
            match steps[0] {
                Step::Submit(input, reply) => seq![(input, reply)] + rest,
                _ => rest,
            }
        }
    }
}

/// However a pool runs, its history stays sound, and records the pool and the jobs that were
/// handed in as they are.
pub proof fn law_every_history_is_sound<I: Clone, O, R>(
    h: History<I, O, R>,
    ran: spec_fn(I, JobOutcome<O>) -> bool,
    steps: Seq<Step<I, O, R>>,
)
    requires
        h.sound(ran),
        h.can_run(ran, steps),
    ensures
        h.run(steps).sound(ran),
        h.pool.can_run(steps),
        h.run(steps).pool == h.pool.run(steps),
        h.run(steps).handed_in() == h.handed_in() + History::<I, O, R>::submissions(steps),
    decreases steps.len(),
{
    if steps.len() > 0 {
        let t = h.next(steps[0]);
        law_history_stays_sound(h, ran, steps[0]);
        law_every_history_is_sound(t, ran, steps.skip(1));
        match steps[0] {
            Step::Submit(input, reply) => {
                assert(t.handed_in() =~= h.handed_in().push((input, reply)));
            },
            Step::Assign(_) => {
                assert(h.pool.router.pending.contains_key(h.pool.router.queue[0].0));
                assert(t.handed_in() =~= h.handed_in());
            },
            Step::Deliver(worker) => {
                assert(h.pool.agrees(worker));
                assert(t.handed_in() =~= h.handed_in());
            },
            _ => {
                assert(t.handed_in() =~= h.handed_in());
            },
        }
    } else {
        assert(h.handed_in() + History::<I, O, R>::submissions(steps) =~= h.handed_in());
    }
}

// ---- As long as a worker is left ----

impl<I: Clone, O, R> History<I, O, R> {
    /// Whether a step does no lasting harm. Workers may fail to start, lose their connections
    /// and die; only, none dies while the router lists it as idle.
    pub open spec fn goes_well(self, step: Step<I, O, R>) -> bool {
        step matches Step::Die(w) ==> !self.pool.router.idle.contains(w)
    }

    /// Whether none of the steps does lasting harm, when they happen one after the other.
    pub open spec fn runs_well(self, steps: Seq<Step<I, O, R>>) -> bool
        decreases steps.len(),
    {
        if steps.len() == 0 {
            true
        } else {
            self.goes_well(steps[0]) && self.next(steps[0]).runs_well(steps.skip(1))
        }
    }

    /// How many workers die in the course of the steps.
    pub open spec fn deaths(steps: Seq<Step<I, O, R>>) -> nat
        decreases steps.len(),
    {
        if steps.len() == 0 {
            0
        } else {
            (if steps[0] is Die {
                1nat
            } else {
                0
            }) + Self::deaths(steps.skip(1))
        }
    }

    /// Whether the router has seen no worker die that it lists as idle, or that it thinks has a
    /// job.
    pub open spec fn within_reach(self) -> bool {
        &&& forall|w: usize| #[trigger]
            self.pool.router.idle.contains(w) ==> self.pool.links.contains_key(w)
        &&& forall|w: usize| #[trigger]
            self.pool.router.in_flight.contains_key(w) ==> self.pool.links.contains_key(w)
    }

    /// Whether nothing is to be done for a worker: nothing is under way between it and the
    /// router, it is not at work, and if it has ended, the router does not count on hearing that
    /// now.
    pub open spec fn rests(self, w: usize) -> bool {
        let link = self.pool.links[w];
        &&& link.to.len() == 0
        &&& link.from.len() == 0
        &&& link.worker !is Starting
        &&& link.worker !is Working
        &&& link.worker is Stopped ==> self.pool.router.idle.contains(w)
    }

    /// Whether nothing is to be done in the pool.
    pub open spec fn at_rest(self) -> bool {
        &&& !self.pool.router.can_assign()
        &&& forall|w: usize| #[trigger] self.pool.links.contains_key(w) ==> self.rests(w)
    }

    /// Whether a step is one that nothing needs to go wrong for: a job is handed out, a message
    /// is sent or arrives, a worker gets on with what it does, or the router hears of the end of
    /// a worker that has ended.
    pub open spec fn is_due(self, step: Step<I, O, R>) -> bool {
        match step {
            Step::Submit(_, _) => false,
            Step::Assign(_) => true,
            Step::Act { event, sent, .. } => sent && match event {
                WorkerEvent::Initialized(ok) => ok,
                WorkerEvent::Received(message) => message is Some,
                _ => true,
            },
            Step::Deliver(_) => true,
            Step::Die(w) => self.pool.links[w].worker is Stopped
                && !self.pool.router.idle.contains(w),
        }
    }

    /// Whether each of the steps is due when its turn comes.
    pub open spec fn all_due(self, steps: Seq<Step<I, O, R>>) -> bool
        decreases steps.len(),
    {
        if steps.len() == 0 {
            true
        } else {
            self.is_due(steps[0]) && self.next(steps[0]).all_due(steps.skip(1))
        }
    }

    /// A bound on the steps that can be taken for a worker: for what is under way, for its end,
    /// and for handing out once more the job that it may leave behind.
    pub open spec fn left_for(link: Link<I, O>) -> nat {
        5 + (if link.worker is Stopped {
            0nat
        } else {
            1
        }) + (if link.to.len() > 0 {
            3nat
        } else if link.from.len() > 0 {
            1
        } else if link.worker is Starting || link.worker is Working {
            2
        } else {
            0
        })
    }

    /// A bound on the steps that can be taken for a worker, if the router has not seen it die.
    pub open spec fn left_at(links: Map<usize, Link<I, O>>, w: usize) -> nat {
        if links.contains_key(w) {
            Self::left_for(links[w])
        } else {
            0
        }
    }

    /// A bound on the steps that can be taken for the first `n` workers.
    pub open spec fn left_for_first(links: Map<usize, Link<I, O>>, n: nat) -> nat
        decreases n,
    {
        if n == 0 {
            0
        } else {
            Self::left_for_first(links, (n - 1) as nat) + Self::left_at(links, (n - 1) as usize)
        }
    }

    /// A bound on the steps that can be taken until another job is handed in.
    pub open spec fn left_to_do(self) -> nat {
        4 * self.pool.router.queue.len() + Self::left_for_first(
            self.pool.links,
            self.pool.router.workers,
        )
    }
}

/// What a change of one link does to the steps that are left.
proof fn lemma_left_for_first<I: Clone, O, R>(
    before: Map<usize, Link<I, O>>,
    after: Map<usize, Link<I, O>>,
    n: nat,
    w: usize,
)
    requires
        n <= usize::MAX,
        forall|v: usize|
            v != w ==> before.contains_key(v) == #[trigger] after.contains_key(v),
        forall|v: usize|
            v != w && #[trigger] after.contains_key(v) ==> before[v] == after[v],
    ensures
        History::<I, O, R>::left_for_first(after, n) == History::<I, O, R>::left_for_first(
            before,
            n,
        ) + (if w < n {
            History::<I, O, R>::left_at(after, w) - History::<I, O, R>::left_at(before, w)
        } else {
            0
        }),
    decreases n,
{
    if n > 0 {
        lemma_left_for_first::<I, O, R>(before, after, (n - 1) as nat, w);
    }
}

/// A pool begins with every worker within reach.
pub proof fn law_begins_within_reach<I: Clone, O, R>(workers: usize)
    ensures
        History::<I, O, R>::start(workers).within_reach(),
{
}

/// As long as no worker dies while it is listed as idle, the router gives no job away to a worker
/// that it has seen die, and every step but the handing in of a job gets the pool nearer to
/// having nothing left to do.
pub proof fn law_every_step_gets_ahead<I: Clone, O, R>(
    h: History<I, O, R>,
    ran: spec_fn(I, JobOutcome<O>) -> bool,
    step: Step<I, O, R>,
)
    requires
        h.sound(ran),
        h.can(ran, step),
        h.within_reach(),
        h.pool.router.workers <= usize::MAX,
        h.goes_well(step),
    ensures
        h.next(step).within_reach(),
        step !is Submit ==> h.next(step).left_to_do() < h.left_to_do(),
{
    let t = h.next(step);
    let n = h.pool.router.workers;
    let before = h.pool.links;
    let after = t.pool.links;
    let idle = h.pool.router.idle;
    match step {
        Step::Submit(_, _) => {},
        Step::Assign(_) => {
            let worker = idle.last();
            assert(idle[idle.len() - 1] == worker);
            assert(idle.contains(worker));
            assert(h.pool.agrees(worker));
            lemma_left_for_first::<I, O, R>(before, after, n, worker);
            assert forall|w: usize| #[trigger] t.pool.router.idle.contains(
                w,
            ) implies after.contains_key(w) by {
                let q = choose|q: int| 0 <= q < t.pool.router.idle.len() && t.pool.router.idle[q] == w;
                assert(idle[q] == w);
                assert(idle.contains(w));
            }
        },
        Step::Act { worker, .. } => {
            assert(h.pool.agrees(worker));
            lemma_left_for_first::<I, O, R>(before, after, n, worker);
        },
        Step::Deliver(worker) => {
            assert(h.pool.agrees(worker));
            lemma_left_for_first::<I, O, R>(before, after, n, worker);
            assert forall|w: usize| #[trigger] t.pool.router.idle.contains(
                w,
            ) implies after.contains_key(w) by {
                let q = choose|q: int| 0 <= q < t.pool.router.idle.len() && t.pool.router.idle[q] == w;
                if q < idle.len() {
                    assert(idle[q] == w);
                    assert(idle.contains(w));
                }
            }
        },
        Step::Die(worker) => {
            assert(h.pool.agrees(worker));
            lemma_left_for_first::<I, O, R>(before, after, n, worker);
        },
    }
}

/// A pool is never stuck: as long as it is not at rest, there is something that can be done and
/// that nothing needs to go wrong for, if the work on every input ends. `work` tells how it ends,
/// and `said` what is reported of that.
pub proof fn law_pool_never_gets_stuck<I: Clone, O, R>(
    h: History<I, O, R>,
    ran: spec_fn(I, JobOutcome<O>) -> bool,
    work: spec_fn(I) -> JobOutcome<O>,
    said: spec_fn(I) -> Result<O, String>,
)
    requires
        h.sound(ran),
        !h.at_rest(),
        forall|input: I| #[trigger] ran(input, work(input)),
        forall|input: I| #[trigger] crate::worker::reports(work(input), said(input)),
    ensures
        exists|step: Step<I, O, R>| #[trigger]
            h.can(ran, step) && h.is_due(step) && h.goes_well(step),
{
    let router = h.pool.router;
    if router.can_assign() {
        let message = Msg::<I, O>::Job { id: router.queue[0].0, input: router.queue[0].1 };
        let step = Step::<I, O, R>::Assign(message);
        assert(h.can(ran, step) && h.is_due(step));
    } else {
        let w = choose|w: usize| #[trigger] h.pool.links.contains_key(w) && !h.rests(w);
        assert(h.pool.agrees(w));
        let link = h.pool.links[w];
        let event: WorkerEvent<I, O> = if link.to.len() > 0 {
            WorkerEvent::Received(Some(link.to[0]))
        } else if link.worker is Starting {
            WorkerEvent::Initialized(true)
        } else {
            WorkerEvent::Finished(work(h.given[w]))
        };
        let action: WorkerAction<I, O> = match event {
            WorkerEvent::Received(Some(Msg::Job { id, input })) => WorkerAction::Run(input),
            WorkerEvent::Initialized(_) => WorkerAction::Send(Msg::Ready),
            _ => WorkerAction::Send(
                Msg::Done { id: link.worker->Working_0, output: said(h.given[w]) },
            ),
        };
        let step: Step<I, O, R> = if link.from.len() > 0 {
            Step::Deliver(w)
        } else if link.worker is Stopped {
            Step::Die(w)
        } else {
            Step::Act { worker: w, event, action, sent: true }
        };
        assert(ran(h.given[w], work(h.given[w])));
        assert(crate::worker::reports(work(h.given[w]), said(h.given[w])));
        assert(h.can(ran, step) && h.is_due(step));
    }
}

/// A pool that is at rest and has a worker left has answered every job.
pub proof fn law_rest_means_all_answered<I: Clone, O, R>(
    h: History<I, O, R>,
    ran: spec_fn(I, JobOutcome<O>) -> bool,
    k: int,
)
    requires
        h.sound(ran),
        h.within_reach(),
        h.at_rest(),
        h.pool.router.dead < h.pool.router.workers,
        0 <= k < h.jobs.len(),
    ensures
        h.jobs[k].answers.len() == 1,
        h.jobs[k].is_answer(ran, h.jobs[k].answers[0]),
{
    let router = h.pool.router;
    if h.jobs[k].answers.len() == 0 {
        let id = h.jobs[k].id;
        assert(router.pending.contains_key(id));
        let w: usize = if router.waiting(id) {
            h.pool.links.dom().choose()
        } else {
            choose|w: usize| #[trigger]
                router.in_flight.contains_key(w) && router.in_flight[w].0 == id
        };
        assert(h.pool.links.dom().len() > 0);
        assert(h.pool.links.contains_key(w));
        assert(h.pool.agrees(w));
        assert(h.rests(w));
    }
}

/// A pool that is handed no more jobs comes to rest, as long as no worker dies while it is listed
/// as idle: it can take no more steps than are left.
pub proof fn law_pool_comes_to_rest<I: Clone, O, R>(
    h: History<I, O, R>,
    ran: spec_fn(I, JobOutcome<O>) -> bool,
    steps: Seq<Step<I, O, R>>,
)
    requires
        h.sound(ran),
        h.can_run(ran, steps),
        h.within_reach(),
        h.pool.router.workers <= usize::MAX,
        h.runs_well(steps),
        forall|i: int| 0 <= i < steps.len() ==> #[trigger] steps[i] !is Submit,
    ensures
        h.run(steps).within_reach(),
        steps.len() + h.run(steps).left_to_do() <= h.left_to_do(),
    decreases steps.len(),
{
    if steps.len() > 0 {
        law_history_stays_sound(h, ran, steps[0]);
        law_every_step_gets_ahead(h, ran, steps[0]);
        let rest = steps.skip(1);
        assert forall|i: int| 0 <= i < rest.len() implies #[trigger] rest[i] !is Submit by {
            assert(rest[i] == steps[i + 1]);
        }
        law_pool_comes_to_rest(h.next(steps[0]), ran, rest);
    }
}

/// Wherever a pool stands, as long as no worker died while it was listed as idle, steps that are
/// due bring it to rest: it needs neither another job nor the failure of a worker for that.
pub proof fn law_rest_can_be_reached<I: Clone, O, R>(
    h: History<I, O, R>,
    ran: spec_fn(I, JobOutcome<O>) -> bool,
    work: spec_fn(I) -> JobOutcome<O>,
    said: spec_fn(I) -> Result<O, String>,
) -> (steps: Seq<Step<I, O, R>>)
    requires
        h.sound(ran),
        h.within_reach(),
        h.pool.router.workers <= usize::MAX,
        forall|input: I| #[trigger] ran(input, work(input)),
        forall|input: I| #[trigger] crate::worker::reports(work(input), said(input)),
    ensures
        h.can_run(ran, steps),
        h.runs_well(steps),
        h.all_due(steps),
        h.run(steps).at_rest(),
    decreases h.left_to_do(),
{
    if h.at_rest() {
        Seq::empty()
    } else {
        law_pool_never_gets_stuck(h, ran, work, said);
        let step = choose|step: Step<I, O, R>| #[trigger]
            h.can(ran, step) && h.is_due(step) && h.goes_well(step);
        law_history_stays_sound(h, ran, step);
        law_every_step_gets_ahead(h, ran, step);
        let rest = law_rest_can_be_reached(h.next(step), ran, work, said);
        let steps = seq![step] + rest;
        assert(steps.skip(1) =~= rest);
        steps
    }
}

/// What a run without lasting harm keeps, and how many deaths it counts.
proof fn lemma_run_within_reach<I: Clone, O, R>(
    h: History<I, O, R>,
    ran: spec_fn(I, JobOutcome<O>) -> bool,
    steps: Seq<Step<I, O, R>>,
)
    requires
        h.sound(ran),
        h.can_run(ran, steps),
        h.within_reach(),
        h.pool.router.workers <= usize::MAX,
        h.runs_well(steps),
    ensures
        h.run(steps).within_reach(),
        h.run(steps).pool.router.workers == h.pool.router.workers,
        h.run(steps).pool.router.dead == h.pool.router.dead + History::<I, O, R>::deaths(steps),
    decreases steps.len(),
{
    if steps.len() > 0 {
        law_history_stays_sound(h, ran, steps[0]);
        law_every_step_gets_ahead(h, ran, steps[0]);
        lemma_run_within_reach(h.next(steps[0]), ran, steps.skip(1));
    }
}

/// Every job resolves to the outcome of the work on its own input, although workers die. When the
/// work is a function of its input, not all workers die and none dies while it is listed as idle,
/// then once the pool is at rest, each of the jobs that were handed in, in any number and at any
/// time, has exactly one answer: it went where that job's answer was to go, and reports what the
/// work makes of that job's input.
pub proof fn law_every_job_resolves<I: Clone, O, R>(
    workers: usize,
    work: spec_fn(I) -> JobOutcome<O>,
    steps: Seq<Step<I, O, R>>,
    k: int,
)
    requires
        forall|a: I, b: I| #[trigger] cloned(a, b) ==> a == b,
        History::<I, O, R>::start(workers).can_run(
            |input: I, outcome: JobOutcome<O>| outcome == work(input),
            steps,
        ),
        History::<I, O, R>::start(workers).runs_well(steps),
        History::<I, O, R>::deaths(steps) < workers,
        History::<I, O, R>::start(workers).run(steps).at_rest(),
        0 <= k < History::<I, O, R>::submissions(steps).len(),
    ensures
        ({
            let (input, reply) = History::<I, O, R>::submissions(steps)[k];
            let end = History::<I, O, R>::start(workers).run(steps);
            &&& end.jobs.len() == History::<I, O, R>::submissions(steps).len()
            &&& end.jobs[k].answers.len() == 1
            &&& end.jobs[k].answers[0].0 == reply
            &&& exists|output: Result<O, String>| #[trigger]
                crate::worker::reports(work(input), output) && end.jobs[k].answers[0].1
                    == crate::router::job_result(output)
        }),
{
    let ran = |input: I, outcome: JobOutcome<O>| outcome == work(input);
    let start = History::<I, O, R>::start(workers);
    let end = start.run(steps);
    law_history_begins_sound::<I, O, R>(workers, ran);
    law_begins_within_reach::<I, O, R>(workers);
    law_every_history_is_sound(start, ran, steps);
    lemma_run_within_reach(start, ran, steps);
    assert(end.handed_in() =~= History::<I, O, R>::submissions(steps));
    assert(end.handed_in().len() == end.jobs.len());
    law_rest_means_all_answered(end, ran, k);
    let (input, reply) = History::<I, O, R>::submissions(steps)[k];
    assert(end.handed_in()[k] == (end.jobs[k].input, end.jobs[k].reply));
    let output = choose|output: Result<O, String>| #[trigger]
        own_outcome(ran, end.jobs[k].input, output) && end.jobs[k].answers[0].1
            == crate::router::job_result(output);
    assert(crate::worker::reports(work(input), output));
}

/// Whether the work on a number ends in this way, when `heavy_work` is called on it. What happens
/// to a number that leaves no room for its double is left open.
pub open spec fn doubled_by_call(
    x: HeavyIn,
    outcome: JobOutcome<HeavyOut>,
) -> bool {
    x.0 + x.0 <= u32::MAX ==> exists|res: Result<HeavyOut, String>| #[trigger]
        call_ensures(crate::pdfium::heavy_work, (&(), x), res) && outcome == (match res {
            Ok(output) => JobOutcome::Returned(output),
            Err(e) => JobOutcome::Failed(e),
        })
}

/// A pool whose workers double numbers gives each number back doubled. When not all workers die,
/// none dies while it is listed as idle and the pool has come to rest, then for every number that
/// was handed in and leaves room for it, whoever handed it in has got one answer, and that is the
/// number's sum with itself. Workers work by calling `heavy_work`.
pub proof fn law_heavy_pool_doubles<R>(
    workers: usize,
    steps: Seq<Step<HeavyIn, HeavyOut, R>>,
    k: int,
)
    requires
        History::<HeavyIn, HeavyOut, R>::start(workers).can_run(
            |x: HeavyIn, outcome: JobOutcome<HeavyOut>|
                doubled_by_call(x, outcome),
            steps,
        ),
        History::<HeavyIn, HeavyOut, R>::start(workers).runs_well(
            steps,
        ),
        History::<HeavyIn, HeavyOut, R>::deaths(steps) < workers,
        History::<HeavyIn, HeavyOut, R>::start(workers).run(
            steps,
        ).at_rest(),
        0 <= k < History::<
            HeavyIn,
            HeavyOut,
            R,
        >::submissions(steps).len(),
        ({
            let input = History::<
                HeavyIn,
                HeavyOut,
                R,
            >::submissions(steps)[k].0;
            input.0 + input.0 <= u32::MAX
        }),
    ensures
        ({
            let (input, reply) = History::<
                HeavyIn,
                HeavyOut,
                R,
            >::submissions(steps)[k];
            let end = History::<HeavyIn, HeavyOut, R>::start(
                workers,
            ).run(steps);
            &&& end.jobs[k].answers.len() == 1
            &&& end.jobs[k].answers[0].0 == reply
            &&& end.jobs[k].answers[0].1 matches Ok(output) && output.0 == input.0 + input.0
        }),
{
    let ran = |x: HeavyIn, outcome: JobOutcome<HeavyOut>|
        doubled_by_call(x, outcome);
    let start = History::<HeavyIn, HeavyOut, R>::start(workers);
    let end = start.run(steps);
    law_history_begins_sound::<HeavyIn, HeavyOut, R>(workers, ran);
    law_begins_within_reach::<HeavyIn, HeavyOut, R>(workers);
    law_every_history_is_sound(start, ran, steps);
    lemma_run_within_reach(start, ran, steps);
    let submissions = History::<
        HeavyIn,
        HeavyOut,
        R,
    >::submissions(steps);
    assert(end.handed_in() =~= submissions);
    assert(end.handed_in().len() == end.jobs.len());
    law_rest_means_all_answered(end, ran, k);
    assert(end.handed_in()[k] == (end.jobs[k].input, end.jobs[k].reply));
    let output = choose|output: Result<HeavyOut, String>| #[trigger]
        own_outcome(ran, end.jobs[k].input, output) && end.jobs[k].answers[0].1
            == crate::router::job_result(output);
    let (x, outcome) = choose|x: HeavyIn, outcome: JobOutcome<
        HeavyOut,
    >| #[trigger]
        cloned(end.jobs[k].input, x) && ran(x, outcome) && #[trigger] crate::worker::reports(
            outcome,
            output,
        );
    assert(x == end.jobs[k].input);
    assert(doubled_by_call(x, outcome));
}

} // verus!
