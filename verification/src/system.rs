//! A router and its workers together.
//!
//! What is said of a router elsewhere holds as long as its workers behave. This module shows
//! that they do: it puts the router and the workers side by side, joined by connections that
//! keep messages in order and may break at any time, and follows them step by step.
use crate::message::{Event, Msg};
use crate::router::RouterView;
use crate::worker::{Worker, WorkerAction, WorkerEvent};
use vstd::prelude::*;

verus! {

/// A worker, and the messages that are under way between it and the router.
pub struct Link<I, O> {
    /// Where the worker stands.
    pub worker: Worker,
    /// What was sent to the worker and has not been received, the oldest first.
    pub to: Seq<Msg<I, O>>,
    /// What the worker sent and the router has not received, the oldest first.
    pub from: Seq<Msg<I, O>>,
}

/// A router and those of its workers that it has not yet seen die.
pub struct System<I, O, R> {
    pub router: RouterView<I, R>,
    pub links: Map<usize, Link<I, O>>,
}

/// Something that happens in a pool.
pub enum Step<I, O, R> {
    /// A job is handed in.
    Submit(I, R),
    /// The next job is sent to a worker, in this message.
    Assign(Msg<I, O>),
    /// A worker takes in an event and acts; if it sends a message, sending it works or not.
    Act { worker: usize, event: WorkerEvent<I, O>, action: WorkerAction<I, O>, sent: bool },
    /// The oldest message of a worker reaches the router.
    Deliver(usize),
    /// The router sees that the connection to a worker is gone.
    Die(usize),
}

/// The links to the first `n` workers, before anything has happened.
pub open spec fn fresh_links<I, O>(n: nat) -> Map<usize, Link<I, O>>
    decreases n,
{
    if n == 0 {
        Map::empty()
    } else {
        fresh_links((n - 1) as nat).insert(
            (n - 1) as usize,
            Link { worker: Worker::Starting, to: Seq::empty(), from: Seq::empty() },
        )
    }
}

impl<I: Clone, O, R> System<I, O, R> {
    /// A pool of `workers` workers, before anything has happened.
    pub open spec fn start(workers: usize) -> Self {
        System { router: RouterView::start(workers as nat), links: fresh_links(workers as nat) }
    }

    /// Whether `step` can happen.
    pub open spec fn can(self, step: Step<I, O, R>) -> bool {
        match step {
            Step::Submit(input, reply) => self.router.next_id_free(),
            Step::Assign(message) => {
                &&& self.router.can_assign()
                &&& self.router.is_job_message(0, message)
            },
            Step::Act { worker, event, action, sent } => {
                &&& self.links.contains_key(worker)
                &&& self.links[worker].worker.awaits(event)
                &&& self.links[worker].worker.acts(event, action)
                &&& event matches WorkerEvent::Received(Some(message)) ==> {
                    &&& self.links[worker].to.len() > 0
                    &&& self.links[worker].to[0] == message
                }
            },
            Step::Deliver(worker) => {
                &&& self.links.contains_key(worker)
                &&& self.links[worker].from.len() > 0
            },
            Step::Die(worker) => self.links.contains_key(worker),
        }
    }

    /// The link to a worker that has taken in an event and acted.
    pub open spec fn acted(
        link: Link<I, O>,
        event: WorkerEvent<I, O>,
        action: WorkerAction<I, O>,
        sent: bool,
    ) -> Link<I, O> {
        let to = if event matches WorkerEvent::Received(Some(_)) {
            link.to.skip(1)
        } else {
            link.to
        };
        match action {
            WorkerAction::Send(message) => Link {
                worker: link.worker.after(event).after(WorkerEvent::<I, O>::Sent(sent)),
                to,
                from: if sent {
                    link.from.push(message)
                } else {
                    link.from
                },
            },
            _ => Link { worker: link.worker.after(event), to, from: link.from },
        }
    }

    /// The event that reaches the router in a step, if one does.
    pub open spec fn event_of(self, step: Step<I, O, R>) -> Option<Event<I, O>> {
        match step {
            Step::Deliver(worker) => Some(Event::Msg(worker, self.links[worker].from[0])),
            Step::Die(worker) => Some(Event::Died(worker)),
            _ => None,
        }
    }

    /// What a step leads to.
    pub open spec fn next(self, step: Step<I, O, R>) -> Self {
        match step {
            Step::Submit(input, reply) => System {
                router: self.router.submitted(input, reply),
                ..self
            },
            Step::Assign(message) => {
                let worker = self.router.idle.last();
                System {
                    router: self.router.assigned_one(),
                    links: if self.links.contains_key(worker) {
                        self.links.insert(
                            worker,
                            Link {
                                to: self.links[worker].to.push(message),
                                ..self.links[worker]
                            },
                        )
                    } else {
                        self.links
                    },
                }
            },
            Step::Act { worker, event, action, sent } => System {
                links: self.links.insert(
                    worker,
                    Self::acted(self.links[worker], event, action, sent),
                ),
                ..self
            },
            Step::Deliver(worker) => System {
                router: self.router.after_event(
                    Event::<I, O>::Msg(worker, self.links[worker].from[0]),
                ),
                links: self.links.insert(
                    worker,
                    Link { from: self.links[worker].from.skip(1), ..self.links[worker] },
                ),
            },
            Step::Die(worker) => System {
                router: self.router.after_event(Event::<I, O>::Died(worker)),
                links: self.links.remove(worker),
            },
        }
    }

    /// Whether what the router thinks of a worker agrees with where the worker stands and with
    /// what is under way between them: at most one message is, and it is the one that the
    /// router's bookkeeping calls for.
    pub open spec fn agrees(self, worker: usize) -> bool {
        let link = self.links[worker];
        let resting = link.worker is Waiting || link.worker is Stopped;
        if self.router.in_flight.contains_key(worker) {
            let (job, job_input) = self.router.in_flight[worker];
            ||| {
                &&& link.to.len() == 1
                &&& link.to[0] matches Msg::Job { id, input } && id == job && cloned(
                    job_input,
                    input,
                )
                &&& link.from.len() == 0
                &&& resting
            }
            ||| {
                &&& link.to.len() == 0
                &&& link.from.len() == 0
                &&& link.worker == Worker::Working(job) || link.worker is Stopped
            }
            ||| {
                &&& link.to.len() == 0
                &&& link.from.len() == 1
                &&& link.from[0] matches Msg::Done { id, output } && id == job
                &&& resting
            }
        } else if self.router.idle.contains(worker) {
            &&& link.to.len() == 0
            &&& link.from.len() == 0
            &&& resting
        } else {
            &&& link.to.len() == 0
            &&& {
                ||| {
                    &&& link.from.len() == 0
                    &&& link.worker is Starting || link.worker is Stopped
                }
                ||| {
                    &&& link.from.len() == 1
                    &&& link.from[0] is Ready
                    &&& resting
                }
            }
        }
    }

    /// Whether the pool is in order: the router's bookkeeping is, it agrees with every worker
    /// that is left, and it has counted the workers that are not.
    pub open spec fn in_order(self) -> bool {
        &&& self.router.consistent()
        &&& self.links.dom().finite()
        &&& self.router.dead + self.links.len() == self.router.workers
        &&& forall|worker: usize| #[trigger]
            self.links.contains_key(worker) ==> worker < self.router.workers && self.agrees(worker)
    }
}

/// The first `n` links are those of the first `n` workers.
pub(crate) proof fn lemma_fresh_links<I, O>(n: nat)
    requires
        n <= usize::MAX,
    ensures
        forall|w: usize| #[trigger] fresh_links::<I, O>(n).contains_key(w) <==> w < n,
        forall|w: usize| #[trigger]
            fresh_links::<I, O>(n).contains_key(w) ==> fresh_links::<I, O>(n)[w] == (Link::<I, O> {
                worker: Worker::Starting,
                to: Seq::empty(),
                from: Seq::empty(),
            }),
        fresh_links::<I, O>(n).dom().finite(),
        fresh_links::<I, O>(n).len() == n,
    decreases n,
{
    if n > 0 {
        lemma_fresh_links::<I, O>((n - 1) as nat);
        assert(!fresh_links::<I, O>((n - 1) as nat).contains_key((n - 1) as usize));
    }
}

/// A pool begins in order.
pub proof fn law_pool_begins_in_order<I: Clone, O, R>(workers: usize)
    ensures
        System::<I, O, R>::start(workers).in_order(),
{
    lemma_fresh_links::<I, O>(workers as nat);
    crate::router_laws::law_start_consistent::<I, R>(workers as nat);
}

/// In a pool that is in order, every event that reaches the router is one that it expects.
pub proof fn law_workers_behave<I: Clone, O, R>(s: System<I, O, R>, step: Step<I, O, R>)
    requires
        s.in_order(),
        s.can(step),
    ensures
        s.event_of(step) matches Some(event) ==> s.router.expected(event),
{
    match step {
        Step::Deliver(worker) => {
            assert(s.agrees(worker));
        },
        Step::Die(worker) => {
            assert(s.links.dom().contains(worker));
        },
        _ => {},
    }
}

/// Whatever happens in a pool that is in order, it stays in order.
pub proof fn law_pool_stays_in_order<I: Clone, O, R>(s: System<I, O, R>, step: Step<I, O, R>)
    requires
        s.in_order(),
        s.can(step),
    ensures
        s.next(step).in_order(),
{
    law_workers_behave(s, step);
    let t = s.next(step);
    match step {
        Step::Submit(input, reply) => {
            crate::router_laws::law_submit_consistent(s.router, input, reply);
            assert forall|w: usize| #[trigger] t.links.contains_key(w) implies t.agrees(w) by {
                assert(s.agrees(w));
            }
        },
        Step::Assign(message) => {
            crate::router_laws::law_assignment_consistent(s.router);
            let worker = s.router.idle.last();
            assert(s.router.idle.contains(worker));
            assert forall|w: usize| #[trigger] t.links.contains_key(w) implies w < t.router.workers
                && t.agrees(w) by {
                assert(s.links.contains_key(w));
                assert(s.agrees(w));
                assert(w != worker ==> (s.router.idle.contains(w) <==> t.router.idle.contains(w)))
                    by {
                    if w != worker && s.router.idle.contains(w) {
                        let k = choose|k: int| 0 <= k < s.router.idle.len() && s.router.idle[k] == w;
                        assert(t.router.idle[k] == w);
                    }
                }
            }
            assert(t.links.dom() =~= s.links.dom());
        },
        Step::Act { worker, event, action, sent } => {
            assert forall|w: usize| #[trigger] t.links.contains_key(w) implies w < t.router.workers
                && t.agrees(w) by {
                assert(s.links.contains_key(w));
                assert(s.agrees(w));
            }
            assert(t.links.dom() =~= s.links.dom());
        },
        Step::Deliver(worker) => {
            let event = Event::<I, O>::Msg(worker, s.links[worker].from[0]);
            crate::router_laws::law_event_consistent(s.router, event);
            assert(s.agrees(worker));
            assert(t.router.idle == s.router.idle.push(worker));
            assert(t.router.idle[s.router.idle.len() as int] == worker);
            assert forall|w: usize| #[trigger] t.links.contains_key(w) implies w < t.router.workers
                && t.agrees(w) by {
                assert(s.links.contains_key(w));
                assert(s.agrees(w));
                if w != worker {
                    assert(s.router.idle.contains(w) <==> t.router.idle.contains(w)) by {
                        if s.router.idle.contains(w) {
                            let k = choose|k: int|
                                0 <= k < s.router.idle.len() && s.router.idle[k] == w;
                            assert(t.router.idle[k] == w);
                        }
                    }
                }
            }
            assert(t.links.dom() =~= s.links.dom());
        },
        Step::Die(worker) => {
            crate::router_laws::law_event_consistent(s.router, Event::<I, O>::Died(worker));
            assert forall|w: usize| #[trigger] t.links.contains_key(w) implies w < t.router.workers
                && t.agrees(w) by {
                assert(s.links.contains_key(w));
                assert(s.agrees(w));
            }
        },
    }
}

/// The job that a worker sets out to do is the one that the router has handed it: it has that
/// job's number, and the worker works on a clone of that job's input.
pub proof fn law_worker_does_its_job<I: Clone, O, R>(
    s: System<I, O, R>,
    worker: usize,
    id: u64,
    input: I,
    action: WorkerAction<I, O>,
)
    requires
        s.in_order(),
        s.can(
            Step::Act {
                worker,
                event: WorkerEvent::Received(Some(Msg::Job { id, input })),
                action,
                sent: true,
            },
        ),
    ensures
        s.router.in_flight.contains_key(worker),
        s.router.in_flight[worker].0 == id,
        cloned(s.router.in_flight[worker].1, input),
        action == WorkerAction::<I, O>::Run(input),
{
    assert(s.agrees(worker));
}

/// An outcome that reaches the router has the number of the job that the worker was handed, and
/// goes to whoever handed that job in.
pub proof fn law_delivered_outcome_is_answered<I: Clone, O, R>(
    s: System<I, O, R>,
    worker: usize,
    id: u64,
    output: Result<O, String>,
)
    requires
        s.in_order(),
        s.can(Step::Deliver(worker)),
        s.links[worker].from[0] == (Msg::<I, O>::Done { id, output }),
    ensures
        s.router.in_flight.contains_key(worker),
        s.router.in_flight[worker].0 == id,
        s.router.pending.contains_key(id),
        s.router.answer_of(Event::<I, O>::Msg(worker, Msg::Done { id, output })) == Some(
            (s.router.pending[id], crate::router::job_result(output)),
        ),
{
    assert(s.agrees(worker));
}

/// The router gives up when, and only when, there are jobs to answer and no worker is left.
pub proof fn law_gives_up_without_workers<I: Clone, O, R>(s: System<I, O, R>)
    requires
        s.in_order(),
    ensures
        s.router.lost() <==> s.links.is_empty() && !s.router.pending.is_empty(),
{
    if s.links.len() == 0 {
        assert(s.links.dom() =~= Set::empty()) by {
            assert forall|worker: usize| !s.links.dom().contains(worker) by {
                if s.links.dom().contains(worker) {
                    assert(s.links.dom().len() > 0);
                }
            }
        }
    }
}

// ---- Whole runs ----

impl<I: Clone, O, R> System<I, O, R> {
    /// Whether the steps can happen one after the other.
    pub open spec fn can_run(self, steps: Seq<Step<I, O, R>>) -> bool
        decreases steps.len(),
    {
        if steps.len() == 0 {
            true
        } else {
            self.can(steps[0]) && self.next(steps[0]).can_run(steps.skip(1))
        }
    }

    /// What the steps lead to.
    pub open spec fn run(self, steps: Seq<Step<I, O, R>>) -> Self
        decreases steps.len(),
    {
        if steps.len() == 0 {
            self
        } else {
            self.next(steps[0]).run(steps.skip(1))
        }
    }

    /// How many jobs the steps hand in.
    pub open spec fn jobs_submitted(steps: Seq<Step<I, O, R>>) -> nat
        decreases steps.len(),
    {
        if steps.len() == 0 {
            0
        } else {
            (if steps[0] is Submit {
                1nat
            } else {
                0
            }) + Self::jobs_submitted(steps.skip(1))
        }
    }

    /// Whether an answer is given in a step.
    pub open spec fn answers(self, step: Step<I, O, R>) -> bool {
        self.event_of(step) matches Some(event) && self.router.answer_of(event) is Some
    }

    /// How many answers are given in the course of the steps.
    pub open spec fn answers_given(self, steps: Seq<Step<I, O, R>>) -> nat
        decreases steps.len(),
    {
        if steps.len() == 0 {
            0
        } else {
            (if self.answers(steps[0]) {
                1nat
            } else {
                0
            }) + self.next(steps[0]).answers_given(steps.skip(1))
        }
    }
}

/// However a pool runs, it stays in order.
pub proof fn law_every_run_stays_in_order<I: Clone, O, R>(
    s: System<I, O, R>,
    steps: Seq<Step<I, O, R>>,
)
    requires
        s.in_order(),
        s.can_run(steps),
    ensures
        s.run(steps).in_order(),
    decreases steps.len(),
{
    if steps.len() > 0 {
        law_pool_stays_in_order(s, steps[0]);
        law_every_run_stays_in_order(s.next(steps[0]), steps.skip(1));
    }
}

/// The books balance: however a pool runs, the jobs that were handed in are those that were
/// answered and those that are still to be answered, whether workers died or not.
pub proof fn law_every_job_is_accounted_for<I: Clone, O, R>(
    s: System<I, O, R>,
    steps: Seq<Step<I, O, R>>,
)
    requires
        s.in_order(),
        s.can_run(steps),
    ensures
        s.router.pending.len() + System::<I, O, R>::jobs_submitted(steps) == s.answers_given(steps)
            + s.run(steps).router.pending.len(),
    decreases steps.len(),
{
    if steps.len() > 0 {
        law_workers_behave(s, steps[0]);
        law_pool_stays_in_order(s, steps[0]);
        law_every_job_is_accounted_for(s.next(steps[0]), steps.skip(1));
        if let Step::Deliver(worker) = steps[0] {
            assert(s.agrees(worker));
        }
    }
}

// ---- Calls of a worker as steps of a pool ----

/// What a worker of a pool does when it takes in an event is a step of the pool: the worker then
/// stands where the call left it, or, when it was to send a message, waits if the message was sent
/// and has ended if it was not; and what it sent is under way to the router, behind what was.
pub proof fn law_worker_acts_in_the_pool<I: Clone, O, R>(
    s: System<I, O, R>,
    w: usize,
    worker: &mut Worker,
    event: WorkerEvent<I, O>,
    action: WorkerAction<I, O>,
    sent: bool,
)
    requires
        call_ensures(Worker::on_event::<I, O>, (worker, event), action),
        s.links.contains_key(w),
        s.links[w].worker == *old(worker),
        match event {
            WorkerEvent::Initialized(_) => *old(worker) is Starting,
            WorkerEvent::Sent(_) => *old(worker) is Sending,
            WorkerEvent::Received(_) => *old(worker) is Waiting,
            WorkerEvent::Finished(_) => *old(worker) is Working,
        },
        event matches WorkerEvent::Received(Some(message)) ==> s.links[w].to.len() > 0
            && s.links[w].to[0] == message,
    ensures
        ({
            let step = Step::<I, O, R>::Act { worker: w, event, action, sent };
            let (link, next) = (s.links[w], s.next(step).links[w]);
            &&& s.can(step)
            &&& s.next(step).router == s.router
            &&& match action {
                WorkerAction::Send(message) => {
                    &&& sent ==> next.worker is Waiting && next.from == link.from.push(message)
                    &&& !sent ==> next.worker is Stopped && next.from == link.from
                },
                _ => next.worker == *final(worker) && next.from == link.from,
            }
        }),
{
}

} // verus!
