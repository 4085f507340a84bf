//! What holds of a router over time.
use crate::message::{Event, Msg};
use crate::router::RouterView;
use vstd::prelude::*;

verus! {

// ---- The bookkeeping of a router ----

impl<I, R> RouterView<I, R> {
    /// Whether the job with this number waits in the queue.
    pub open spec fn waiting(self, id: u64) -> bool {
        exists|i: int| 0 <= i < self.queue.len() && (#[trigger] self.queue[i]).0 == id
    }

    /// Whether some worker was handed the job with this number.
    pub open spec fn running(self, id: u64) -> bool {
        exists|worker: usize| #[trigger]
            self.in_flight.contains_key(worker) && self.in_flight[worker].0 == id
    }

    /// Whether the bookkeeping is in order: a worker is idle at most once and not while it
    /// has a job, every job that is to be answered is in exactly one place, and every job
    /// that is in some place is to be answered.
    pub open spec fn consistent(self) -> bool {
        &&& self.idle.no_duplicates()
        &&& forall|k: int|
            0 <= k < self.idle.len() ==> #[trigger] self.idle[k] < self.workers
                && !self.in_flight.contains_key(self.idle[k])
        &&& forall|i: int, j: int|
            0 <= i < j < self.queue.len() ==> (#[trigger] self.queue[i]).0 != (
            #[trigger] self.queue[j]).0
        &&& forall|v: usize, w: usize| #[trigger]
            self.in_flight.contains_key(v) && #[trigger] self.in_flight.contains_key(w) && v != w
                ==> self.in_flight[v].0 != self.in_flight[w].0
        &&& forall|i: int, w: usize|
            0 <= i < self.queue.len() && #[trigger] self.in_flight.contains_key(w) ==> (
            #[trigger] self.queue[i]).0 != self.in_flight[w].0
        &&& forall|i: int|
            0 <= i < self.queue.len() ==> self.pending.contains_key((#[trigger] self.queue[i]).0)
        &&& forall|w: usize| #[trigger]
            self.in_flight.contains_key(w) ==> w < self.workers && self.pending.contains_key(
                self.in_flight[w].0,
            )
        &&& forall|id: u64| #[trigger]
            self.pending.contains_key(id) ==> self.waiting(id) || self.running(id)
        &&& self.pending.dom().finite()
    }

    /// Whether an event is one that the workers of the pool bring about: a worker reports
    /// that it is ready when it has no job and has not reported before, it reports the
    /// outcome of the job that it was handed, and no more workers die than there are.
    pub open spec fn expected<O>(self, event: Event<I, O>) -> bool {
        match event {
            Event::Msg(worker, Msg::Ready) => {
                &&& worker < self.workers
                &&& !self.idle.contains(worker)
                &&& !self.in_flight.contains_key(worker)
            },
            Event::Msg(worker, Msg::Done { id, output }) => {
                &&& self.in_flight.contains_key(worker)
                &&& self.in_flight[worker].0 == id
            },
            Event::Msg(worker, Msg::Job { .. }) => true,
            Event::Died(worker) => worker < self.workers && self.dead < self.workers,
        }
    }

    /// Whether the number that the next job gets is not in use.
    pub open spec fn next_id_free(self) -> bool {
        !self.pending.contains_key(self.next_id())
    }
}

/// A router that has heard nothing is in order.
pub proof fn law_start_consistent<I, R>(workers: nat)
    ensures
        RouterView::<I, R>::start(workers).consistent(),
{
}

/// Taking in a job keeps the bookkeeping in order, as long as the job's number is free.
pub proof fn law_submit_consistent<I, R>(v: RouterView<I, R>, input: I, reply: R)
    requires
        v.consistent(),
        v.next_id_free(),
    ensures
        v.submitted(input, reply).consistent(),
{
    let id = v.next_id();
    let s = v.submitted(input, reply);
    assert forall|n: u64| #[trigger] s.pending.contains_key(n) implies s.waiting(n) || s.running(
        n,
    ) by {
        if n == id {
            assert(s.queue[v.queue.len() as int].0 == id);
        } else {
            assert(v.pending.contains_key(n));
            if v.waiting(n) {
                let i = choose|i: int| 0 <= i < v.queue.len() && (#[trigger] v.queue[i]).0 == n;
                assert(s.queue[i].0 == n);
            } else {
                let w = choose|w: usize| #[trigger]
                    v.in_flight.contains_key(w) && v.in_flight[w].0 == n;
                assert(s.in_flight.contains_key(w));
            }
        }
    }
}

/// Handing a job to a worker keeps the bookkeeping in order.
pub proof fn law_assignment_consistent<I, R>(v: RouterView<I, R>)
    requires
        v.consistent(),
        v.can_assign(),
    ensures
        v.assigned_one().consistent(),
{
    let s = v.assigned_one();
    let worker = v.idle.last();
    assert(worker == v.idle[v.idle.len() - 1]);
    assert forall|n: u64| #[trigger] s.pending.contains_key(n) implies s.waiting(n) || s.running(
        n,
    ) by {
        if v.waiting(n) {
            let i = choose|i: int| 0 <= i < v.queue.len() && (#[trigger] v.queue[i]).0 == n;
            if i == 0 {
                assert(s.in_flight.contains_key(worker));
            } else {
                assert(s.queue[i - 1].0 == n);
            }
        } else {
            let w = choose|w: usize| #[trigger]
                v.in_flight.contains_key(w) && v.in_flight[w].0 == n;
            assert(s.in_flight.contains_key(w));
        }
    }
}

/// An event that the workers bring about keeps the bookkeeping in order.
pub proof fn law_event_consistent<I, O, R>(v: RouterView<I, R>, event: Event<I, O>)
    requires
        v.consistent(),
        v.expected(event),
    ensures
        v.after_event(event).consistent(),
{
    let s = v.after_event(event);
    let shift: int = if s.queue.len() > v.queue.len() {
        1
    } else {
        0
    };
    assert forall|n: u64| #[trigger] s.pending.contains_key(n) implies s.waiting(n) || s.running(
        n,
    ) by {
        assert(v.pending.contains_key(n));
        if v.waiting(n) {
            let i = choose|i: int| 0 <= i < v.queue.len() && (#[trigger] v.queue[i]).0 == n;
            assert(s.queue[i + shift].0 == n);
        } else {
            let w = choose|w: usize| #[trigger]
                v.in_flight.contains_key(w) && v.in_flight[w].0 == n;
            if !s.in_flight.contains_key(w) {
                assert(s.queue[0].0 == n);
            }
        }
    }
}

// ---- Answers ----

/// No job is lost and none is duplicated: a job that is to be answered either waits or was
/// handed to a worker, not both, and has one place in the queue or one worker.
pub proof fn law_job_has_one_place<I, R>(v: RouterView<I, R>, id: u64)
    requires
        v.consistent(),
        v.pending.contains_key(id),
    ensures
        v.waiting(id) != v.running(id),
        forall|i: int, j: int|
            0 <= i < v.queue.len() && 0 <= j < v.queue.len() && (#[trigger] v.queue[i]).0 == id && (
            #[trigger] v.queue[j]).0 == id ==> i == j,
        forall|u: usize, w: usize| #[trigger]
            v.in_flight.contains_key(u) && v.in_flight[u].0 == id
                && #[trigger] v.in_flight.contains_key(w) && v.in_flight[w].0 == id ==> u == w,
{
    if v.waiting(id) && v.running(id) {
        let i = choose|i: int| 0 <= i < v.queue.len() && (#[trigger] v.queue[i]).0 == id;
        let w = choose|w: usize| #[trigger]
            v.in_flight.contains_key(w) && v.in_flight[w].0 == id;
        assert(v.queue[i].0 != v.in_flight[w].0);
    }
}

/// The outcome of a job is given to whoever handed the job in, once: the answer goes where
/// the job's answer is to go, and afterwards nothing is left of the job, while every other
/// job is still to be answered.
pub proof fn law_outcome_answers_its_job<I, O, R>(
    v: RouterView<I, R>,
    worker: usize,
    id: u64,
    output: Result<O, String>,
)
    requires
        v.consistent(),
        v.expected(Event::<I, O>::Msg(worker, Msg::Done { id, output })),
    ensures
        v.pending.contains_key(id),
        v.answer_of(Event::<I, O>::Msg(worker, Msg::Done { id, output })) == Some(
            (v.pending[id], crate::router::job_result(output)),
        ),
        ({
            let s = v.after_event(Event::<I, O>::Msg(worker, Msg::Done { id, output }));
            &&& !s.pending.contains_key(id)
            &&& !s.waiting(id)
            &&& !s.running(id)
            &&& forall|other: u64| #[trigger]
                s.pending.contains_key(other) <==> v.pending.contains_key(other) && other != id
            &&& forall|other: u64| #[trigger]
                s.pending.contains_key(other) ==> s.pending[other] == v.pending[other]
        }),
{
}

/// A second outcome for a job that was already answered brings no answer.
pub proof fn law_no_second_answer<I, O, R>(
    v: RouterView<I, R>,
    event: Event<I, O>,
    worker: usize,
    id: u64,
    output: Result<O, String>,
)
    requires
        event matches Event::Msg(_, Msg::Done { id: first, output: _ }) && first == id,
    ensures
        v.after_event(event).answer_of(Event::<I, O>::Msg(worker, Msg::Done { id, output })) is None,
{
}

/// A worker's death undoes the handing over of its job: the queue, the other workers' jobs
/// and the answers that are due are as before, and only the worker is gone.
pub proof fn law_death_undoes_assignment<I, O, R>(v: RouterView<I, R>)
    requires
        v.can_assign(),
        !v.in_flight.contains_key(v.idle.last()),
    ensures
        v.assigned_one().after_event(Event::<I, O>::Died(v.idle.last())) == (RouterView {
            idle: v.idle.drop_last(),
            dead: v.dead + 1,
            ..v
        }),
{
    let s = v.assigned_one().after_event(Event::<I, O>::Died(v.idle.last()));
    assert(s.queue =~= v.queue);
    assert(s.in_flight =~= v.in_flight);
}

/// The job of a worker that died is the next one to be handed out.
pub proof fn law_retried_job_goes_first<I, O, R>(v: RouterView<I, R>, worker: usize)
    requires
        v.in_flight.contains_key(worker),
        v.idle.len() > 0,
    ensures
        v.after_event(Event::<I, O>::Died(worker)).can_assign(),
        v.after_event(Event::<I, O>::Died(worker)).assigned_one().in_flight[v.idle.last()]
            == v.in_flight[worker],
        v.after_event(Event::<I, O>::Died(worker)).assigned_one().queue == v.queue,
{
    let s = v.after_event(Event::<I, O>::Died(worker));
    assert(s.assigned_one().queue =~= v.queue);
}

/// Jobs go out in the order in which they came in: a new job stays the last in the queue
/// until every job that was there before it has gone out, and is then the next to go.
pub proof fn law_first_come_first_served<I, R>(
    v: RouterView<I, R>,
    input: I,
    reply: R,
    count: nat,
)
    requires
        count <= v.queue.len(),
        count <= v.idle.len(),
    ensures
        v.submitted(input, reply).assigned(count).queue == v.queue.skip(count as int).push(
            (v.next_id(), input),
        ),
        count == v.queue.len() ==> v.submitted(input, reply).assigned(count).queue[0] == (
            v.next_id(),
            input,
        ),
{
    let s = v.submitted(input, reply);
    crate::router::lemma_assigned(s, count);
    assert(s.queue.skip(count as int) =~= v.queue.skip(count as int).push(
        (v.next_id(), input),
    ));
}

/// Handing out jobs answers none of them and forgets none of them.
pub proof fn law_assignment_keeps_answers<I, R>(v: RouterView<I, R>, count: nat)
    requires
        count <= v.queue.len(),
        count <= v.idle.len(),
    ensures
        v.assigned(count).pending == v.pending,
        v.assigned(count).lost() == v.lost(),
{
    crate::router::lemma_assigned(v, count);
}

/// Unless a message was refused, no job is left waiting while a worker is idle.
pub proof fn law_no_job_waits_beside_an_idle_worker<
    I: Clone,
    O,
    R,
    S,
    F: Fn(S, usize, Msg<I, O>) -> (S, bool),
>(v: RouterView<I, R>, try_send: F, count: nat, before: S, after: S)
    requires
        v.handed_out::<S, O, F>(try_send, count, before, after),
        forall|s: S, t: S| !#[trigger] v.offered::<S, O, F>(try_send, count as int, s, t, false),
    ensures
        !v.assigned(count).can_assign(),
{
    crate::router::lemma_assigned(v, count);
}

/// Handing out any number of jobs keeps the bookkeeping in order.
pub proof fn law_assignments_consistent<I, R>(v: RouterView<I, R>, count: nat)
    requires
        v.consistent(),
        count <= v.queue.len(),
        count <= v.idle.len(),
    ensures
        v.assigned(count).consistent(),
    decreases count,
{
    if count > 0 {
        law_assignments_consistent(v, (count - 1) as nat);
        crate::router::lemma_assigned(v, (count - 1) as nat);
        law_assignment_consistent(v.assigned((count - 1) as nat));
    }
}

/// A pool without a living worker turns down every job that comes, whatever becomes of the
/// messages to its workers: the job is among those that the router gives up.
pub proof fn law_dead_pool_turns_jobs_down<I, R>(
    v: RouterView<I, R>,
    input: I,
    reply: R,
    count: nat,
)
    requires
        v.dead == v.workers,
        count <= v.submitted(input, reply).queue.len(),
        count <= v.idle.len(),
    ensures
        v.submitted(input, reply).lost(),
        v.submitted(input, reply).assigned(count).lost(),
        v.submitted(input, reply).assigned(count).pending.contains_pair(v.next_id(), reply),
        v.submitted(input, reply).assigned(count).given_up().pending.is_empty(),
{
    let s = v.submitted(input, reply);
    crate::router::lemma_assigned(s, count);
    assert(s.pending.dom().contains(v.next_id()));
}

// ---- The numbers of jobs ----

impl<I, R> RouterView<I, R> {
    /// Whether every job that is to be answered has a number that was given out, counting from
    /// one up.
    pub open spec fn numbered(self) -> bool {
        forall|id: u64| #[trigger] self.pending.contains_key(id) ==> 1 <= id <= self.last_id
    }
}

/// A new router has given out no number.
pub proof fn law_start_numbered<I, R>(workers: nat)
    ensures
        RouterView::<I, R>::start(workers).numbered(),
{
}

/// Until all numbers have been given out once, a new job gets a number that no other job has,
/// and jobs go on being numbered from one up.
pub proof fn law_new_job_gets_a_free_number<I, R>(v: RouterView<I, R>, input: I, reply: R)
    requires
        v.numbered(),
        v.last_id < u64::MAX,
    ensures
        v.next_id_free(),
        v.submitted(input, reply).last_id == v.last_id + 1,
        v.submitted(input, reply).numbered(),
{
}

/// Handing out jobs and hearing from workers gives out no number.
pub proof fn law_numbers_stay<I, O, R>(v: RouterView<I, R>, count: nat, event: Event<I, O>)
    requires
        v.numbered(),
        count <= v.queue.len(),
        count <= v.idle.len(),
    ensures
        v.assigned(count).numbered(),
        v.assigned(count).last_id == v.last_id,
        v.after_event(event).numbered(),
        v.after_event(event).last_id == v.last_id,
{
    crate::router::lemma_assigned(v, count);
}

} // verus!
