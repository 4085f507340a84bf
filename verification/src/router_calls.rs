//! What each call of a router does, said of the call itself: of what goes in, what comes out, and
//! what the router holds before and after.
use crate::error::PoolError;
use crate::message::{Event, Msg};
use crate::router::{Action, LostJobs, Router, RouterView, Wake};
use crate::system::{Step, System};
use vstd::prelude::*;

verus! {

// ---- Jobs come in ----

/// A new router has no job, no answer to give and no worker to count on. There is one for any
/// number of workers but none.
pub proof fn law_new_router_is_empty<I, R>(workers: usize, router: Router<I, R>)
    ensures
        workers > 0 ==> call_requires(Router::<I, R>::new, (workers,)),
        call_ensures(Router::<I, R>::new, (workers,), router) ==> {
            &&& router@.workers == workers
            &&& router@.queue.len() == 0
            &&& forall|id: u64| !#[trigger] router@.pending.contains_key(id)
            &&& forall|w: usize| !#[trigger] router@.in_flight.contains_key(w)
            &&& router@.idle.len() == 0
            &&& router@.dead == 0
            &&& router@.last_id == 0
        },
{
}

/// Every job is taken in. It waits behind all others, under the number after the last one, and
/// its answer is due under that number; nothing else changes.
pub proof fn law_submitted_job_waits_last<I, R>(router: &mut Router<I, R>, input: I, reply: R)
    ensures
        call_requires(Router::<I, R>::submit, (router, input, reply)),
        call_ensures(Router::<I, R>::submit, (router, input, reply), ()) ==> {
            let (a, b) = (old(router)@, final(router)@);
            let id = b.last_id;
            &&& id == (a.last_id + 1) % 0x1_0000_0000_0000_0000
            &&& b.pending.contains_key(id) && b.pending[id] == reply
            &&& forall|n: u64|
                n != id ==> #[trigger] b.pending.contains_key(n) == a.pending.contains_key(n)
            &&& forall|n: u64|
                n != id && #[trigger] b.pending.contains_key(n) ==> b.pending[n] == a.pending[n]
            &&& b.queue.len() == a.queue.len() + 1
            &&& b.queue[a.queue.len() as int] == (id, input)
            &&& forall|i: int| 0 <= i < a.queue.len() ==> #[trigger] b.queue[i] == a.queue[i]
            &&& b.in_flight == a.in_flight
            &&& b.idle == a.idle
            &&& b.dead == a.dead
            &&& b.workers == a.workers
        },
{
}

/// Whenever a router is woken by a job, and whoever is idle then, the job waits behind all
/// others, under the number after the last one, and its answer is due under that number; nothing
/// is to be done about it at once, and nothing else changes.
pub proof fn law_wake_takes_in_a_job<I, O, R>(
    router: &mut Router<I, R>,
    input: I,
    reply: R,
    action: Action<O, R>,
)
    ensures
        call_requires(Router::<I, R>::on_wake::<O>, (router, Wake::Job(input, reply))),
        call_ensures(Router::<I, R>::on_wake::<O>, (router, Wake::Job(input, reply)), action) ==> {
            let (a, b) = (old(router)@, final(router)@);
            let id = b.last_id;
            &&& action is Wait
            &&& id == (a.last_id + 1) % 0x1_0000_0000_0000_0000
            &&& b.pending.contains_key(id) && b.pending[id] == reply
            &&& forall|n: u64|
                n != id ==> #[trigger] b.pending.contains_key(n) == a.pending.contains_key(n)
            &&& forall|n: u64|
                n != id && #[trigger] b.pending.contains_key(n) ==> b.pending[n] == a.pending[n]
            &&& b.queue.len() == a.queue.len() + 1
            &&& b.queue[a.queue.len() as int] == (id, input)
            &&& forall|i: int| 0 <= i < a.queue.len() ==> #[trigger] b.queue[i] == a.queue[i]
            &&& b.in_flight == a.in_flight
            &&& b.idle == a.idle
            &&& b.dead == a.dead
            &&& b.workers == a.workers
        },
{
}

// ---- Workers are heard ----

/// A worker that reports that it is ready is the next to get a job; nothing else changes.
pub proof fn law_ready_worker_is_next<I, O, R>(
    router: &mut Router<I, R>,
    worker: usize,
    answer: Option<(R, Result<O, PoolError>)>,
)
    ensures
        call_requires(
            Router::<I, R>::on_event::<O>,
            (router, Event::Msg(worker, Msg::Ready)),
        ),
        call_ensures(
            Router::<I, R>::on_event::<O>,
            (router, Event::Msg(worker, Msg::Ready)),
            answer,
        ) ==> {
            let (a, b) = (old(router)@, final(router)@);
            &&& answer is None
            &&& b.idle.len() == a.idle.len() + 1
            &&& b.idle[a.idle.len() as int] == worker
            &&& forall|k: int| 0 <= k < a.idle.len() ==> #[trigger] b.idle[k] == a.idle[k]
            &&& b.queue == a.queue
            &&& b.pending == a.pending
            &&& b.in_flight == a.in_flight
            &&& b.dead == a.dead
            &&& b.workers == a.workers
            &&& b.last_id == a.last_id
        },
{
}

/// An outcome is the answer to the job with its number, if that job has none yet: a result as the
/// result, an error in its own words. The job is then done with, the worker has no job and is the
/// next to get one, and nothing else changes.
pub proof fn law_outcome_is_passed_on<I, O, R>(
    router: &mut Router<I, R>,
    worker: usize,
    id: u64,
    output: Result<O, String>,
    answer: Option<(R, Result<O, PoolError>)>,
)
    ensures
        call_requires(
            Router::<I, R>::on_event::<O>,
            (router, Event::Msg(worker, Msg::Done { id, output })),
        ),
        call_ensures(
            Router::<I, R>::on_event::<O>,
            (router, Event::Msg(worker, Msg::Done { id, output })),
            answer,
        ) ==> {
            let (a, b) = (old(router)@, final(router)@);
            &&& answer is Some <==> a.pending.contains_key(id)
            &&& answer matches Some((reply, result)) ==> {
                &&& reply == a.pending[id]
                &&& output matches Ok(o) ==> result == Ok::<O, PoolError>(o)
                &&& output matches Err(e) ==> result == Err::<O, PoolError>(PoolError::Job(e))
            }
            &&& forall|n: u64| #[trigger]
                b.pending.contains_key(n) <==> a.pending.contains_key(n) && n != id
            &&& forall|n: u64| #[trigger]
                b.pending.contains_key(n) ==> b.pending[n] == a.pending[n]
            &&& forall|w: usize| #[trigger]
                b.in_flight.contains_key(w) <==> a.in_flight.contains_key(w) && w != worker
            &&& forall|w: usize| #[trigger]
                b.in_flight.contains_key(w) ==> b.in_flight[w] == a.in_flight[w]
            &&& b.idle.len() == a.idle.len() + 1
            &&& b.idle[a.idle.len() as int] == worker
            &&& forall|k: int| 0 <= k < a.idle.len() ==> #[trigger] b.idle[k] == a.idle[k]
            &&& b.queue == a.queue
            &&& b.dead == a.dead
            &&& b.workers == a.workers
            &&& b.last_id == a.last_id
        },
{
}

/// A worker that dies is counted, and the job that it had, if any, is the next to go out, whether
/// others wait or not; nothing else changes and nobody is answered.
pub proof fn law_job_of_the_dead_goes_next<I, O, R>(
    router: &mut Router<I, R>,
    worker: usize,
    answer: Option<(R, Result<O, PoolError>)>,
)
    ensures
        old(router)@.dead < usize::MAX ==> call_requires(
            Router::<I, R>::on_event::<O>,
            (router, Event::Died(worker)),
        ),
        call_ensures(Router::<I, R>::on_event::<O>, (router, Event::Died(worker)), answer) ==> {
            let (a, b) = (old(router)@, final(router)@);
            let back: int = if a.in_flight.contains_key(worker) {
                1
            } else {
                0
            };
            &&& answer is None
            &&& b.dead == a.dead + 1
            &&& b.queue.len() == a.queue.len() + back
            &&& a.in_flight.contains_key(worker) ==> b.queue[0] == a.in_flight[worker]
            &&& forall|i: int|
                0 <= i < a.queue.len() ==> b.queue[i + back] == #[trigger] a.queue[i]
            &&& forall|w: usize| #[trigger]
                b.in_flight.contains_key(w) <==> a.in_flight.contains_key(w) && w != worker
            &&& forall|w: usize| #[trigger]
                b.in_flight.contains_key(w) ==> b.in_flight[w] == a.in_flight[w]
            &&& b.pending == a.pending
            &&& b.idle == a.idle
            &&& b.workers == a.workers
            &&& b.last_id == a.last_id
        },
{
}

/// A job that comes from a worker means nothing.
pub proof fn law_stray_job_is_ignored<I, O, R>(
    router: &mut Router<I, R>,
    worker: usize,
    id: u64,
    input: I,
    answer: Option<(R, Result<O, PoolError>)>,
)
    ensures
        call_requires(
            Router::<I, R>::on_event::<O>,
            (router, Event::Msg(worker, Msg::Job { id, input })),
        ),
        call_ensures(
            Router::<I, R>::on_event::<O>,
            (router, Event::Msg(worker, Msg::Job { id, input })),
            answer,
        ) ==> answer is None && final(router)@ == old(router)@,
{
}

/// To be woken by a worker is to hear what the worker did: the router is left as by the event
/// alone, and the answer that the event brings, if any, is what is to be done.
pub proof fn law_wake_hears_the_worker<I, O, R>(
    woken: &mut Router<I, R>,
    told: &mut Router<I, R>,
    event: Event<I, O>,
    action: Action<O, R>,
    answer: Option<(R, Result<O, PoolError>)>,
)
    requires
        old(woken)@ == old(told)@,
        call_ensures(Router::<I, R>::on_wake::<O>, (woken, Wake::Worker(event)), action),
        call_ensures(Router::<I, R>::on_event::<O>, (told, event), answer),
    ensures
        final(woken)@ == final(told)@,
        match answer {
            Some((reply, result)) => action == Action::Answer(reply, result),
            None => action is Wait,
        },
{
}

/// The death of a worker that has a job, when the router is woken by it, leaves that job first in
/// the queue, also when no other job waits; the other jobs keep their places behind it, and every
/// answer that was due is still due.
pub proof fn law_wake_puts_the_job_of_the_dead_first<I, O, R>(
    router: &mut Router<I, R>,
    worker: usize,
    action: Action<O, R>,
)
    ensures
        old(router)@.dead < usize::MAX ==> call_requires(
            Router::<I, R>::on_wake::<O>,
            (router, Wake::Worker(Event::Died(worker))),
        ),
        call_ensures(
            Router::<I, R>::on_wake::<O>,
            (router, Wake::Worker(Event::Died(worker))),
            action,
        ) ==> {
            let (a, b) = (old(router)@, final(router)@);
            let back: int = if a.in_flight.contains_key(worker) {
                1
            } else {
                0
            };
            &&& action is Wait
            &&& b.dead == a.dead + 1
            &&& b.queue.len() == a.queue.len() + back
            &&& a.in_flight.contains_key(worker) ==> b.queue[0] == a.in_flight[worker]
            &&& forall|i: int|
                0 <= i < a.queue.len() ==> b.queue[i + back] == #[trigger] a.queue[i]
            &&& forall|w: usize| #[trigger]
                b.in_flight.contains_key(w) <==> a.in_flight.contains_key(w) && w != worker
            &&& forall|w: usize| #[trigger]
                b.in_flight.contains_key(w) ==> b.in_flight[w] == a.in_flight[w]
            &&& b.pending == a.pending
            &&& b.idle == a.idle
            &&& b.workers == a.workers
            &&& b.last_id == a.last_id
        },
{
}

/// A router can be woken by any message of a worker.
pub proof fn law_wake_hears_every_message<I, O, R>(
    router: &mut Router<I, R>,
    worker: usize,
    message: Msg<I, O>,
)
    ensures
        call_requires(
            Router::<I, R>::on_wake::<O>,
            (router, Wake::Worker(Event::Msg(worker, message))),
        ),
{
}

/// The end of a child process asks for nothing but to collect it.
pub proof fn law_child_exit_only_asks_to_reap<I, O, R>(
    router: &mut Router<I, R>,
    action: Action<O, R>,
)
    ensures
        call_requires(Router::<I, R>::on_wake::<O>, (router, Wake::ChildExited)),
        call_ensures(Router::<I, R>::on_wake::<O>, (router, Wake::ChildExited), action) ==> action
            is Reap && final(router)@ == old(router)@,
{
}

/// Whatever wakes a router whose bookkeeping is in order, it stays in order: every job that is to
/// be answered is in the queue or with a worker. A job must get a number that is not in use, and
/// what the workers do must be what workers do.
pub proof fn law_wake_keeps_order<I, O, R>(
    router: &mut Router<I, R>,
    wake: Wake<I, O, R>,
    action: Action<O, R>,
)
    requires
        call_ensures(Router::<I, R>::on_wake::<O>, (router, wake), action),
        old(router)@.consistent(),
        wake is Job ==> !old(router)@.pending.contains_key(
            ((old(router)@.last_id + 1) % 0x1_0000_0000_0000_0000) as u64,
        ),
        wake matches Wake::Worker(event) ==> old(router)@.expected(event),
    ensures
        final(router)@.consistent(),
{
    match wake {
        Wake::Job(input, reply) => {
            crate::router_laws::law_submit_consistent(old(router)@, input, reply);
        },
        Wake::Worker(event) => {
            crate::router_laws::law_event_consistent(old(router)@, event);
        },
        Wake::ChildExited => {},
    }
}

// ---- Jobs go out ----

/// Who has which job once a number of jobs have gone out.
proof fn lemma_assigned_in_flight<I, R>(v: RouterView<I, R>, count: nat)
    requires
        count <= v.queue.len(),
        count <= v.idle.len(),
        v.idle.no_duplicates(),
    ensures
        forall|i: int|
            0 <= i < count ==> v.assigned(count).in_flight.contains_pair(
                v.idle[v.idle.len() - 1 - i],
                #[trigger] v.queue[i],
            ),
        forall|w: usize|
            !v.idle.skip(v.idle.len() - count).contains(w) ==> {
                &&& #[trigger] v.assigned(count).in_flight.contains_key(w)
                    == v.in_flight.contains_key(w)
                &&& v.in_flight.contains_key(w) ==> v.assigned(count).in_flight[w]
                    == v.in_flight[w]
            },
    decreases count,
{
    if count > 0 {
        let fewer = (count - 1) as nat;
        lemma_assigned_in_flight(v, fewer);
        crate::router::lemma_assigned(v, fewer);
        let u = v.assigned(fewer);
        let last = v.idle[v.idle.len() - count];
        assert(u.idle.last() == last);
        assert(u.queue[0] == v.queue[count - 1]);
        assert forall|i: int| 0 <= i < count implies v.assigned(count).in_flight.contains_pair(
            v.idle[v.idle.len() - 1 - i],
            #[trigger] v.queue[i],
        ) by {
            let w = v.idle[v.idle.len() - 1 - i];
            if i < fewer {
                assert(u.in_flight.contains_pair(w, v.queue[i]));
                assert(w != last);
            } else {
                assert(w == last);
            }
        }
        let went = v.idle.skip(v.idle.len() - count);
        let went_before = v.idle.skip(v.idle.len() - fewer);
        assert(went[0] == last);
        assert forall|w: usize| !went.contains(w) implies {
            &&& #[trigger] v.assigned(count).in_flight.contains_key(w) == v.in_flight.contains_key(
                w,
            )
            &&& v.in_flight.contains_key(w) ==> v.assigned(count).in_flight[w] == v.in_flight[w]
        } by {
            assert(!went_before.contains(w)) by {
                if went_before.contains(w) {
                    let k = choose|k: int| 0 <= k < went_before.len() && went_before[k] == w;
                    assert(went[k + 1] == w);
                }
            }
            assert(u.in_flight.contains_key(w) == v.in_flight.contains_key(w));
        }
    }
}

/// The workers that a hand-out takes off the list of the idle ones are not on it any more.
proof fn lemma_latest_are_gone(idle: Seq<usize>, count: nat)
    requires
        count <= idle.len(),
        idle.no_duplicates(),
    ensures
        forall|k: int|
            idle.len() - count <= k < idle.len() ==> !idle.take(idle.len() - count).contains(
                #[trigger] idle[k],
            ),
{
    let rest = idle.take(idle.len() - count);
    assert forall|k: int| idle.len() - count <= k < idle.len() implies !rest.contains(
        #[trigger] idle[k],
    ) by {
        if rest.contains(idle[k]) {
            let j = choose|j: int| 0 <= j < rest.len() && rest[j] == idle[k];
            assert(idle[j] == idle[k]);
        }
    }
}

/// The `i`-th offer of a hand-out: a worker, and the message that it is offered.
spec fn offer_of<I: Clone, O, R, S, F: Fn(S, usize, Msg<I, O>) -> (S, bool)>(
    v: RouterView<I, R>,
    try_send: F,
    i: int,
    before: S,
    after: S,
    accepted: bool,
) -> (usize, Msg<I, O>) {
    let w = v.idle[v.idle.len() - 1 - i];
    (
        w,
        choose|message: Msg<I, O>|
            v.is_job_message(i, message) && #[trigger] call_ensures(
                try_send,
                (before, w, message),
                (after, accepted),
            ),
    )
}

/// What a hand-out is made of.
proof fn lemma_handed_out<I: Clone, O, R, S, F: Fn(S, usize, Msg<I, O>) -> (S, bool)>(
    v: RouterView<I, R>,
    try_send: F,
    count: nat,
    before: S,
    after: S,
) -> (sent: (Seq<S>, Seq<(usize, Msg<I, O>)>))
    requires
        v.handed_out::<S, O, F>(try_send, count, before, after),
    ensures
        count <= v.queue.len(),
        count <= v.idle.len(),
        sent.0.len() == sent.1.len() + 1,
        sent.0[0] == before,
        sent.0.last() == after,
        sent.1.len() == count + (if count < v.queue.len() && count < v.idle.len() {
            1int
        } else {
            0
        }),
        forall|i: int|
            0 <= i < sent.1.len() ==> {
                let (worker, message) = #[trigger] sent.1[i];
                &&& worker == v.idle[v.idle.len() - 1 - i]
                &&& v.is_job_message(i, message)
                &&& call_ensures(
                    try_send,
                    (sent.0[i], worker, message),
                    (sent.0[i + 1], i < count),
                )
            },
{
    let outboxes = choose|outboxes: Seq<S>| #[trigger]
        v.handing_out::<S, O, F>(try_send, count, outboxes) && outboxes[0] == before
            && outboxes.last() == after;
    let offers = Seq::new(
        (outboxes.len() - 1) as nat,
        |i: int|
            offer_of::<I, O, R, S, F>(v, try_send, i, outboxes[i], outboxes[i + 1], i < count),
    );
    assert forall|i: int| 0 <= i < offers.len() implies {
        let (worker, message) = #[trigger] offers[i];
        &&& worker == v.idle[v.idle.len() - 1 - i]
        &&& v.is_job_message(i, message)
        &&& call_ensures(try_send, (outboxes[i], worker, message), (outboxes[i + 1], i < count))
    } by {
        assert(v.offered::<S, O, F>(try_send, i, outboxes[i], outboxes[i + 1], i < count));
    }
    (outboxes, offers)
}

/// Each job that goes out is sent to the worker that the router then has down for it, which is no
/// longer idle, and to nobody else: the first job to the worker that became idle last, and so on.
/// The jobs stop going out when there are no more, when nobody is idle any more, or when a message
/// is refused; the job of that message keeps its place, and its worker stays idle. Nothing else is
/// sent and nothing else changes.
///
/// What comes back are the states of the outbox, from the first to the last, and the offer that
/// led from each to the next.
pub proof fn law_job_is_sent_to_the_worker_that_has_it<
    I: Clone,
    O,
    R,
    S,
    F: Fn(S, usize, Msg<I, O>) -> (S, bool),
>(router: &mut Router<I, R>, outbox: S, try_send: F, res: (S, usize)) -> (sent: (
    Seq<S>,
    Seq<(usize, Msg<I, O>)>,
))
    requires
        call_ensures(Router::<I, R>::assign::<S, O, F>, (router, outbox, &try_send), res),
        old(router)@.idle.no_duplicates(),
    ensures
        ({
            let (a, b) = (old(router)@, final(router)@);
            let (outboxes, offers) = sent;
            let count = res.1;
            &&& outboxes.len() == offers.len() + 1
            &&& outboxes[0] == outbox
            &&& outboxes.last() == res.0
            &&& count <= offers.len() <= count + 1
            &&& forall|i: int|
                0 <= i < offers.len() ==> call_ensures(
                    try_send,
                    (outboxes[i], (#[trigger] offers[i]).0, offers[i].1),
                    (outboxes[i + 1], i < count),
                )
            &&& forall|i: int|
                0 <= i < count ==> {
                    let (worker, message) = #[trigger] offers[i];
                    &&& worker == a.idle[a.idle.len() - 1 - i]
                    &&& message matches Msg::Job { id, input } && id == b.in_flight[worker].0
                        && cloned(b.in_flight[worker].1, input)
                    &&& b.in_flight.contains_key(worker)
                    &&& b.in_flight[worker] == a.queue[i]
                    &&& !b.idle.contains(worker)
                }
            &&& offers.len() == count ==> b.queue.len() == 0 || b.idle.len() == 0
            &&& offers.len() > count ==> {
                &&& b.queue.len() > 0 && b.idle.len() > 0
                &&& offers[count as int].0 == b.idle.last()
                &&& offers[count as int].1 matches Msg::Job { id, input } && id == b.queue[0].0
                    && cloned(b.queue[0].1, input)
            }
            &&& count <= a.queue.len() && b.queue == a.queue.skip(count as int)
            &&& count <= a.idle.len() && b.idle == a.idle.take(a.idle.len() - count)
            &&& forall|w: usize|
                !a.idle.skip(a.idle.len() - count).contains(w)
                    ==> #[trigger] b.in_flight.contains_key(w) == a.in_flight.contains_key(w)
            &&& forall|w: usize|
                !a.idle.skip(a.idle.len() - count).contains(w)
                    && #[trigger] b.in_flight.contains_key(w) ==> b.in_flight[w] == a.in_flight[w]
            &&& b.pending == a.pending
            &&& b.dead == a.dead
            &&& b.workers == a.workers
            &&& b.last_id == a.last_id
        }),
{
    let v = old(router)@;
    let count = res.1 as nat;
    let sent = lemma_handed_out::<I, O, R, S, F>(v, try_send, count, outbox, res.0);
    lemma_assigned_in_flight(v, count);
    lemma_latest_are_gone(v.idle, count);
    crate::router::lemma_assigned(v, count);
    sent
}

/// Whoever can be sent anything at any time can be used to hand out jobs.
pub proof fn law_jobs_can_go_out_through_any_outbox<
    I: Clone,
    O,
    R,
    S,
    F: Fn(S, usize, Msg<I, O>) -> (S, bool),
>(router: &mut Router<I, R>, outbox: S, try_send: F)
    requires
        forall|state: S, worker: usize, message: Msg<I, O>| #[trigger]
            call_requires(try_send, (state, worker, message)),
    ensures
        call_requires(Router::<I, R>::assign::<S, O, F>, (router, outbox, &try_send)),
        call_requires(Router::<I, R>::begin_round::<S, O, F>, (router, outbox, &try_send)),
{
}

/// The worker that gets a job next is the one that became idle last, and the job is the first in
/// the queue; there is such an assignment whenever there is both.
pub proof fn law_next_assignment_is_first_job_to_latest_worker<I: Clone, O, R>(
    router: Router<I, R>,
    assignment: Option<(usize, Msg<I, O>)>,
)
    ensures
        call_requires(Router::<I, R>::next_assignment::<O>, (&router,)),
        call_ensures(Router::<I, R>::next_assignment::<O>, (&router,), assignment) ==> {
            &&& assignment is None <==> router@.queue.len() == 0 || router@.idle.len() == 0
            &&& assignment matches Some((worker, message)) ==> {
                &&& worker == router@.idle[router@.idle.len() - 1]
                &&& message matches Msg::Job { id, input } && id == router@.queue[0].0 && cloned(
                    router@.queue[0].1,
                    input,
                )
            }
        },
{
}

/// A refused message changes nothing. An accepted one makes the worker that became idle last have
/// the first job of the queue: the job waits no longer and the worker is idle no longer.
pub proof fn law_accepted_job_is_the_workers<I, R>(router: &mut Router<I, R>, accepted: bool)
    ensures
        old(router)@.queue.len() > 0 && old(router)@.idle.len() > 0 ==> call_requires(
            Router::<I, R>::record_assignment,
            (router, accepted),
        ),
        call_ensures(Router::<I, R>::record_assignment, (router, accepted), ()) ==> {
            let (a, b) = (old(router)@, final(router)@);
            &&& !accepted ==> b == a
            &&& accepted && a.queue.len() > 0 && a.idle.len() > 0 ==> {
                let worker = a.idle[a.idle.len() - 1];
                &&& b.in_flight == a.in_flight.insert(worker, a.queue[0])
                &&& b.queue == a.queue.skip(1)
                &&& b.idle == a.idle.take(a.idle.len() - 1)
                &&& b.pending == a.pending
                &&& b.dead == a.dead
                &&& b.workers == a.workers
                &&& b.last_id == a.last_id
            }
        },
{
    let a = old(router)@;
    if a.idle.len() > 0 {
        assert(a.idle.drop_last() =~= a.idle.take(a.idle.len() - 1));
    }
}

// ---- Jobs are given up ----

/// Jobs are given up when all workers have died and an answer is still due, and at no other time.
/// Then every answer that was due is handed over, with an error that tells how many have died, and
/// none is due any more; nothing else changes.
pub proof fn law_given_up_when_all_have_died<I, R>(
    router: &mut Router<I, R>,
    lost: Option<LostJobs<R>>,
)
    ensures
        call_requires(Router::<I, R>::give_up, (router,)),
        call_ensures(Router::<I, R>::give_up, (router,), lost) ==> {
            let (a, b) = (old(router)@, final(router)@);
            &&& lost is Some <==> a.dead == a.workers && exists|id: u64| #[trigger]
                a.pending.contains_key(id)
            &&& lost is None ==> b == a
            &&& lost matches Some(jobs) ==> {
                &&& jobs.replies@ == a.pending
                &&& jobs.error matches PoolError::AllWorkersDied(n) && n == a.dead as usize
                &&& forall|id: u64| !#[trigger] b.pending.contains_key(id)
                &&& b.queue == a.queue
                &&& b.in_flight == a.in_flight
                &&& b.idle == a.idle
                &&& b.dead == a.dead
                &&& b.workers == a.workers
                &&& b.last_id == a.last_id
            }
        },
{
    lemma_something_is_due(old(router)@.pending);
}

/// A map that is not empty has a key.
proof fn lemma_something_is_due<R>(pending: Map<u64, R>)
    ensures
        !pending.is_empty() <==> exists|id: u64| #[trigger] pending.contains_key(id),
{
    if forall|id: u64| !#[trigger] pending.contains_key(id) {
        assert(pending.dom() =~= Set::empty());
    } else {
        let id = choose|id: u64| #[trigger] pending.contains_key(id);
        assert(pending.dom().contains(id));
    }
}

/// A round hands out jobs as a hand-out does: each job that goes out is sent to the worker that
/// the router then has down for it, which is no longer idle, and to nobody else, until there are
/// no more jobs, nobody is idle any more, or a message is refused. It gives up, as when there is
/// nothing to hand out, when all workers have died and an answer is still due; that makes every
/// answer that is due fail, and none is due any more.
///
/// `after` is what the router holds after the round. What comes back are the states of the outbox,
/// from the first to the last, the offer that led from each to the next, and how many offers were
/// accepted.
pub proof fn law_round_sends_each_job_to_the_worker_that_has_it<
    I: Clone,
    O,
    R,
    S,
    F: Fn(S, usize, Msg<I, O>) -> (S, bool),
>(
    router: &mut Router<I, R>,
    after: RouterView<I, R>,
    outbox: S,
    try_send: F,
    res: (S, Option<LostJobs<R>>),
) -> (sent: (Seq<S>, Seq<(usize, Msg<I, O>)>, nat))
    requires
        after == final(router)@,
        call_ensures(Router::<I, R>::begin_round::<S, O, F>, (router, outbox, &try_send), res),
        old(router)@.idle.no_duplicates(),
    ensures
        ({
            let (a, b) = (old(router)@, final(router)@);
            let (outboxes, offers, count) = sent;
            &&& outboxes.len() == offers.len() + 1
            &&& outboxes[0] == outbox
            &&& outboxes.last() == res.0
            &&& count <= offers.len() <= count + 1
            &&& forall|i: int|
                0 <= i < offers.len() ==> call_ensures(
                    try_send,
                    (outboxes[i], (#[trigger] offers[i]).0, offers[i].1),
                    (outboxes[i + 1], i < count),
                )
            &&& forall|i: int|
                0 <= i < count ==> {
                    let (worker, message) = #[trigger] offers[i];
                    &&& worker == a.idle[a.idle.len() - 1 - i]
                    &&& message matches Msg::Job { id, input } && id == b.in_flight[worker].0
                        && cloned(b.in_flight[worker].1, input)
                    &&& b.in_flight.contains_key(worker)
                    &&& b.in_flight[worker] == a.queue[i]
                    &&& !b.idle.contains(worker)
                }
            &&& offers.len() == count ==> b.queue.len() == 0 || b.idle.len() == 0
            &&& offers.len() > count ==> {
                &&& b.queue.len() > 0 && b.idle.len() > 0
                &&& offers[count as int].0 == b.idle.last()
                &&& offers[count as int].1 matches Msg::Job { id, input } && id == b.queue[0].0
                    && cloned(b.queue[0].1, input)
            }
            &&& count <= a.queue.len() && b.queue == a.queue.skip(count as int)
            &&& count <= a.idle.len() && b.idle == a.idle.take(a.idle.len() - count)
            &&& forall|w: usize|
                !a.idle.skip(a.idle.len() - count).contains(w)
                    ==> #[trigger] b.in_flight.contains_key(w) == a.in_flight.contains_key(w)
            &&& forall|w: usize|
                !a.idle.skip(a.idle.len() - count).contains(w)
                    && #[trigger] b.in_flight.contains_key(w) ==> b.in_flight[w] == a.in_flight[w]
            &&& b.dead == a.dead
            &&& b.workers == a.workers
            &&& b.last_id == a.last_id
            &&& res.1 is Some <==> a.dead == a.workers && exists|id: u64| #[trigger]
                a.pending.contains_key(id)
            &&& res.1 is None ==> b.pending == a.pending
            &&& res.1 matches Some(jobs) ==> {
                &&& jobs.replies@ == a.pending
                &&& jobs.error matches PoolError::AllWorkersDied(n) && n == a.dead as usize
                &&& forall|id: u64| !#[trigger] b.pending.contains_key(id)
            }
        }),
{
    let v = old(router)@;
    let count = choose|count: nat| #[trigger]
        v.handed_out::<S, O, F>(try_send, count, outbox, res.0) && match res.1 {
            Some(jobs) => after == v.assigned(count).given_up(),
            None => after == v.assigned(count),
        };
    let (outboxes, offers) = lemma_handed_out::<I, O, R, S, F>(
        v,
        try_send,
        count,
        outbox,
        res.0,
    );
    lemma_assigned_in_flight(v, count);
    lemma_latest_are_gone(v.idle, count);
    lemma_something_is_due(v.pending);
    crate::router::lemma_assigned(v, count);
    (outboxes, offers, count)
}

// ---- What comes over a connection ----

/// A message that came over the connection to a worker is heard as that worker's, and anything
/// else, the end of the connection or what makes no sense, as that worker's death.
pub proof fn law_connection_is_heard_as_its_worker<I, O, E>(
    worker: usize,
    received: Option<Result<Msg<I, O>, E>>,
    event: Event<I, O>,
)
    ensures
        call_requires(crate::router::connection_event::<I, O, E>, (worker, received)),
        call_ensures(crate::router::connection_event::<I, O, E>, (worker, received), event) ==> {
            &&& received matches Some(Ok(message)) ==> event == Event::Msg(worker, message)
            &&& received matches Some(Err(_)) ==> event == Event::<I, O>::Died(worker)
            &&& received is None ==> event == Event::<I, O>::Died(worker)
        },
{
}

/// The deaths that a router reports are those that it has counted.
pub proof fn law_deaths_are_reported<I, R>(router: Router<I, R>, n: usize)
    ensures
        call_requires(Router::<I, R>::dead_workers, (&router,)),
        call_ensures(Router::<I, R>::dead_workers, (&router,), n) ==> n == router@.dead,
{
}

// ---- Calls as steps of a pool ----

/// Whatever wakes the router of a pool, the call makes of the router what the step makes of it
/// that has happened in the pool, so that what holds of whole runs holds of the calls: a job that
/// is handed in, a message that arrives, a worker's death. An answer is to be given exactly when
/// the step brings one.
pub proof fn law_wake_is_a_step<I: Clone, O, R>(
    s: System<I, O, R>,
    step: Step<I, O, R>,
    router: &mut Router<I, R>,
    wake: Wake<I, O, R>,
    action: Action<O, R>,
)
    requires
        call_ensures(Router::<I, R>::on_wake::<O>, (router, wake), action),
        s.router == old(router)@,
        s.can(step),
        match step {
            Step::Submit(input, reply) => wake == Wake::<I, O, R>::Job(input, reply),
            Step::Deliver(worker) => wake == Wake::<I, O, R>::Worker(
                Event::Msg(worker, s.links[worker].from[0]),
            ),
            Step::Die(worker) => wake == Wake::<I, O, R>::Worker(Event::Died(worker)),
            _ => false,
        },
    ensures
        final(router)@ == s.next(step).router,
        action is Answer <==> s.answers(step),
        action !is Answer ==> action is Wait,
{
}

/// Handing out jobs one by one, in these messages, is handing out that many jobs; each message
/// reaches the worker that gets the job, if the router has not seen it die, and no other.
proof fn lemma_run_of_assignments<I: Clone, O, R>(s: System<I, O, R>, messages: Seq<Msg<I, O>>)
    requires
        messages.len() <= s.router.queue.len(),
        messages.len() <= s.router.idle.len(),
        s.router.idle.no_duplicates(),
        forall|i: int|
            0 <= i < messages.len() ==> s.router.is_job_message(i, #[trigger] messages[i]),
    ensures
        ({
            let steps = messages.map_values(|message: Msg<I, O>| Step::<I, O, R>::Assign(message));
            let t = s.run(steps);
            &&& s.can_run(steps)
            &&& t.router == s.router.assigned(messages.len())
            &&& t.links.dom() == s.links.dom()
            &&& forall|i: int|
                0 <= i < messages.len() ==> {
                    let w = s.router.idle[s.router.idle.len() - 1 - i];
                    s.links.contains_key(w) ==> t.links[w] == (crate::system::Link {
                        to: s.links[w].to.push(#[trigger] messages[i]),
                        ..s.links[w]
                    })
                }
            &&& forall|w: usize| #[trigger]
                s.links.contains_key(w) && !s.router.idle.skip(
                    s.router.idle.len() - messages.len(),
                ).contains(w) ==> t.links[w] == s.links[w]
        }),
    decreases messages.len(),
{
    let steps = messages.map_values(|message: Msg<I, O>| Step::<I, O, R>::Assign(message));
    let idle = s.router.idle;
    let n = messages.len();
    if n > 0 {
        let u = s.next(steps[0]);
        let rest = messages.skip(1);
        assert(s.router.is_job_message(0, messages[0]));
        assert(s.can(steps[0]));
        assert forall|i: int| 0 <= i < rest.len() implies u.router.is_job_message(
            i,
            #[trigger] rest[i],
        ) by {
            assert(rest[i] == messages[i + 1]);
            assert(s.router.is_job_message(i + 1, messages[i + 1]));
        }
        lemma_run_of_assignments(u, rest);
        assert(steps.skip(1) =~= rest.map_values(
            |message: Msg<I, O>| Step::<I, O, R>::Assign(message),
        ));
        lemma_assigned_from_the_front(s.router, n);
        let t = s.run(steps);
        let first = idle.last();
        assert(u.links.dom() =~= s.links.dom());
        let later = u.router.idle.skip(u.router.idle.len() - rest.len());
        let all = idle.skip(idle.len() - n);
        assert(!later.contains(first)) by {
            if later.contains(first) {
                let k = choose|k: int| 0 <= k < later.len() && later[k] == first;
                assert(idle[idle.len() - n + k] == idle[idle.len() - 1]);
            }
        }
        assert forall|i: int| 0 <= i < n implies {
            let w = idle[idle.len() - 1 - i];
            s.links.contains_key(w) ==> t.links[w] == (crate::system::Link {
                to: s.links[w].to.push(#[trigger] messages[i]),
                ..s.links[w]
            })
        } by {
            let w = idle[idle.len() - 1 - i];
            if s.links.contains_key(w) {
                assert(u.links.contains_key(w));
                if i > 0 {
                    assert(rest[i - 1] == messages[i]);
                    assert(w == u.router.idle[u.router.idle.len() - 1 - (i - 1)]);
                    assert(w != first);
                } else {
                    assert(w == first);
                }
            }
        }
        assert forall|w: usize| #[trigger]
            s.links.contains_key(w) && !all.contains(w) implies t.links[w] == s.links[w] by {
            assert(u.links.contains_key(w));
            assert(all[n - 1] == first);
            assert(!later.contains(w)) by {
                if later.contains(w) {
                    let k = choose|k: int| 0 <= k < later.len() && later[k] == w;
                    assert(all[k] == w);
                }
            }
        }
    }
}

/// Handing out a number of jobs is handing out one, and then the others.
proof fn lemma_assigned_from_the_front<I, R>(v: RouterView<I, R>, count: nat)
    requires
        count > 0,
    ensures
        v.assigned(count) == v.assigned_one().assigned((count - 1) as nat),
    decreases count,
{
    reveal_with_fuel(RouterView::assigned, 2);
    if count > 1 {
        lemma_assigned_from_the_front(v, (count - 1) as nat);
    }
}

/// The router of a pool hands out jobs as the pool's steps do: each message that is accepted is
/// one step, in the order in which they are sent, and reaches the worker that it is sent to. What
/// comes back are the states of the outbox and, for each accepted message, whom it was sent to.
pub proof fn law_hand_out_is_a_run_of_the_pool<
    I: Clone,
    O,
    R,
    S,
    F: Fn(S, usize, Msg<I, O>) -> (S, bool),
>(
    s: System<I, O, R>,
    router: &mut Router<I, R>,
    outbox: S,
    try_send: F,
    res: (S, usize),
) -> (sent: (Seq<S>, Seq<(usize, Msg<I, O>)>))
    requires
        call_ensures(Router::<I, R>::assign::<S, O, F>, (router, outbox, &try_send), res),
        s.router == old(router)@,
        s.in_order(),
    ensures
        ({
            let (outboxes, accepted) = sent;
            let steps = accepted.map_values(
                |offer: (usize, Msg<I, O>)| Step::<I, O, R>::Assign(offer.1),
            );
            let t = s.run(steps);
            &&& accepted.len() == res.1
            &&& outboxes.len() >= accepted.len() + 1
            &&& outboxes[0] == outbox
            &&& forall|i: int|
                0 <= i < accepted.len() ==> call_ensures(
                    try_send,
                    (outboxes[i], (#[trigger] accepted[i]).0, accepted[i].1),
                    (outboxes[i + 1], true),
                )
            &&& s.can_run(steps)
            &&& t.router == final(router)@
            &&& t.links.dom() == s.links.dom()
            &&& forall|i: int|
                0 <= i < accepted.len() ==> {
                    let (worker, message) = #[trigger] accepted[i];
                    s.links.contains_key(worker) ==> t.links[worker].to
                        == s.links[worker].to.push(message)
                }
            &&& forall|w: usize| #[trigger]
                s.links.contains_key(w) && !final(router)@.in_flight.contains_key(w)
                    ==> t.links[w] == s.links[w]
        }),
{
    let v = old(router)@;
    let count = res.1 as nat;
    let (outboxes, offers) = lemma_handed_out::<I, O, R, S, F>(
        v,
        try_send,
        count,
        outbox,
        res.0,
    );
    let accepted = offers.take(count as int);
    let messages = accepted.map_values(|offer: (usize, Msg<I, O>)| offer.1);
    assert forall|i: int| 0 <= i < messages.len() implies v.is_job_message(
        i,
        #[trigger] messages[i],
    ) by {
        assert(messages[i] == offers[i].1);
    }
    lemma_run_of_assignments(s, messages);
    lemma_assigned_in_flight(v, count);
    let steps = accepted.map_values(|offer: (usize, Msg<I, O>)| Step::<I, O, R>::Assign(offer.1));
    assert(steps =~= messages.map_values(|message: Msg<I, O>| Step::<I, O, R>::Assign(message)));
    let t = s.run(steps);
    assert forall|i: int| 0 <= i < accepted.len() implies {
        let (worker, message) = #[trigger] accepted[i];
        &&& s.links.contains_key(worker) ==> t.links[worker].to == s.links[worker].to.push(message)
        &&& call_ensures(try_send, (outboxes[i], worker, message), (outboxes[i + 1], true))
    } by {
        assert(accepted[i] == offers[i]);
        assert(messages[i] == offers[i].1);
    }
    let went = v.idle.skip(v.idle.len() - count);
    assert forall|w: usize| #[trigger]
        s.links.contains_key(w) && !v.assigned(count).in_flight.contains_key(w) implies t.links[w]
        == s.links[w] by {
        if went.contains(w) {
            let k = choose|k: int| 0 <= k < went.len() && went[k] == w;
            let i = count - 1 - k;
            assert(v.assigned(count).in_flight.contains_pair(
                v.idle[v.idle.len() - 1 - i],
                v.queue[i],
            ));
        }
    }
    (outboxes, accepted)
}

} // verus!
