//! The pool as its users see it: starting it, and handing it a job.
use crate::error::PoolError;
use vstd::prelude::*;

verus! {

/// How many workers a pool gets when nothing says otherwise.
pub const DEFAULT_CONCURRENCY: usize = 4;

/// How many messages to one worker may be under way.
pub const COMMAND_CAPACITY: usize = 8;

/// How many workers a pool gets: as many as were asked for; or, where none were asked for, as
/// many as the machine can run at once, if that is known.
pub open spec fn effective(concurrency: usize, available: Option<usize>) -> usize {
    if concurrency != 0 {
        concurrency
    } else {
        match available {
            Some(n) => n,
            None => DEFAULT_CONCURRENCY,
        }
    }
}

/// How many workers a pool gets.
pub fn effective_concurrency(concurrency: usize, available: Option<usize>) -> (n: usize)
    ensures
        n == effective(concurrency, available),
{
    if concurrency == 0 {
        match available {
            Some(n) => n,
            None => DEFAULT_CONCURRENCY,
        }
    } else {
        concurrency
    }
}

/// How many events of `workers` workers, of which there is at least one, may be under way to
/// the router.
pub fn event_capacity(workers: usize) -> (n: usize)
    requires
        workers > 0,
        workers * 2 <= usize::MAX,
    ensures
        n == workers * 2,
{
    workers * 2
}

/// What a fork gave, in the process that goes on from here. The number is the file
/// descriptor of this process's end of the connection.
pub enum Forked {
    /// This is still the parent.
    Parent(i32),
    /// This is the new child.
    Child(i32),
}

/// What a process is once the workers of a pool have been forked.
pub enum Role {
    /// A worker, on this connection to the router.
    Worker(i32),
    /// The router, on these connections to the workers.
    Router(Vec<i32>),
}

/// How far the start of a pool has come, in one process.
pub struct ForkPlan {
    remaining: usize,
    streams: Vec<i32>,
    child: Option<i32>,
}

/// How far the start of a pool has come, as contracts speak of it.
#[verifier::ext_equal]
pub struct ForkPlanView {
    /// How many workers are still to be forked.
    pub remaining: nat,
    /// The connections to the workers that were forked, in that order.
    pub streams: Seq<i32>,
    /// The connection to the router, in a worker.
    pub child: Option<i32>,
}

impl ForkPlanView {
    /// A start of `workers` workers of which none has been forked.
    pub open spec fn start(workers: nat) -> Self {
        ForkPlanView { remaining: workers, streams: Seq::empty(), child: None }
    }

    /// Whether another worker is to be forked: never in a worker.
    pub open spec fn forks(self) -> bool {
        self.child is None && self.remaining > 0
    }

    /// What a fork makes of it.
    pub open spec fn after(self, forked: Forked) -> Self {
        match forked {
            Forked::Parent(fd) => ForkPlanView {
                remaining: (self.remaining - 1) as nat,
                streams: self.streams.push(fd),
                ..self
            },
            Forked::Child(fd) => ForkPlanView { child: Some(fd), ..self },
        }
    }

    /// Whether `role` is what the process is, once it forks no more.
    pub open spec fn takes(self, role: Role) -> bool {
        match role {
            Role::Worker(fd) => self.child == Some(fd),
            Role::Router(streams) => self.child is None && streams@ == self.streams,
        }
    }

    /// What a series of forks makes of it.
    pub open spec fn after_all(self, forks: Seq<Forked>) -> Self
        decreases forks.len(),
    {
        if forks.len() == 0 {
            self
        } else {
            self.after_all(forks.drop_last()).after(forks.last())
        }
    }
}

impl View for ForkPlan {
    type V = ForkPlanView;

    closed spec fn view(&self) -> ForkPlanView {
        ForkPlanView {
            remaining: self.remaining as nat,
            streams: self.streams@,
            child: self.child,
        }
    }
}

impl ForkPlan {
    /// The start of a pool of `workers` workers.
    pub fn new(workers: usize) -> (plan: Self)
        ensures
            plan@ == ForkPlanView::start(workers as nat),
    {
        ForkPlan { remaining: workers, streams: Vec::new(), child: None }
    }

    /// Whether the process forks another worker before it takes up its role.
    pub fn forks(&self) -> (b: bool)
        ensures
            b == self@.forks(),
    {
        self.child.is_none() && self.remaining > 0
    }

    /// Notes what a fork gave.
    pub fn forked(&mut self, forked: Forked)
        requires
            old(self)@.forks(),
        ensures
            final(self)@ == old(self)@.after(forked),
    {
        match forked {
            Forked::Parent(fd) => {
                self.remaining = self.remaining - 1;
                self.streams.push(fd);
            },
            Forked::Child(fd) => {
                self.child = Some(fd);
            },
        }
    }

    /// What the process is, now that it forks no more.
    pub fn role(self) -> (role: Role)
        requires
            !self@.forks(),
        ensures
            self@.takes(role),
    {
        match self.child {
            Some(fd) => Role::Worker(fd),
            None => Role::Router(self.streams),
        }
    }
}

/// A pool, at one moment: what jobs are handed to its router through, once it has one.
pub struct StaticForkPool<S> {
    /// The way to the router.
    pub sender: Option<S>,
}

impl<S> Default for StaticForkPool<S> {
    fn default() -> (pool: Self)
        ensures
            pool.sender is None,
    {
        StaticForkPool::new()
    }
}

impl<S> StaticForkPool<S> {
    /// Whether starting the pool has an effect, in a process that is a worker or is not.
    pub open spec fn starts(self, fork_child: bool) -> bool {
        self.sender is None && !fork_child
    }

    /// The pool with a way to the router; the first one stays.
    pub open spec fn installed(self, sender: S) -> Self {
        if self.sender is Some {
            self
        } else {
            StaticForkPool { sender: Some(sender) }
        }
    }

    /// A pool that has not been started.
    pub fn new() -> (pool: Self)
        ensures
            pool.sender is None,
    {
        StaticForkPool { sender: None }
    }

    /// Begins to start the pool with `concurrency` workers, or with as many as the machine can
    /// run at once when that is zero. Nothing is begun when the pool was started before, or
    /// when this process is itself a worker.
    pub fn init_pool(
        &self,
        fork_child: bool,
        concurrency: usize,
        available: Option<usize>,
    ) -> (plan: Option<ForkPlan>)
        ensures
            plan is Some <==> self.starts(fork_child),
            plan matches Some(plan) ==> plan@ == ForkPlanView::start(
                effective(concurrency, available) as nat,
            ),
    {
        if self.sender.is_some() || fork_child {
            return None;
        }
        Some(ForkPlan::new(effective_concurrency(concurrency, available)))
    }

    /// Gives the pool its way to the router. The first one stays.
    pub fn install(&mut self, sender: S)
        ensures
            *final(self) == old(self).installed(sender),
    {
        if self.sender.is_none() {
            self.sender = Some(sender);
        }
    }

    /// Whether jobs can be handed to the pool; until then whoever has one waits.
    pub fn is_initialized(&self) -> (b: bool)
        ensures
            b == (self.sender is Some),
    {
        self.sender.is_some()
    }

    /// Hands a job to the router. `send` passes the input on and returns what the answer will
    /// come through, or nothing when the router is gone.
    pub fn process<I, W, F: FnOnce(&S, I) -> Option<W>>(&self, input: I, send: F) -> (res: Result<
        W,
        PoolError,
    >)
        requires
            self.sender matches Some(sender) ==> call_requires(send, (&sender, input)),
        ensures
            match self.sender {
                None => res == Err::<W, PoolError>(PoolError::NotInitialized),
                Some(sender) => exists|sent: Option<W>| #[trigger]
                    call_ensures(send, (&sender, input), sent) && res == (match sent {
                        Some(answer) => Ok(answer),
                        None => Err::<W, PoolError>(PoolError::RouterClosed),
                    }),
            },
    {
        match &self.sender {
            None => Err(PoolError::NotInitialized),
            Some(sender) => match send(sender, input) {
                Some(answer) => Ok(answer),
                None => Err(PoolError::RouterClosed),
            },
        }
    }
}

/// The result of a job for whoever handed it in: the answer, if one came.
pub fn job_answer<O>(received: Option<Result<O, PoolError>>) -> (res: Result<O, PoolError>)
    ensures
        res == (match received {
            Some(answer) => answer,
            None => Err(PoolError::Cancelled),
        }),
{
    match received {
        Some(answer) => answer,
        None => Err(PoolError::Cancelled),
    }
}

// ---- What holds of a start ----

/// A pool is started once: from then on, starting it again has no effect.
pub proof fn law_started_once<S>(pool: StaticForkPool<S>, sender: S, fork_child: bool)
    ensures
        !pool.installed(sender).starts(fork_child),
{
}

/// The way to the router never changes once there is one.
pub proof fn law_first_sender_stays<S>(pool: StaticForkPool<S>, first: S, second: S)
    ensures
        pool.installed(first).installed(second) == pool.installed(first),
{
}

/// A worker starts no pool.
pub proof fn law_worker_starts_no_pool<S>(pool: StaticForkPool<S>)
    ensures
        !pool.starts(true),
{
}

/// A pool has at least one worker, on a machine that can run at least one thing at a time.
pub proof fn law_pool_has_a_worker(concurrency: usize, available: Option<usize>)
    requires
        available matches Some(n) ==> n > 0,
    ensures
        effective(concurrency, available) > 0,
{
}

/// The process that starts a pool ends up as the router, with one connection for each worker
/// that was asked for, in the order in which they were forked.
pub proof fn law_parent_becomes_router(workers: nat, fds: Seq<i32>, role: Role)
    requires
        fds.len() == workers,
        ForkPlanView::start(workers).after_all(fds.map_values(|fd: i32| Forked::Parent(fd))).takes(
            role,
        ),
    ensures
        !ForkPlanView::start(workers).after_all(
            fds.map_values(|fd: i32| Forked::Parent(fd)),
        ).forks(),
        role matches Role::Router(streams) && streams@ == fds,
{
    lemma_parent_forks(workers, fds);
}

/// As long as workers are missing, the process that starts a pool goes on forking.
pub proof fn law_parent_goes_on_forking(workers: nat, fds: Seq<i32>)
    requires
        fds.len() < workers,
    ensures
        ForkPlanView::start(workers).after_all(
            fds.map_values(|fd: i32| Forked::Parent(fd)),
        ).forks(),
{
    lemma_parent_forks(workers, fds);
}

/// A worker forks no further: whatever was forked before it, it takes up its own connection.
pub proof fn law_child_becomes_worker(plan: ForkPlanView, fd: i32, role: Role)
    requires
        plan.forks(),
        plan.after(Forked::Child(fd)).takes(role),
    ensures
        !plan.after(Forked::Child(fd)).forks(),
        role == Role::Worker(fd),
{
}

// ---- What holds of single calls ----

/// A pool gets exactly as many workers as were asked for, whatever the machine can run. Where none
/// were asked for, it gets as many as the machine can run at once, or four when that is not known.
pub proof fn law_as_many_workers_as_asked_for(
    concurrency: usize,
    available: Option<usize>,
    n: usize,
)
    ensures
        call_requires(effective_concurrency, (concurrency, available)),
        call_ensures(effective_concurrency, (concurrency, available), n) ==> {
            &&& concurrency > 0 ==> n == concurrency
            &&& concurrency == 0 ==> (available matches Some(m) ==> n == m)
            &&& concurrency == 0 && available is None ==> n == DEFAULT_CONCURRENCY
        },
        DEFAULT_CONCURRENCY == 4,
{
}

/// Starting a pool is begun once, and never by a worker. It begins with nobody forked and with as
/// many workers to fork as were asked for; or, where none were asked for, as many as the machine
/// can run at once, or four when that is not known.
pub proof fn law_start_forks_as_many_as_asked_for<S>(
    pool: StaticForkPool<S>,
    fork_child: bool,
    concurrency: usize,
    available: Option<usize>,
    plan: Option<ForkPlan>,
)
    ensures
        call_requires(
            StaticForkPool::<S>::init_pool,
            (&pool, fork_child, concurrency, available),
        ),
        call_ensures(
            StaticForkPool::<S>::init_pool,
            (&pool, fork_child, concurrency, available),
            plan,
        ) ==> {
            &&& plan is None <==> pool.sender is Some || fork_child
            &&& plan matches Some(plan) ==> {
                &&& plan@.child is None
                &&& plan@.streams.len() == 0
                &&& concurrency > 0 ==> plan@.remaining == concurrency
                &&& concurrency == 0 ==> (available matches Some(m) ==> plan@.remaining == m)
                &&& concurrency == 0 && available is None ==> plan@.remaining == 4
            }
        },
{
}

/// A start of a number of workers has that many to fork, and nobody forked yet.
pub proof fn law_new_start_has_all_to_fork(workers: usize, plan: ForkPlan)
    ensures
        call_requires(ForkPlan::new, (workers,)),
        call_ensures(ForkPlan::new, (workers,), plan) ==> plan@.remaining == workers
            && plan@.streams.len() == 0 && plan@.child is None,
{
}

/// A process forks on as long as workers are missing, unless it is a worker itself.
pub proof fn law_forks_while_workers_are_missing(plan: ForkPlan, b: bool)
    ensures
        call_requires(ForkPlan::forks, (&plan,)),
        call_ensures(ForkPlan::forks, (&plan,), b) ==> (b <==> plan@.remaining > 0
            && plan@.child is None),
{
}

/// After a fork, the parent has one worker less to fork and one more connection, behind those that
/// it had; the child has its own connection and is a worker.
pub proof fn law_fork_counts_one_worker(plan: &mut ForkPlan, forked: Forked)
    ensures
        old(plan)@.remaining > 0 && old(plan)@.child is None ==> call_requires(
            ForkPlan::forked,
            (plan, forked),
        ),
        call_ensures(ForkPlan::forked, (plan, forked), ()) ==> {
            let (a, b) = (old(plan)@, final(plan)@);
            &&& forked matches Forked::Parent(fd) ==> {
                &&& a.remaining > 0 ==> b.remaining == a.remaining - 1
                &&& b.streams.len() == a.streams.len() + 1
                &&& b.streams[a.streams.len() as int] == fd
                &&& forall|k: int|
                    0 <= k < a.streams.len() ==> #[trigger] b.streams[k] == a.streams[k]
                &&& b.child == a.child
            }
            &&& forked matches Forked::Child(fd) ==> {
                &&& b.child == Some(fd)
                &&& b.streams == a.streams
                &&& b.remaining == a.remaining
            }
        },
{
}

/// Once a process forks no more, it is a worker on its own connection if it was forked, and
/// otherwise the router on all connections that it made, in that order.
pub proof fn law_role_follows_from_the_forks(plan: ForkPlan, role: Role)
    ensures
        plan@.remaining == 0 || plan@.child is Some ==> call_requires(ForkPlan::role, (plan,)),
        call_ensures(ForkPlan::role, (plan,), role) ==> match plan@.child {
            Some(fd) => role == Role::Worker(fd),
            None => role matches Role::Router(streams) && streams@ == plan@.streams,
        },
{
}

/// A new pool has no way to a router. The first way that it is given stays, and from then on the
/// pool says that it has one.
pub proof fn law_pool_keeps_its_first_way<S>(
    fresh: StaticForkPool<S>,
    pool: &mut StaticForkPool<S>,
    sender: S,
)
    ensures
        call_requires(StaticForkPool::<S>::new, ()),
        call_ensures(StaticForkPool::<S>::new, (), fresh) ==> fresh.sender is None,
        call_ensures(<StaticForkPool<S> as Default>::default, (), fresh) ==> fresh.sender is None,
        call_requires(StaticForkPool::<S>::install, (pool, sender)),
        call_ensures(StaticForkPool::<S>::install, (pool, sender), ()) ==> {
            &&& old(pool).sender is Some ==> final(pool).sender == old(pool).sender
            &&& old(pool).sender is None ==> final(pool).sender == Some(sender)
        },
{
}

/// A pool says that it takes jobs exactly when it has a way to a router.
pub proof fn law_initialized_means_a_way_to_the_router<S>(pool: StaticForkPool<S>, b: bool)
    ensures
        call_requires(StaticForkPool::<S>::is_initialized, (&pool,)),
        call_ensures(StaticForkPool::<S>::is_initialized, (&pool,), b) ==> (b <==> pool.sender
            is Some),
{
}

/// A job goes to the router with its own input, and what the answer will come through is handed
/// back as it is. It fails only when there is no router, or when the router is gone; which of the
/// two, the error tells.
pub proof fn law_job_goes_to_the_router<S, I, W, F: FnOnce(&S, I) -> Option<W>>(
    pool: StaticForkPool<S>,
    input: I,
    send: F,
    res: Result<W, PoolError>,
)
    ensures
        (pool.sender matches Some(sender) ==> call_requires(send, (&sender, input)))
            ==> call_requires(StaticForkPool::<S>::process::<I, W, F>, (&pool, input, send)),
        call_ensures(StaticForkPool::<S>::process::<I, W, F>, (&pool, input, send), res) ==> {
            &&& pool.sender is None ==> res == Err::<W, PoolError>(PoolError::NotInitialized)
            &&& pool.sender matches Some(sender) ==> {
                ||| res matches Ok(way) && call_ensures(send, (&sender, input), Some(way))
                ||| res == Err::<W, PoolError>(PoolError::RouterClosed) && call_ensures(
                    send,
                    (&sender, input),
                    None::<W>,
                )
            }
        },
{
}

/// The answer to a job is passed back as it is; a job that is dropped without one was cancelled.
pub proof fn law_answer_is_passed_back<O>(
    received: Option<Result<O, PoolError>>,
    res: Result<O, PoolError>,
)
    ensures
        call_requires(job_answer::<O>, (received,)),
        call_ensures(job_answer::<O>, (received,), res) ==> {
            &&& received matches Some(answer) ==> res == answer
            &&& received is None ==> res == Err::<O, PoolError>(PoolError::Cancelled)
        },
{
}

/// There is room for two events of each worker, and for eight messages to it.
pub proof fn law_room_for_two_events_each(workers: usize, n: usize)
    ensures
        workers > 0 && workers + workers <= usize::MAX ==> call_requires(
            event_capacity,
            (workers,),
        ),
        call_ensures(event_capacity, (workers,), n) ==> n == workers + workers,
        COMMAND_CAPACITY == 8,
{
}

/// What the forks of workers make of a start.
proof fn lemma_parent_forks(workers: nat, fds: Seq<i32>)
    requires
        fds.len() <= workers,
    ensures
        ForkPlanView::start(workers).after_all(fds.map_values(|fd: i32| Forked::Parent(fd)))
            == (ForkPlanView {
            remaining: (workers - fds.len()) as nat,
            streams: fds,
            child: None,
        }),
    decreases fds.len(),
{
    let forks = fds.map_values(|fd: i32| Forked::Parent(fd));
    if fds.len() == 0 {
        assert(fds =~= Seq::empty());
    } else {
        let before = fds.drop_last();
        lemma_parent_forks(workers, before);
        assert(forks.drop_last() =~= before.map_values(|fd: i32| Forked::Parent(fd)));
        assert(before.push(fds.last()) =~= fds);
    }
}

} // verus!
