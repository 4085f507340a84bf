//! The worker: from its start to its end, what it does next.
use crate::message::Msg;
use crate::text::concat;
use vstd::prelude::*;
use vstd::string::*;

verus! {

/// How the work on a job ended.
pub enum JobOutcome<O> {
    /// It gave a result.
    Returned(O),
    /// It gave an error, in these words.
    Failed(String),
    /// It panicked; the text of the panic comes with it where there is one.
    Panicked(Option<String>),
}

/// Whether `output` is what a worker sends back for `outcome`. A panic is an error like
/// any other, and says so.
pub open spec fn reports<O>(outcome: JobOutcome<O>, output: Result<O, String>) -> bool {
    match outcome {
        JobOutcome::Returned(o) => output == Ok::<O, String>(o),
        JobOutcome::Failed(e) => output == Err::<O, String>(e),
        JobOutcome::Panicked(Some(text)) => output matches Err(e) && e@ == "Panic: "@ + text@,
        JobOutcome::Panicked(None) => output matches Err(e) && e@ == "Panic: (unknown)"@,
    }
}

/// What a worker sends back for the way in which the work on a job ended.
pub fn job_output<O>(outcome: JobOutcome<O>) -> (output: Result<O, String>)
    ensures
        reports(outcome, output),
{
    match outcome {
        JobOutcome::Returned(o) => Ok(o),
        JobOutcome::Failed(e) => Err(e),
        JobOutcome::Panicked(Some(text)) => Err(concat("Panic: ", text.as_str())),
        JobOutcome::Panicked(None) => Err(String::from_str("Panic: (unknown)")),
    }
}

/// Where a worker stands.
pub enum Worker {
    /// It sets up what it needs for its jobs.
    Starting,
    /// It sends a message to the router.
    Sending,
    /// It waits for a message from the router.
    Waiting,
    /// It works on the job with this number.
    Working(u64),
    /// It has ended.
    Stopped,
}

/// What a worker goes by.
pub enum WorkerEvent<I, O> {
    /// Setting up is over; it went well or it did not.
    Initialized(bool),
    /// The message was sent, or could not be sent.
    Sent(bool),
    /// This message came; or the connection ended, or what came made no sense.
    Received(Option<Msg<I, O>>),
    /// The work on the job is over.
    Finished(JobOutcome<O>),
}

/// What a worker does next.
pub enum WorkerAction<I, O> {
    /// Send this message to the router.
    Send(Msg<I, O>),
    /// Wait for a message from the router.
    Receive,
    /// Work on a job with this input.
    Run(I),
    /// End.
    Stop,
}

impl Worker {
    /// Whether `event` is the kind of event that a worker who stands here waits for.
    pub open spec fn awaits<I, O>(self, event: WorkerEvent<I, O>) -> bool {
        match self {
            Worker::Starting => event is Initialized,
            Worker::Sending => event is Sent,
            Worker::Waiting => event is Received,
            Worker::Working(_) => event is Finished,
            Worker::Stopped => false,
        }
    }

    /// Where a worker stands after an event that it waited for.
    pub open spec fn after<I, O>(self, event: WorkerEvent<I, O>) -> Worker {
        match event {
            WorkerEvent::Initialized(true) => Worker::Sending,
            WorkerEvent::Sent(true) => Worker::Waiting,
            WorkerEvent::Received(Some(Msg::Job { id, input })) => Worker::Working(id),
            WorkerEvent::Received(Some(_)) => Worker::Waiting,
            WorkerEvent::Finished(_) => Worker::Sending,
            _ => Worker::Stopped,
        }
    }

    /// Whether `action` is what a worker does next after an event that it waited for.
    pub open spec fn acts<I, O>(self, event: WorkerEvent<I, O>, action: WorkerAction<I, O>) -> bool {
        match event {
            WorkerEvent::Initialized(true) => action == WorkerAction::<I, O>::Send(Msg::Ready),
            WorkerEvent::Sent(true) => action == WorkerAction::<I, O>::Receive,
            WorkerEvent::Received(Some(Msg::Job { id, input })) => action == WorkerAction::<
                I,
                O,
            >::Run(input),
            WorkerEvent::Received(Some(_)) => action == WorkerAction::<I, O>::Receive,
            WorkerEvent::Finished(outcome) => {
                &&& action matches WorkerAction::Send(Msg::Done { id, output })
                &&& self == Worker::Working(id)
                &&& reports(outcome, output)
            },
            _ => action == WorkerAction::<I, O>::Stop,
        }
    }

    /// A worker that has done nothing yet.
    pub fn new() -> (worker: Self)
        ensures
            worker == Worker::Starting,
    {
        Worker::Starting
    }

    /// Tells whether `event` is of the kind that the worker waits for.
    pub fn is_awaiting<I, O>(&self, event: &WorkerEvent<I, O>) -> (b: bool)
        ensures
            b == self.awaits(*event),
    {
        match (self, event) {
            (Worker::Starting, WorkerEvent::Initialized(_)) => true,
            (Worker::Sending, WorkerEvent::Sent(_)) => true,
            (Worker::Waiting, WorkerEvent::Received(_)) => true,
            (Worker::Working(_), WorkerEvent::Finished(_)) => true,
            _ => false,
        }
    }

    /// Takes in the event that the worker waited for, and says what it does next.
    pub fn on_event<I, O>(&mut self, event: WorkerEvent<I, O>) -> (action: WorkerAction<I, O>)
        requires
            old(self).awaits(event),
        ensures
            *final(self) == old(self).after(event),
            old(self).acts(event, action),
    {
        match event {
            WorkerEvent::Initialized(true) => {
                *self = Worker::Sending;
                WorkerAction::Send(Msg::Ready)
            },
            WorkerEvent::Sent(true) => {
                *self = Worker::Waiting;
                WorkerAction::Receive
            },
            WorkerEvent::Received(Some(Msg::Job { id, input })) => {
                *self = Worker::Working(id);
                WorkerAction::Run(input)
            },
            WorkerEvent::Received(Some(_)) => {
                *self = Worker::Waiting;
                WorkerAction::Receive
            },
            WorkerEvent::Finished(outcome) => {
                let id: u64 = match self {
                    Worker::Working(id) => *id,
                    _ => 0,
                };
                *self = Worker::Sending;
                WorkerAction::Send(Msg::Done { id, output: job_output(outcome) })
            },
            _ => {
                *self = Worker::Stopped;
                WorkerAction::Stop
            },
        }
    }
}

// ---- What holds of a worker's calls ----

/// A worker begins at its start, and tells apart what it waits for by where it stands: the end of
/// setting up, the sending of its message, a message, or the end of its work; once it has ended it
/// waits for nothing.
pub proof fn law_worker_waits_for_one_kind<I, O>(
    worker: Worker,
    event: WorkerEvent<I, O>,
    b: bool,
)
    ensures
        call_requires(Worker::new, ()),
        call_ensures(Worker::new, (), worker) ==> worker == Worker::Starting,
        call_requires(Worker::is_awaiting::<I, O>, (&worker, &event)),
        call_ensures(Worker::is_awaiting::<I, O>, (&worker, &event), b) ==> (b <==> match event {
            WorkerEvent::Initialized(_) => worker is Starting,
            WorkerEvent::Sent(_) => worker is Sending,
            WorkerEvent::Received(_) => worker is Waiting,
            WorkerEvent::Finished(_) => worker is Working,
        }),
{
}

/// A worker takes in every event that it waits for, and what it does next fits where it then
/// stands: when it sends, it waits for that to be done; when it receives, for a message; when it
/// works, for the end of the work; and it has ended exactly when it is to stop.
pub proof fn law_worker_waits_for_what_it_does<I, O>(
    worker: &mut Worker,
    event: WorkerEvent<I, O>,
    awaited: bool,
    action: WorkerAction<I, O>,
)
    requires
        call_ensures(Worker::is_awaiting::<I, O>, (&*old(worker), &event), awaited),
        awaited,
    ensures
        call_requires(Worker::on_event::<I, O>, (worker, event)),
        call_ensures(Worker::on_event::<I, O>, (worker, event), action) ==> {
            &&& action is Send <==> *final(worker) is Sending
            &&& action is Receive <==> *final(worker) is Waiting
            &&& action is Run <==> *final(worker) is Working
            &&& action is Stop <==> *final(worker) is Stopped
        },
{
}

/// A worker stops only when it cannot go on: when setting up failed, a message could not be sent,
/// or its connection is gone. As long as its messages are sent and messages come, it never stops,
/// whatever becomes of its jobs.
pub proof fn law_worker_stops_only_when_it_cannot_go_on<I, O>(
    worker: &mut Worker,
    event: WorkerEvent<I, O>,
    action: WorkerAction<I, O>,
)
    requires
        call_ensures(Worker::on_event::<I, O>, (worker, event), action),
    ensures
        *final(worker) is Stopped <==> match event {
            WorkerEvent::Initialized(ok) => !ok,
            WorkerEvent::Sent(ok) => !ok,
            WorkerEvent::Received(message) => message is None,
            WorkerEvent::Finished(_) => false,
        },
        action is Stop <==> *final(worker) is Stopped,
{
}

/// What a worker does: set up, it reports that it is ready; then it waits for messages; it works
/// on the input of every job that comes, and on nothing else that comes; and it reports the end of
/// its work under the number of the job that it worked on.
pub proof fn law_worker_does_job_after_job<I, O>(
    worker: &mut Worker,
    event: WorkerEvent<I, O>,
    action: WorkerAction<I, O>,
)
    requires
        call_ensures(Worker::on_event::<I, O>, (worker, event), action),
    ensures
        event == WorkerEvent::<I, O>::Initialized(true) ==> action == WorkerAction::<I, O>::Send(
            Msg::Ready,
        ) && *final(worker) is Sending,
        event == WorkerEvent::<I, O>::Sent(true) ==> action is Receive && *final(worker) is Waiting,
        event matches WorkerEvent::Received(Some(Msg::Job { id, input })) ==> action
            == WorkerAction::<I, O>::Run(input) && *final(worker) == Worker::Working(id),
        event matches WorkerEvent::Received(Some(message)) && message !is Job ==> action is Receive
            && *final(worker) is Waiting,
        event matches WorkerEvent::Finished(outcome) ==> *old(worker) is Working ==> {
            &&& *final(worker) is Sending
            &&& action matches WorkerAction::Send(Msg::Done { id, output }) && id
                == old(worker)->Working_0 && match outcome {
                JobOutcome::Returned(o) => output == Ok::<O, String>(o),
                JobOutcome::Failed(e) => output == Err::<O, String>(e),
                JobOutcome::Panicked(text) => output is Err && output->Err_0@ == match text {
                    Some(text) => "Panic: "@ + text@,
                    None => "Panic: (unknown)"@,
                },
            }
        },
{
}

/// One job of a worker, from the message that brings it to the next wait: the worker works on the
/// job's own input, sends the outcome back under the job's own number, and waits again.
pub proof fn law_one_job_of_a_worker<I, O>(
    receiving: &mut Worker,
    working: &mut Worker,
    sending: &mut Worker,
    id: u64,
    input: I,
    outcome: JobOutcome<O>,
    actions: (WorkerAction<I, O>, WorkerAction<I, O>, WorkerAction<I, O>),
)
    requires
        *old(receiving) is Waiting,
        call_ensures(
            Worker::on_event::<I, O>,
            (receiving, WorkerEvent::Received(Some(Msg::Job { id, input }))),
            actions.0,
        ),
        *old(working) == *final(receiving),
        call_ensures(
            Worker::on_event::<I, O>,
            (working, WorkerEvent::Finished(outcome)),
            actions.1,
        ),
        *old(sending) == *final(working),
        call_ensures(
            Worker::on_event::<I, O>,
            (sending, WorkerEvent::Sent(true)),
            actions.2,
        ),
    ensures
        actions.0 == WorkerAction::<I, O>::Run(input),
        actions.1 matches WorkerAction::Send(Msg::Done { id: n, output }) && n == id && match outcome {
            JobOutcome::Returned(o) => output == Ok::<O, String>(o),
            JobOutcome::Failed(e) => output == Err::<O, String>(e),
            JobOutcome::Panicked(_) => output is Err,
        },
        actions.2 is Receive,
        *final(sending) is Waiting,
{
}

/// What is sent back for the end of the work on a job: the result as it is, an error in its own
/// words, and a panic as an error that says that it was one and carries the text of the panic, if
/// there is one.
pub proof fn law_outcome_in_words<O>(outcome: JobOutcome<O>, output: Result<O, String>)
    ensures
        call_requires(job_output::<O>, (outcome,)),
        call_ensures(job_output::<O>, (outcome,), output) ==> {
            &&& output is Ok <==> outcome is Returned
            &&& outcome matches JobOutcome::Returned(o) ==> output == Ok::<O, String>(o)
            &&& outcome matches JobOutcome::Failed(e) ==> output == Err::<O, String>(e)
            &&& outcome matches JobOutcome::Panicked(Some(text)) ==> output->Err_0@ == "Panic: "@
                + text@
            &&& outcome matches JobOutcome::Panicked(None) ==> output->Err_0@
                == "Panic: (unknown)"@
        },
{
}

} // verus!
