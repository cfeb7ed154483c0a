//! The supervisor of a sandbox: how it is set up, and how its worker runs.
//!
//! The supervisor makes a namespace, registers a socket for each sandboxed
//! scheme in it, and starts one worker that serves them all from one event
//! queue. The queue also watches a pipe: a byte written to it wakes the
//! worker and ends it.
//!
//! Namespaces, sockets, queue and thread are the host's. What is decided
//! here is the order of the setup, and what the worker does on each report
//! of the host.

use vstd::prelude::*;
use vstd::string::*;
use crate::abi::{O_CLOEXEC, O_CREAT, O_RDWR};
use crate::uri::concat3;

verus! {

/// The flags with which the socket of a sandboxed scheme is opened: create
/// it, for reading and writing, and close it in a process that executes
/// another program.
pub const SOCKET_FLAGS: usize = O_CREAT | O_RDWR | O_CLOEXEC;

/// The name under which the socket of a scheme is opened to register the
/// scheme: a colon and the scheme's name.
pub fn socket_name(scheme: &str) -> (r: String)
    ensures
        r@ == seq![':'] + scheme@,
{
    proof {
        reveal_strlit("");
        reveal_strlit(":");
        assert(""@ + ":"@ + scheme@ =~= seq![':'] + scheme@);
    }
    concat3("", ":", scheme)
}

/// One step of the setup of a supervisor. A step that fails ends the setup.
#[derive(Clone, Copy, Debug, PartialEq, Eq, Structural)]
pub enum SetupStep {
    /// Make a namespace that holds the pass schemes.
    MakeNamespace,
    /// Enter the new namespace, for what this thread registers.
    EnterNamespace,
    /// Register the sandboxed scheme with this index.
    Register { index: usize },
    /// Go back to the namespace of the caller.
    LeaveNamespace,
    /// Make the event queue.
    MakeQueue,
    /// Let the queue watch the socket of the scheme with this index, under
    /// the key that equals the index.
    Watch { index: usize },
    /// Make the pipe that ends the worker.
    MakePipe,
    /// Let the queue watch the pipe, under this key.
    WatchPipe { key: usize },
    /// Start the worker.
    Spawn,
}

impl SetupStep {
    /// The place of the step in the setup for `schemes` sandboxed schemes,
    /// counted from 0.
    pub open spec fn position(self, schemes: usize) -> int {
        match self {
            SetupStep::MakeNamespace => 0,
            SetupStep::EnterNamespace => 1,
            SetupStep::Register { index } => 2 + index,
            SetupStep::LeaveNamespace => 2 + schemes,
            SetupStep::MakeQueue => 3 + schemes,
            SetupStep::Watch { index } => 4 + schemes + index,
            SetupStep::MakePipe => 4 + 2 * schemes,
            SetupStep::WatchPipe { .. } => 5 + 2 * schemes,
            SetupStep::Spawn => 6 + 2 * schemes,
        }
    }

    /// The step belongs to the setup for `schemes` sandboxed schemes: it
    /// names a scheme that there is, and the pipe's key is the number of
    /// schemes.
    pub open spec fn fits(self, schemes: usize) -> bool {
        match self {
            SetupStep::Register { index } => index < schemes,
            SetupStep::Watch { index } => index < schemes,
            SetupStep::WatchPipe { key } => key == schemes,
            _ => true,
        }
    }

    /// The step after this one: every scheme is registered inside the new
    /// namespace, every socket is watched before the pipe is, and the worker
    /// starts last.
    pub open spec fn successor(self, schemes: usize) -> Option<SetupStep> {
        match self {
            SetupStep::MakeNamespace => Some(SetupStep::EnterNamespace),
            SetupStep::EnterNamespace => if schemes > 0 {
                Some(SetupStep::Register { index: 0 })
            } else {
                Some(SetupStep::LeaveNamespace)
            },
            SetupStep::Register { index } => if index + 1 < schemes {
                Some(SetupStep::Register { index: (index + 1) as usize })
            } else {
                Some(SetupStep::LeaveNamespace)
            },
            SetupStep::LeaveNamespace => Some(SetupStep::MakeQueue),
            SetupStep::MakeQueue => if schemes > 0 {
                Some(SetupStep::Watch { index: 0 })
            } else {
                Some(SetupStep::MakePipe)
            },
            SetupStep::Watch { index } => if index + 1 < schemes {
                Some(SetupStep::Watch { index: (index + 1) as usize })
            } else {
                Some(SetupStep::MakePipe)
            },
            SetupStep::MakePipe => Some(SetupStep::WatchPipe { key: schemes }),
            SetupStep::WatchPipe { .. } => Some(SetupStep::Spawn),
            SetupStep::Spawn => None,
        }
    }

    /// The step with which every setup begins.
    pub fn first() -> (r: SetupStep)
        ensures
            r == SetupStep::MakeNamespace,
    {
        SetupStep::MakeNamespace
    }

    /// The step that follows this one once it has succeeded, in the setup
    /// for `schemes` sandboxed schemes; `None` when the setup is complete.
    pub fn next(self, schemes: usize) -> (r: Option<SetupStep>)
        ensures
            r == self.successor(schemes),
    {
        match self {
            SetupStep::MakeNamespace => Some(SetupStep::EnterNamespace),
            SetupStep::EnterNamespace => {
                if schemes > 0 {
                    Some(SetupStep::Register { index: 0 })
                } else {
                    Some(SetupStep::LeaveNamespace)
                }
            },
            SetupStep::Register { index } => {
                if index < schemes && index + 1 < schemes {
                    Some(SetupStep::Register { index: index + 1 })
                } else {
                    Some(SetupStep::LeaveNamespace)
                }
            },
            SetupStep::LeaveNamespace => Some(SetupStep::MakeQueue),
            SetupStep::MakeQueue => {
                if schemes > 0 {
                    Some(SetupStep::Watch { index: 0 })
                } else {
                    Some(SetupStep::MakePipe)
                }
            },
            SetupStep::Watch { index } => {
                if index < schemes && index + 1 < schemes {
                    Some(SetupStep::Watch { index: index + 1 })
                } else {
                    Some(SetupStep::MakePipe)
                }
            },
            SetupStep::MakePipe => Some(SetupStep::WatchPipe { key: schemes }),
            SetupStep::WatchPipe { .. } => Some(SetupStep::Spawn),
            SetupStep::Spawn => None,
        }
    }
}

/// The setup runs through its steps in order and leaves none out: the step
/// after one that belongs to the setup belongs to it too and stands at the
/// next position, and only the start of the worker has no step after it.
pub proof fn lemma_setup_runs_in_order(step: SetupStep, schemes: usize)
    requires
        step.fits(schemes),
    ensures
        step.successor(schemes) is None <==> step == SetupStep::Spawn,
        step.successor(schemes) matches Some(next) ==> next.fits(schemes) && next.position(schemes)
            == step.position(schemes) + 1,
        SetupStep::MakeNamespace.position(schemes) == 0,
{
}

/// The step at `position` of the setup for `schemes` sandboxed schemes:
/// the namespace is made and entered, the schemes are registered in their
/// order, the namespace is left, the queue is made, the sockets are watched
/// in their order, the pipe is made and watched, and the worker is started.
pub open spec fn setup_step(position: int, schemes: usize) -> SetupStep {
    if position <= 0 {
        SetupStep::MakeNamespace
    } else if position == 1 {
        SetupStep::EnterNamespace
    } else if position < 2 + schemes {
        SetupStep::Register { index: (position - 2) as usize }
    } else if position == 2 + schemes {
        SetupStep::LeaveNamespace
    } else if position == 3 + schemes {
        SetupStep::MakeQueue
    } else if position < 4 + 2 * schemes {
        SetupStep::Watch { index: (position - 4 - schemes) as usize }
    } else if position == 4 + 2 * schemes {
        SetupStep::MakePipe
    } else if position == 5 + 2 * schemes {
        SetupStep::WatchPipe { key: schemes }
    } else {
        SetupStep::Spawn
    }
}

/// The setup is the row of steps that `setup_step` lays down: it begins
/// with the first of them, each is followed by the next, and it is complete
/// after the last.
pub proof fn lemma_setup_is_laid_down(position: int, schemes: usize)
    requires
        0 <= position <= 6 + 2 * schemes,
    ensures
        setup_step(0, schemes) == SetupStep::MakeNamespace,
        setup_step(position, schemes).fits(schemes),
        setup_step(position, schemes).position(schemes) == position,
        setup_step(position, schemes).successor(schemes) == if position < 6 + 2 * schemes {
            Some(setup_step(position + 1, schemes))
        } else {
            None
        },
{
}

/// The worker of a supervisor that serves `schemes` sockets. The queue
/// reports the socket with index `i` under the key `i`, and the pipe under
/// the key `schemes`.
#[derive(Clone, Copy, Debug)]
pub struct Worker {
    pub schemes: usize,
}

/// What the worker is doing.
#[derive(Clone, Copy, Debug, PartialEq, Eq, Structural)]
pub enum WorkerState {
    /// It waits for the queue.
    Waiting,
    /// It reads the requests of the socket `scheme`.
    Reading { scheme: usize },
    /// It serves the request `index` out of `count` that it has read from
    /// the socket `scheme`.
    Serving { scheme: usize, index: usize, count: usize },
    /// It has closed its sockets and ended.
    Stopped,
}

/// What the host reports to the worker.
#[derive(Clone, Copy, Debug, PartialEq, Eq, Structural)]
pub enum WorkerEvent {
    /// The queue reports what is watched under this key.
    Ready(usize),
    /// The queue has failed or ended.
    QueueLost,
    /// Reading requests has returned this many; `None` if it failed.
    Read(Option<usize>),
    /// Serving a request has written this many responses; `None` if
    /// writing failed.
    Written(Option<usize>),
    /// The request was a message that asks for no response.
    Unanswered,
}

/// What the worker does next.
#[derive(Clone, Copy, Debug, PartialEq, Eq, Structural)]
pub enum WorkerAction {
    /// Wait for the queue.
    Wait,
    /// Read one batch of requests from the socket `scheme`.
    Read { scheme: usize },
    /// Serve the request `index` of the batch through the filter of
    /// `scheme`, and write the response to its socket.
    Serve { scheme: usize, index: usize },
    /// Close every socket and end.
    CloseAll,
    /// Nothing: the worker has ended.
    Nothing,
}

impl Worker {
    /// The key under which the queue reports the pipe.
    pub open spec fn shutdown_key(self) -> usize {
        self.schemes
    }

    /// What the worker does on `event` in `state`.
    ///
    /// It waits for the queue, reads one batch from the socket that the
    /// queue reports, serves the requests of the batch in order, and waits
    /// again. It ends when the queue reports the pipe. It ends as well on
    /// whatever it cannot handle: a key that it does not know, a queue that
    /// fails, a read that fails or returns nothing, a response that is not
    /// written, a report that it did not wait for. When it ends it closes
    /// every socket, once. A message that asks for no response counts as
    /// served.
    pub open spec fn step_of(self, state: WorkerState, event: WorkerEvent) -> (
        WorkerState,
        WorkerAction,
    ) {
        match (state, event) {
            (WorkerState::Stopped, _) => (WorkerState::Stopped, WorkerAction::Nothing),
            (WorkerState::Waiting, WorkerEvent::Ready(key)) => if key < self.schemes {
                (WorkerState::Reading { scheme: key }, WorkerAction::Read { scheme: key })
            } else {
                (WorkerState::Stopped, WorkerAction::CloseAll)
            },
            (WorkerState::Reading { scheme }, WorkerEvent::Read(Some(count))) => if count > 0 {
                (
                    WorkerState::Serving { scheme, index: 0, count },
                    WorkerAction::Serve { scheme, index: 0 },
                )
            } else {
                (WorkerState::Stopped, WorkerAction::CloseAll)
            },
            (WorkerState::Serving { scheme, index, count }, WorkerEvent::Written(Some(written))) =>
                if written == 1 {
                self.served(scheme, index, count)
            } else {
                (WorkerState::Stopped, WorkerAction::CloseAll)
            },
            (WorkerState::Serving { scheme, index, count }, WorkerEvent::Unanswered) => self.served(
                scheme,
                index,
                count,
            ),
            _ => (WorkerState::Stopped, WorkerAction::CloseAll),
        }
    }

    /// What the worker does once the request `index` of a batch of `count`
    /// is done with: it serves the next one, or waits again after the last.
    pub open spec fn served(self, scheme: usize, index: usize, count: usize) -> (
        WorkerState,
        WorkerAction,
    ) {
        if index + 1 < count {
            (
                WorkerState::Serving { scheme, index: (index + 1) as usize, count },
                WorkerAction::Serve { scheme, index: (index + 1) as usize },
            )
        } else {
            (WorkerState::Waiting, WorkerAction::Wait)
        }
    }

    /// The state of the worker after the reports `events`, one after the
    /// other.
    pub open spec fn run(self, state: WorkerState, events: Seq<WorkerEvent>) -> WorkerState
        decreases events.len(),
    {
        if events.len() == 0 {
            state
        } else {
            self.run(self.step_of(state, events[0]).0, events.drop_first())
        }
    }

    /// How often the worker closes its sockets on the reports `events`.
    pub open spec fn closings(self, state: WorkerState, events: Seq<WorkerEvent>) -> nat
        decreases events.len(),
    {
        if events.len() == 0 {
            0
        } else {
            let (next, action) = self.step_of(state, events[0]);
            let now: nat = if action == WorkerAction::CloseAll {
                1
            } else {
                0
            };
            now + self.closings(next, events.drop_first())
        }
    }

    /// A worker for `schemes` sockets.
    pub fn new(schemes: usize) -> (r: Worker)
        ensures
            r.schemes == schemes,
    {
        Worker { schemes }
    }

    /// The state in which a worker starts, and its first action.
    pub fn start(&self) -> (r: (WorkerState, WorkerAction))
        ensures
            r == (WorkerState::Waiting, WorkerAction::Wait),
    {
        (WorkerState::Waiting, WorkerAction::Wait)
    }

    /// What the worker does on `event` in `state`: its next state and its
    /// next action.
    pub fn step(&self, state: WorkerState, event: WorkerEvent) -> (r: (WorkerState, WorkerAction))
        ensures
            r == self.step_of(state, event),
    {
        match (state, event) {
            (WorkerState::Stopped, _) => (WorkerState::Stopped, WorkerAction::Nothing),
            (WorkerState::Waiting, WorkerEvent::Ready(key)) => {
                if key < self.schemes {
                    (WorkerState::Reading { scheme: key }, WorkerAction::Read { scheme: key })
                } else {
                    (WorkerState::Stopped, WorkerAction::CloseAll)
                }
            },
            (WorkerState::Reading { scheme }, WorkerEvent::Read(Some(count))) => {
                if count > 0 {
                    (
                        WorkerState::Serving { scheme, index: 0, count },
                        WorkerAction::Serve { scheme, index: 0 },
                    )
                } else {
                    (WorkerState::Stopped, WorkerAction::CloseAll)
                }
            },
            (
                WorkerState::Serving { scheme, index, count },
                WorkerEvent::Written(Some(written)),
            ) => {
                if written == 1 {
                    self.after_request(scheme, index, count)
                } else {
                    (WorkerState::Stopped, WorkerAction::CloseAll)
                }
            },
            (WorkerState::Serving { scheme, index, count }, WorkerEvent::Unanswered) => {
                self.after_request(scheme, index, count)
            },
            _ => (WorkerState::Stopped, WorkerAction::CloseAll),
        }
    }

    /// What the worker does once the request `index` of a batch of `count`
    /// is done with.
    fn after_request(&self, scheme: usize, index: usize, count: usize) -> (r: (
        WorkerState,
        WorkerAction,
    ))
        ensures
            r == self.served(scheme, index, count),
    {
        if index < count && index + 1 < count {
            (
                WorkerState::Serving { scheme, index: index + 1, count },
                WorkerAction::Serve { scheme, index: index + 1 },
            )
        } else {
            (WorkerState::Waiting, WorkerAction::Wait)
        }
    }
}

/// A worker that waits ends as soon as the queue reports the pipe, and
/// closes its sockets.
pub proof fn lemma_pipe_ends_waiting_worker(worker: Worker)
    ensures
        worker.step_of(WorkerState::Waiting, WorkerEvent::Ready(worker.shutdown_key())) == (
            WorkerState::Stopped,
            WorkerAction::CloseAll,
        ),
{
}

/// The reports that a worker needs at most, from `state`, until it waits
/// for the queue again or has ended: one for each request of the batch that
/// is still to be served, and one more while the batch is being read.
pub open spec fn reports_until_wait(state: WorkerState) -> nat {
    match state {
        WorkerState::Waiting | WorkerState::Stopped => 0,
        WorkerState::Reading { .. } => 1,
        WorkerState::Serving { index, count, .. } => if index < count {
            (count - index) as nat
        } else {
            1
        },
    }
}

/// A worker that is busy comes back to the queue in bounded time: with each
/// report it either waits again, or has ended, or has one request less of
/// its batch to serve. A worker that reads comes there after the batch that
/// it reads.
pub proof fn lemma_worker_returns_to_queue(worker: Worker, state: WorkerState, event: WorkerEvent)
    ensures
        ({
            let next = worker.step_of(state, event).0;
            &&& state is Serving ==> reports_until_wait(next) < reports_until_wait(state)
            &&& state is Reading ==> (next is Stopped || (event matches WorkerEvent::Read(
                Some(count),
            ) && reports_until_wait(next) == count))
        }),
{
}

/// A worker that serves a batch waits for the queue again, or has ended,
/// after no more reports than the batch has requests left.
pub proof fn lemma_batch_ends(worker: Worker, state: WorkerState, events: Seq<WorkerEvent>)
    requires
        state is Serving,
        events.len() >= reports_until_wait(state),
    ensures
        exists|n: int|
            0 <= n <= reports_until_wait(state) && reports_until_wait(
                #[trigger] worker.run(state, events.take(n)),
            ) == 0,
    decreases reports_until_wait(state),
{
    let next = worker.step_of(state, events[0]).0;
    let rest = events.drop_first();
    lemma_worker_returns_to_queue(worker, state, events[0]);
    if reports_until_wait(next) == 0 {
        let one = events.take(1);
        assert(one[0] == events[0]);
        assert(one.drop_first() =~= Seq::<WorkerEvent>::empty());
        assert(worker.run(next, one.drop_first()) == next);
        assert(worker.run(state, one) == next);
    } else {
        lemma_batch_ends(worker, next, rest);
        let n = choose|n: int|
            0 <= n <= reports_until_wait(next) && reports_until_wait(
                #[trigger] worker.run(next, rest.take(n)),
            ) == 0;
        let more = events.take(n + 1);
        assert(more[0] == events[0]);
        assert(more.drop_first() =~= rest.take(n));
        assert(worker.run(state, more) == worker.run(next, rest.take(n)));
    }
}

/// A worker that has ended stays so, and does nothing more.
pub proof fn lemma_stopped_worker_stays(worker: Worker, events: Seq<WorkerEvent>)
    ensures
        worker.run(WorkerState::Stopped, events) == WorkerState::Stopped,
        worker.closings(WorkerState::Stopped, events) == 0,
    decreases events.len(),
{
    if events.len() > 0 {
        lemma_stopped_worker_stays(worker, events.drop_first());
    }
}

/// A worker closes its sockets when it ends, and never again: over any
/// reports, a worker that has not ended closes them once if it ends, and not
/// at all if it does not.
pub proof fn lemma_sockets_are_closed_once(
    worker: Worker,
    state: WorkerState,
    events: Seq<WorkerEvent>,
)
    requires
        state != WorkerState::Stopped,
    ensures
        worker.closings(state, events) == if worker.run(state, events) == WorkerState::Stopped {
            1nat
        } else {
            0nat
        },
    decreases events.len(),
{
    if events.len() > 0 {
        let (next, action) = worker.step_of(state, events[0]);
        if next == WorkerState::Stopped {
            lemma_stopped_worker_stays(worker, events.drop_first());
        } else {
            lemma_sockets_are_closed_once(worker, next, events.drop_first());
        }
    }
}

} // verus!
