//! What is asked of a kernel, and the course of the task that speaks with it.
use crate::buffer::Buffers;
use crate::cell::{Cell, CellId};
use crate::common::NotebookError;
use crate::jupyter::message::Message;
use vstd::prelude::*;
use vstd::string::*;

verus! {

/// The name of a kernel.
#[derive(Debug)]
pub struct KernelId(pub String);

/// What a kernel is doing.
#[derive(Clone, Copy, Debug, PartialEq, Eq, Structural)]
pub enum KernelState {
    Stopped,
    Starting,
    Ready,
    Executing,
    Responding,
    Terminating,
}

/// What happens in a kernel.
#[derive(Debug)]
pub enum KernelEvent {
    ReceivedKernelMessage(Message),
}

/// What is asked of a kernel. `S` and `P` are the places where the answers go.
#[derive(Debug)]
#[allow(inconsistent_fields)]
pub enum KernelCommand<S, P> {
    Start { tx: S },
    Stop {},
    Interrupt {},
    Run { cell_id: CellId, code: String },
    Ping { tx: P },
    Log { text: String },
}

impl<S, P> KernelCommand<S, P> {
    /// Asks for a sign of life at one end of `channel`, and hands out its other end.
    pub fn ping<R>(channel: (P, R)) -> (ping: (KernelCommand<S, P>, R))
        ensures
            ping.0 == (KernelCommand::<S, P>::Ping { tx: channel.0 }),
            ping.1 == channel.1,
    {
        let (tx, rx) = channel;
        (KernelCommand::Ping { tx }, rx)
    }

    /// Asks to run the code of a cell.
    pub fn run(cell_id: CellId, code: String) -> (command: KernelCommand<S, P>)
        ensures
            command == (KernelCommand::<S, P>::Run { cell_id, code }),
    {
        KernelCommand::Run { cell_id, code }
    }
}

/// A client of a kernel, known by the number of its channel.
#[derive(Clone, Copy, Debug, PartialEq, Eq, Structural)]
pub struct JupyterKernelClient {
    pub channel: u64,
}

impl JupyterKernelClient {
    /// What is asked of the kernel in order to run `cell`.
    pub fn run_cell<S, P>(&self, cell: &Cell, cx: &Buffers) -> (command: KernelCommand<S, P>)
        requires
            cell.source.valid(cx@),
        ensures
            command matches KernelCommand::Run { cell_id, code } && cell_id == cell.id && code@
                == cx@[cell.source.index as int].text,
    {
        let code = cx.read(cell.source).text();
        KernelCommand::run(cell.id, code)
    }
}

/// Why a message did not go into a channel.
#[derive(Clone, Copy, Debug, PartialEq, Eq, Structural)]
pub enum SendFailure {
    Full,
    Closed,
}

/// The place where the messages of a kernel arrive.
#[derive(Clone, Copy, Debug, PartialEq, Eq, Structural)]
pub struct ForwardMessage;

impl ForwardMessage {
    /// What is said of a message that did not go on.
    pub open spec fn send_failure(failure: SendFailure) -> Seq<char> {
        match failure {
            SendFailure::Full => "Failed to send message: \"no available capacity\""@,
            SendFailure::Closed => "Failed to send message: \"channel closed\""@,
        }
    }

    /// The outcome of a message that was read as `read` and, where that is a message, went into
    /// the channel as `sent` says.
    pub fn outcome(read: Result<(), NotebookError>, sent: Result<(), SendFailure>) -> (
        result: Result<(), NotebookError>)
        ensures
            match (read, sent) {
                (Ok(_), Ok(_)) => result is Ok,
                (Ok(_), Err(failure)) => result matches Err(error) && error@
                    == ForwardMessage::send_failure(failure),
                (Err(cause), _) => result matches Err(error) && error@
                    == "Failed to deserialize message: "@ + cause@,
            },
    {
        match read {
            Ok(_) => match sent {
                Ok(_) => Ok(()),
                Err(SendFailure::Full) => Err(
                    NotebookError::new("Failed to send message: \"no available capacity\""),
                ),
                Err(SendFailure::Closed) => Err(
                    NotebookError::new("Failed to send message: \"channel closed\""),
                ),
            },
            Err(cause) => Err(
                NotebookError::caused("Failed to deserialize message: ", cause.message.as_str()),
            ),
        }
    }
}

/// An error that Python raised.
#[derive(Debug)]
pub struct PythonError {
    /// What the error says.
    pub text: String,
    /// The error with all that is known of it.
    pub details: String,
}

/// How far the task that speaks with a kernel has come.
#[derive(Clone, Copy, Debug, PartialEq, Eq, Structural)]
pub enum TaskPhase {
    Connecting,
    CallingStart,
    AwaitingStart,
    CallingListen,
    AwaitingListener,
    AddingHandler,
    Pausing,
    Selecting,
    Acting,
    Finished,
}

/// What happens to the task.
#[derive(Debug)]
pub enum TaskEvent<S, P> {
    /// The latest action came to an end.
    Done(Result<(), PythonError>),
    /// A message arrived, or there will be none.
    Received(Option<Message>),
    /// Something is asked of the kernel, or nothing will be.
    Commanded(Option<KernelCommand<S, P>>),
}

/// What the task does next.
#[derive(Debug)]
pub enum TaskAction<P> {
    Connect,
    StartKernel,
    AwaitStart,
    Listen,
    AwaitListener,
    AddHandler,
    /// Waits for a moment and looks after the listener.
    Pause,
    /// Waits for a message or a command.
    Select,
    Emit(KernelEvent),
    Reply(P),
    Execute { code: String },
    Log { text: String },
    Finish(Result<(), NotebookError>),
}

/// The task that speaks with a kernel.
#[derive(Debug)]
pub struct KernelTask {
    pub phase: TaskPhase,
}

impl TaskPhase {
    /// Whether the phase belongs to the loop in which messages and commands are taken.
    pub open spec fn in_loop(self) -> bool {
        self is Pausing || self is Selecting || self is Acting
    }

    /// Whether `event` can happen in the phase.
    pub open spec fn awaits<S, P>(self, event: TaskEvent<S, P>) -> bool {
        match self {
            TaskPhase::Selecting => event !is Done,
            TaskPhase::Finished => false,
            _ => event is Done,
        }
    }

    /// The phase after `event`.
    pub open spec fn after<S, P>(self, event: TaskEvent<S, P>) -> TaskPhase {
        let failed = event matches TaskEvent::Done(Err(_));
        match self {
            TaskPhase::Connecting => if failed {
                TaskPhase::Finished
            } else {
                TaskPhase::CallingStart
            },
            TaskPhase::CallingStart => if failed {
                TaskPhase::Finished
            } else {
                TaskPhase::AwaitingStart
            },
            TaskPhase::AwaitingStart => TaskPhase::CallingListen,
            TaskPhase::CallingListen => if failed {
                TaskPhase::Finished
            } else {
                TaskPhase::AwaitingListener
            },
            TaskPhase::AwaitingListener => if failed {
                TaskPhase::Finished
            } else {
                TaskPhase::AddingHandler
            },
            TaskPhase::AddingHandler => TaskPhase::Pausing,
            TaskPhase::Pausing => TaskPhase::Selecting,
            TaskPhase::Selecting => match event {
                TaskEvent::Received(Some(_)) => TaskPhase::Acting,
                TaskEvent::Commanded(
                    Some(
                        KernelCommand::Ping { .. }
                        | KernelCommand::Run { .. }
                        | KernelCommand::Log { .. },
                    ),
                ) => TaskPhase::Acting,
                _ => TaskPhase::Pausing,
            },
            TaskPhase::Acting => TaskPhase::Pausing,
            TaskPhase::Finished => TaskPhase::Finished,
        }
    }

    /// Whether an error that ends the latest action is shown by Python itself. One that comes
    /// while connecting is not, and nothing is shown of the others.
    pub open spec fn shows_error<S, P>(self, event: TaskEvent<S, P>) -> bool {
        &&& event matches TaskEvent::Done(Err(_))
        &&& self !is Connecting
        &&& self !is Pausing
    }

    /// What is said when the task ends because of `error`.
    pub open spec fn end_text(self, error: PythonError) -> Seq<char> {
        if self is CallingStart {
            "Failed to call `KernelConnection.start_kernel`: "@ + error.details@
        } else {
            error.text@
        }
    }

    /// Whether `action` is what is done after `event`.
    pub open spec fn leads_to<S, P>(self, event: TaskEvent<S, P>, action: TaskAction<P>) -> bool {
        match self.after(event) {
            TaskPhase::Connecting => action is Connect,
            TaskPhase::CallingStart => action is StartKernel,
            TaskPhase::AwaitingStart => action is AwaitStart,
            TaskPhase::CallingListen => action is Listen,
            TaskPhase::AwaitingListener => action is AwaitListener,
            TaskPhase::AddingHandler => action is AddHandler,
            TaskPhase::Pausing => action is Pause,
            TaskPhase::Selecting => action is Select,
            TaskPhase::Acting => match event {
                TaskEvent::Received(Some(msg)) => action == TaskAction::<P>::Emit(
                    KernelEvent::ReceivedKernelMessage(msg),
                ),
                TaskEvent::Commanded(Some(KernelCommand::Ping { tx })) => action == TaskAction::<
                    P,
                >::Reply(tx),
                TaskEvent::Commanded(Some(KernelCommand::Run { cell_id, code })) => action == (
                TaskAction::<P>::Execute { code }),
                TaskEvent::Commanded(Some(KernelCommand::Log { text })) => action == (TaskAction::<
                    P,
                >::Log { text }),
                _ => false,
            },
            TaskPhase::Finished => event matches TaskEvent::Done(Err(error))
                && action matches TaskAction::Finish(Err(end)) && end@ == self.end_text(error),
        }
    }
}

impl KernelTask {
    /// A task that first connects to the kernel.
    pub fn new<P>() -> (start: (KernelTask, TaskAction<P>))
        ensures
            start.0.phase is Connecting,
            start.1 is Connect,
    {
        (KernelTask { phase: TaskPhase::Connecting }, TaskAction::Connect)
    }

    /// Goes on after `event`. Returns what is done next, and whether Python shows the error that
    /// `event` brought.
    pub fn task<S, P>(&mut self, event: TaskEvent<S, P>) -> (step: (TaskAction<P>, bool))
        requires
            old(self).phase.awaits(event),
        ensures
            final(self).phase == old(self).phase.after(event),
            old(self).phase.leads_to(event, step.0),
            step.1 == old(self).phase.shows_error(event),
    {
        match event {
            TaskEvent::Done(Err(error)) => match self.phase {
                TaskPhase::Connecting => {
                    self.phase = TaskPhase::Finished;
                    (TaskAction::Finish(Err(NotebookError { message: error.text })), false)
                },
                TaskPhase::CallingStart => {
                    self.phase = TaskPhase::Finished;
                    let end = NotebookError::caused(
                        "Failed to call `KernelConnection.start_kernel`: ",
                        error.details.as_str(),
                    );
                    (TaskAction::Finish(Err(end)), true)
                },
                TaskPhase::CallingListen | TaskPhase::AwaitingListener => {
                    self.phase = TaskPhase::Finished;
                    (TaskAction::Finish(Err(NotebookError { message: error.text })), true)
                },
                TaskPhase::AwaitingStart => {
                    self.phase = TaskPhase::CallingListen;
                    (TaskAction::Listen, true)
                },
                TaskPhase::Pausing => {
                    self.phase = TaskPhase::Selecting;
                    (TaskAction::Select, false)
                },
                _ => {
                    self.phase = TaskPhase::Pausing;
                    (TaskAction::Pause, true)
                },
            },
            TaskEvent::Done(Ok(_)) => match self.phase {
                TaskPhase::Connecting => {
                    self.phase = TaskPhase::CallingStart;
                    (TaskAction::StartKernel, false)
                },
                TaskPhase::CallingStart => {
                    self.phase = TaskPhase::AwaitingStart;
                    (TaskAction::AwaitStart, false)
                },
                TaskPhase::AwaitingStart => {
                    self.phase = TaskPhase::CallingListen;
                    (TaskAction::Listen, false)
                },
                TaskPhase::CallingListen => {
                    self.phase = TaskPhase::AwaitingListener;
                    (TaskAction::AwaitListener, false)
                },
                TaskPhase::AwaitingListener => {
                    self.phase = TaskPhase::AddingHandler;
                    (TaskAction::AddHandler, false)
                },
                TaskPhase::Pausing => {
                    self.phase = TaskPhase::Selecting;
                    (TaskAction::Select, false)
                },
                _ => {
                    self.phase = TaskPhase::Pausing;
                    (TaskAction::Pause, false)
                },
            },
            TaskEvent::Received(Some(msg)) => {
                self.phase = TaskPhase::Acting;
                (TaskAction::Emit(KernelEvent::ReceivedKernelMessage(msg)), false)
            },
            TaskEvent::Commanded(Some(KernelCommand::Ping { tx })) => {
                self.phase = TaskPhase::Acting;
                (TaskAction::Reply(tx), false)
            },
            TaskEvent::Commanded(Some(KernelCommand::Run { cell_id: _, code })) => {
                self.phase = TaskPhase::Acting;
                (TaskAction::Execute { code }, false)
            },
            TaskEvent::Commanded(Some(KernelCommand::Log { text })) => {
                self.phase = TaskPhase::Acting;
                (TaskAction::Log { text }, false)
            },
            _ => {
                self.phase = TaskPhase::Pausing;
                (TaskAction::Pause, false)
            },
        }
    }
}

/// The task ends where connecting, asking the kernel to start, asking it to listen, or waiting for
/// the listener fails, and nowhere else. That the start itself fails does not end it, nor does a
/// failure to add the handler.
pub proof fn lemma_what_ends_the_task<S, P>(phase: TaskPhase, event: TaskEvent<S, P>)
    requires
        phase.awaits(event),
    ensures
        phase.after(event) is Finished <==> (event matches TaskEvent::Done(Err(_))) && (
        phase is Connecting || phase is CallingStart || phase is CallingListen
            || phase is AwaitingListener),
{
}

/// Once the loop is reached it is never left, whatever happens.
pub proof fn lemma_loop_is_not_left<S, P>(phase: TaskPhase, event: TaskEvent<S, P>)
    requires
        phase.in_loop(),
        phase.awaits(event),
    ensures
        phase.after(event).in_loop(),
{
}

/// The phase after `events`.
pub open spec fn phase_after<S, P>(phase: TaskPhase, events: Seq<TaskEvent<S, P>>) -> TaskPhase
    decreases events.len(),
{
    if events.len() == 0 {
        phase
    } else {
        phase_after(phase, events.drop_last()).after(events.last())
    }
}

/// Whether a task in `phase` can meet `events`, and does `actions` then, one after each.
pub open spec fn course<S, P>(
    phase: TaskPhase,
    events: Seq<TaskEvent<S, P>>,
    actions: Seq<TaskAction<P>>,
) -> bool
    decreases events.len(),
{
    &&& events.len() == actions.len()
    &&& events.len() > 0 ==> {
        let latest = phase_after(phase, events.drop_last());
        &&& course(phase, events.drop_last(), actions.drop_last())
        &&& latest.awaits(events.last())
        &&& latest.leads_to(events.last(), actions.last())
    }
}

impl<P> TaskAction<P> {
    /// Whether the action answers a message or a command.
    pub open spec fn answers(self) -> bool {
        self is Emit || self is Reply || self is Execute || self is Log
    }
}

impl<S, P> TaskEvent<S, P> {
    /// What answers the event, if it is a message, or a command that asks for something.
    pub open spec fn answer(self) -> Option<TaskAction<P>> {
        match self {
            TaskEvent::Received(Some(msg)) => Some(
                TaskAction::Emit(KernelEvent::ReceivedKernelMessage(msg)),
            ),
            TaskEvent::Commanded(Some(KernelCommand::Ping { tx })) => Some(TaskAction::Reply(tx)),
            TaskEvent::Commanded(Some(KernelCommand::Run { cell_id, code })) => Some(
                TaskAction::Execute { code },
            ),
            TaskEvent::Commanded(Some(KernelCommand::Log { text })) => Some(
                TaskAction::Log { text },
            ),
            _ => None,
        }
    }
}

/// What answers `events`, in order.
pub open spec fn answers_to<S, P>(events: Seq<TaskEvent<S, P>>) -> Seq<TaskAction<P>>
    decreases events.len(),
{
    if events.len() == 0 {
        Seq::empty()
    } else {
        match events.last().answer() {
            Some(action) => answers_to(events.drop_last()).push(action),
            None => answers_to(events.drop_last()),
        }
    }
}

/// Those of `actions` that answer a message or a command, in order.
pub open spec fn answers_among<P>(actions: Seq<TaskAction<P>>) -> Seq<TaskAction<P>>
    decreases actions.len(),
{
    if actions.len() == 0 {
        Seq::empty()
    } else if actions.last().answers() {
        answers_among(actions.drop_last()).push(actions.last())
    } else {
        answers_among(actions.drop_last())
    }
}

/// Whatever happens, each message and each command that asks for something is answered once, in
/// order, and nothing else is answered.
pub proof fn lemma_each_is_answered_once<S, P>(
    phase: TaskPhase,
    events: Seq<TaskEvent<S, P>>,
    actions: Seq<TaskAction<P>>,
)
    requires
        course(phase, events, actions),
    ensures
        answers_among(actions) == answers_to(events),
    decreases events.len(),
{
    if events.len() > 0 {
        lemma_each_is_answered_once(phase, events.drop_last(), actions.drop_last());
    }
}

} // verus!
