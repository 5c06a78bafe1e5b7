use notebook::buffer::{Buffer, Buffers};
use notebook::cell::{CellBuilder, CellId};
use notebook::common::{forward_err_with, NotebookError};
use notebook::jupyter::message::{IoPubSubMessageType, Message, MessageHeader, MessageType};
use notebook::jupyter::python::{CallError, CallStep, Callback, Coroutine, Pydantic};
use notebook::kernel::{
    ForwardMessage, JupyterKernelClient, KernelCommand, KernelEvent, KernelTask, PythonError,
    SendFailure, TaskAction, TaskEvent, TaskPhase,
};
use notebook::open::{OpenAction, OpenFailure, OpenPhase, OpenTask};

type Event = TaskEvent<u8, u8>;
type Call = Coroutine<&'static str, u8, u16>;

fn python_error() -> PythonError {
    PythonError { text: "boom".to_string(), details: "PyErr { boom }".to_string() }
}

fn failure() -> OpenFailure {
    OpenFailure { text: "gone".to_string(), details: "Error(gone)".to_string() }
}

fn message() -> Message {
    let msg_type = MessageType::IoPubSub(IoPubSubMessageType::KernelStatus);
    let header = || MessageHeader {
        msg_id: String::new(),
        session: String::new(),
        username: String::new(),
        date: None,
        msg_type,
        version: String::new(),
    };
    Message {
        header: header(),
        msg_id: "m".to_string(),
        msg_type,
        parent_header: header(),
        metadata: vec![],
        content: vec![],
        buffers: vec![],
    }
}

fn looping() -> KernelTask {
    let (mut task, _): (KernelTask, TaskAction<u8>) = KernelTask::new();
    for _ in 0..7 {
        task.task(Event::Done(Ok(())));
    }
    assert_eq!(task.phase, TaskPhase::Selecting);
    task
}

#[test]
fn the_kernel_task_comes_to_its_loop() {
    let (mut task, first): (KernelTask, TaskAction<u8>) = KernelTask::new();
    assert!(matches!(first, TaskAction::Connect));
    assert!(matches!(task.task(Event::Done(Ok(()))), (TaskAction::StartKernel, false)));
    assert!(matches!(task.task(Event::Done(Ok(()))), (TaskAction::AwaitStart, false)));
    assert!(matches!(task.task(Event::Done(Err(python_error()))), (TaskAction::Listen, true)));
    assert!(matches!(task.task(Event::Done(Ok(()))), (TaskAction::AwaitListener, false)));
    assert!(matches!(task.task(Event::Done(Ok(()))), (TaskAction::AddHandler, false)));
    assert!(matches!(task.task(Event::Done(Err(python_error()))), (TaskAction::Pause, true)));
    assert!(matches!(task.task(Event::Done(Ok(()))), (TaskAction::Select, false)));
}

#[test]
fn the_kernel_task_fails_before_its_loop() {
    let (mut task, _): (KernelTask, TaskAction<u8>) = KernelTask::new();
    let (action, shown) = task.task(Event::Done(Err(python_error())));
    assert!(matches!(action, TaskAction::Finish(Err(error)) if error.message == "boom"));
    assert!(!shown);

    let (mut task, _): (KernelTask, TaskAction<u8>) = KernelTask::new();
    task.task(Event::Done(Ok(())));
    let (action, shown) = task.task(Event::Done(Err(python_error())));
    assert!(matches!(
        action,
        TaskAction::Finish(Err(error))
            if error.message
                == "Failed to call `KernelConnection.start_kernel`: PyErr { boom }"
    ));
    assert!(shown);

    for steps in [3, 4] {
        let (mut task, _): (KernelTask, TaskAction<u8>) = KernelTask::new();
        for _ in 0..steps {
            task.task(Event::Done(Ok(())));
        }
        let (action, shown) = task.task(Event::Done(Err(python_error())));
        assert!(matches!(action, TaskAction::Finish(Err(error)) if error.message == "boom"));
        assert!(shown);
        assert_eq!(task.phase, TaskPhase::Finished);
    }
}

#[test]
fn the_kernel_task_answers_commands() {
    let mut task = looping();
    let (action, _) = task.task(Event::Commanded(Some(KernelCommand::Ping { tx: 5 })));
    assert!(matches!(action, TaskAction::Reply(5)));
    assert!(matches!(task.task(Event::Done(Ok(()))), (TaskAction::Pause, false)));

    let mut task = looping();
    let run = KernelCommand::run(CellId(3), "x".to_string());
    let (action, _) = task.task(Event::Commanded(Some(run)));
    assert!(matches!(action, TaskAction::Execute { code } if code == "x"));
    assert!(matches!(task.task(Event::Done(Err(python_error()))), (TaskAction::Pause, true)));

    let mut task = looping();
    let log = KernelCommand::Log { text: "note".to_string() };
    let (action, _) = task.task(Event::Commanded(Some(log)));
    assert!(matches!(action, TaskAction::Log { text } if text == "note"));
}

#[test]
fn the_kernel_task_passes_messages_on() {
    let mut task = looping();
    let (action, _) = task.task(Event::Received(Some(message())));
    assert!(matches!(
        action,
        TaskAction::Emit(KernelEvent::ReceivedKernelMessage(msg)) if msg.msg_id == "m"
    ));
    let mut task = looping();
    assert!(matches!(task.task(Event::Received(None)), (TaskAction::Pause, false)));
}

#[test]
fn the_kernel_task_ignores_other_commands() {
    let ignored = vec![
        None,
        Some(KernelCommand::Start { tx: 1 }),
        Some(KernelCommand::Stop {}),
        Some(KernelCommand::Interrupt {}),
    ];
    for command in ignored {
        let mut task = looping();
        assert!(matches!(task.task(Event::Commanded(command)), (TaskAction::Pause, false)));
    }
}

#[test]
fn commands_for_the_kernel() {
    let mut cx = Buffers::new();
    let source = cx.new_model(Buffer::local("print()".to_string()));
    let cell = CellBuilder::new(4).source(source).build(&cx);
    let client = JupyterKernelClient { channel: 0 };
    let command: KernelCommand<(), ()> = client.run_cell(&cell, &cx);
    assert!(matches!(
        command,
        KernelCommand::Run { cell_id, code } if cell_id == CellId(4) && code == "print()"
    ));
    let (ping, rx): (KernelCommand<(), u8>, u16) = KernelCommand::ping((1u8, 2u16));
    assert!(matches!(ping, KernelCommand::Ping { tx: 1 }));
    assert_eq!(rx, 2);
}

#[test]
fn messages_that_do_not_go_on() {
    assert!(ForwardMessage::outcome(Ok(()), Ok(())).is_ok());
    let full = ForwardMessage::outcome(Ok(()), Err(SendFailure::Full)).unwrap_err();
    assert_eq!(full.message, "Failed to send message: \"no available capacity\"");
    let closed = ForwardMessage::outcome(Ok(()), Err(SendFailure::Closed)).unwrap_err();
    assert_eq!(closed.message, "Failed to send message: \"channel closed\"");
    let unread = ForwardMessage::outcome(Err(NotebookError::new("why")), Ok(())).unwrap_err();
    assert_eq!(unread.message, "Failed to deserialize message: why");
}

#[test]
fn only_notebooks_are_opened() {
    for path in ["", "/", "a", "a.py", "a.ipynb.bak", ".ipynb", "dir/.ipynb", "a.IPYNB"] {
        assert!(OpenTask::try_open(path, "p".to_string()).is_none(), "{path}");
    }
    let (task, action) = OpenTask::try_open("dir/a.ipynb", "p".to_string()).unwrap();
    assert_eq!(task.path, "p");
    assert_eq!(task.phase, OpenPhase::OpeningFile);
    assert!(matches!(action, OpenAction::OpenFile));
}

#[test]
fn opening_goes_through_its_phases() {
    let (mut task, _) = OpenTask::try_open("a.ipynb", "p".to_string()).unwrap();
    assert!(matches!(task.step(Ok(())), OpenAction::LoadFile));
    assert!(matches!(task.step(Ok(())), OpenAction::ReadFile));
    assert!(matches!(task.step(Ok(())), OpenAction::Deserialize));
    assert!(matches!(task.step(Ok(())), OpenAction::Build));
    assert!(matches!(task.step(Ok(())), OpenAction::StartPython));
    assert!(matches!(task.step(Ok(())), OpenAction::StartClient));
    assert!(matches!(task.step(Ok(())), OpenAction::AddModel));
    assert!(matches!(task.step(Ok(())), OpenAction::Finish(Ok(()))));
    assert_eq!(task.phase, OpenPhase::Finished);
}

#[test]
fn opening_fails_with_what_went_wrong() {
    let expected = [
        "Failed to open file: Error(gone)",
        "gone",
        "Failed to read notebook from notebook file `p`: Error(gone)",
        "Failed to deserialize notebook from path `p`: Error(gone)",
        "gone",
        "gone",
        "gone",
        "gone",
    ];
    for (steps, expected) in expected.iter().enumerate() {
        let (mut task, _) = OpenTask::try_open("a.ipynb", "p".to_string()).unwrap();
        for _ in 0..steps {
            task.step(Ok(()));
        }
        let action = task.step(Err(failure()));
        assert!(matches!(action, OpenAction::Finish(Err(error)) if error.message == *expected));
        assert_eq!(task.phase, OpenPhase::Finished);
    }
}

#[test]
fn a_coroutine_is_called_once() {
    let mut coroutine: Call = Coroutine { coro: "c", callback: Some(Callback::new((1, 2))) };
    let failed: CallStep<u8, u16, &str> = coroutine.call(Err("raised"));
    assert!(matches!(failed, CallStep::Fail(CallError::Raised("raised"))));
    let step: CallStep<u8, u16, &str> = coroutine.call(Ok(()));
    let CallStep::Await { mut callback, rx } = step else {
        panic!("not waited for");
    };
    assert_eq!(rx, Some(2));
    let again: CallStep<u8, u16, &str> = coroutine.call(Ok(()));
    assert!(matches!(
        again,
        CallStep::Fail(CallError::Runtime(error)) if error.message == "Nope"
    ));

    let failed: (Option<(u8, i32)>, Result<(), &str>) = callback.call(Err("e"));
    assert_eq!(failed, (None, Err("e")));
    let sent: (Option<(u8, i32)>, Result<(), &str>) = callback.call(Ok(7));
    assert_eq!(sent, (Some((1, 7)), Ok(())));
    let nothing: (Option<(u8, i32)>, Result<(), &str>) = callback.call(Ok(8));
    assert_eq!(nothing, (None, Ok(())));
}

#[test]
fn results_of_a_coroutine() {
    let value = Call::received::<i32, &str>(Some(Ok(Ok(1))), 0);
    assert!(matches!(value, Ok(1)));
    let raised = Call::received::<i32, &str>(Some(Ok(Err("e"))), 0);
    assert!(matches!(raised, Err(CallError::Raised("e"))));
    let lost = Call::received::<i32, &str>(Some(Err("RecvError".to_string())), 0);
    assert!(matches!(
        lost,
        Err(CallError::Runtime(error))
            if error.message == "Error receiving result: RecvError"
    ));
    assert!(matches!(Call::received::<i32, &str>(None, 0), Ok(0)));
}

#[test]
fn models_that_are_not_described() {
    assert_eq!(Pydantic::dumped::<()>(Ok("{}".to_string())).unwrap(), "{}");
    assert_eq!(Pydantic::dumped(Err(())).unwrap_err().message, "Failed to dump model");
}

#[test]
fn errors_are_passed_on() {
    let forward = forward_err_with(|code: u8| format!("code {code}"));
    assert_eq!(forward(3).message, "code 3");
    assert_eq!(NotebookError::caused("a: ", "b").message, "a: b");
}

#[test]
fn extensions_are_those_of_the_path() {
    let notebooks = [
        "a.ipynb", "/a.ipynb", "./a.ipynb", "x/../a.ipynb", "a.b.ipynb", "..ipynb", "a.ipynb/",
        "a.ipynb//", "a.ipynb/.", "a.ipynb/./", "é.ipynb",
    ];
    for path in notebooks {
        assert!(OpenTask::try_open(path, String::new()).is_some(), "{path}");
    }
    let others = [
        "a.ipynb/..", "a.ipynb/b", ".", "..", "...", "./", "../..", ".ipynb", "..ipynb/..", "a.",
        "ipynb", "a/.ipynb",
    ];
    for path in others {
        assert!(OpenTask::try_open(path, String::new()).is_none(), "{path}");
    }
}

#[test]
fn extensions_of_the_platform() {
    for path in ["C:.ipynb", "C:\\a.ipynb", "a.ipynb\\b", "//a/b.ipynb", "\\\\?\\a.ipynb"] {
        let extension = std::path::Path::new(path).extension().and_then(|found| found.to_str());
        let task = OpenTask::try_open(path, String::new());
        assert_eq!(task.is_some(), extension == Some("ipynb"), "{path}");
        assert_eq!(OpenTask::begin(extension, String::new()).is_some(), task.is_some());
    }
    assert!(OpenTask::begin(None, String::new()).is_none());
}

#[test]
fn each_message_and_command_is_answered_once() {
    type Event = TaskEvent<u8, u8>;
    let events: Vec<Event> = vec![
        TaskEvent::Commanded(Some(KernelCommand::Log { text: "a".to_string() })),
        TaskEvent::Commanded(None),
        TaskEvent::Received(None),
        TaskEvent::Commanded(Some(KernelCommand::Ping { tx: 3 })),
        TaskEvent::Commanded(Some(KernelCommand::Stop {})),
        TaskEvent::Commanded(Some(KernelCommand::Run { cell_id: CellId(1), code: "b".to_string() })),
    ];
    let mut task = KernelTask { phase: TaskPhase::Selecting };
    let mut answers = Vec::new();
    for event in events {
        let (mut action, _): (TaskAction<u8>, bool) = task.task(event);
        while !matches!(action, TaskAction::Select) {
            match action {
                TaskAction::Log { text } => answers.push(text),
                TaskAction::Reply(tx) => answers.push(tx.to_string()),
                TaskAction::Execute { code } => answers.push(code),
                _ => {}
            }
            let done: Event = TaskEvent::Done(Ok(()));
            action = task.task(done).0;
        }
    }
    assert_eq!(answers, vec!["a", "3", "b"]);
}
