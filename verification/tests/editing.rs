use notebook::buffer::{Buffer, BufferId, Buffers, Language};
use notebook::cell::{CellBuilder, CellId, CellType, ExecutionState};
use notebook::cells::{Bias, Cells};
use notebook::chat::{Chat, Role, TurnEvent, TurnStep};
use notebook::chat_turn::AnswerEvent;
use notebook::common::NotebookError;
use notebook::editor::NotebookEditor;
use notebook::json::Json;
use notebook::jupyter::message::{IoPubSubMessageType, Message, MessageHeader, MessageType};
use notebook::kernel::{JupyterKernelClient, KernelCommand, KernelEvent};
use notebook::notebook::Notebook;
use notebook::run::RunAction;
use notebook::summary::Point;

type Command = KernelCommand<(), ()>;

fn language() -> Language {
    Language {
        name: "Python".to_string(),
        block_comment_delimiters: Some(("\"\"\"".to_string(), "\"\"\"".to_string())),
    }
}

fn editor(texts: &[&str], client: bool, cx: &mut Buffers) -> NotebookEditor {
    let mut builders = Vec::new();
    for (i, text) in texts.iter().enumerate() {
        let source = cx.new_model(Buffer::local(text.to_string()));
        builders.push(CellBuilder::new(i as u64 + 1).source(source));
    }
    let notebook = Notebook {
        file: None,
        language: Some(language()),
        metadata: None,
        nbformat: 4,
        nbformat_minor: 5,
        cells: Cells::from_builders(builders, cx),
        client_handle: if client { Some(JupyterKernelClient { channel: 1 }) } else { None },
    };
    NotebookEditor::new(notebook, "gpt-4-turbo".to_string(), cx)
}

fn source(editor: &NotebookEditor, index: usize) -> BufferId {
    editor.notebook.cells.iter()[index].source
}

fn texts(editor: &NotebookEditor, cx: &Buffers) -> Vec<String> {
    editor.notebook.cells.iter().iter().map(|cell| cx.read(cell.source).text()).collect()
}

fn shown(editor: &NotebookEditor) -> Vec<BufferId> {
    editor.notebook.cells.multi.excerpts.iter().map(|excerpt| excerpt.buffer).collect()
}

fn handles(editor: &NotebookEditor) -> Vec<BufferId> {
    editor.notebook.cells.iter().iter().flat_map(|cell| cell.buffer_handles()).collect()
}

#[test]
fn focus_goes_to_the_first_row_of_a_cell() {
    let mut cx = Buffers::new();
    let mut editor = editor(&["a\nb\n", "c\n", "d\n"], false, &mut cx);
    assert_eq!(editor.focus_cell(&CellId(1), &cx), Some(Point { row: 0, column: 0 }));
    assert_eq!(editor.focus_cell(&CellId(2), &cx), Some(Point { row: 3, column: 0 }));
    assert_eq!(editor.focus_cell(&CellId(3), &cx), Some(Point { row: 5, column: 0 }));
    assert_eq!(editor.focus_cell(&CellId(4), &cx), None);
}

#[test]
fn editors_are_remembered_by_their_kind() {
    assert_eq!(NotebookEditor::serialized_item_kind(), Some("NotebookEditor"));
}

#[test]
fn focus_follows_the_text() {
    let mut cx = Buffers::new();
    let mut editor = editor(&["a\n", "b\n"], false, &mut cx);
    cx.set_text(source(&editor, 0), "a\n\n\n".to_string());
    assert_eq!(editor.focus_cell(&CellId(2), &cx), Some(Point { row: 4, column: 0 }));
}

#[test]
fn active_cell_is_found_by_its_source() {
    let mut cx = Buffers::new();
    let editor = editor(&["a\n", "b\n"], false, &mut cx);
    assert_eq!(editor.active_cell(Some(source(&editor, 1))).unwrap().id, CellId(2));
    assert!(editor.active_cell(None).is_none());
    assert!(editor.active_cell(Some(BufferId { index: 50 })).is_none());
}

#[test]
fn cells_are_inserted_beside_the_active_one() {
    let mut cx = Buffers::new();
    let mut editor = editor(&["a\n", "b\n"], false, &mut cx);
    let active = Some(source(&editor, 1));
    let above = editor.insert_cell_above(active, &mut cx);
    assert_eq!(above, Some((CellId(2), Some(Point { row: 2, column: 0 }))));
    assert_eq!(texts(&editor, &cx), vec!["a\n", "\n", "b\n"]);
    let below = editor.insert_cell_below(active, &mut cx);
    assert_eq!(below, Some((CellId(4), Some(Point { row: 6, column: 0 }))));
    assert_eq!(texts(&editor, &cx), vec!["a\n", "\n", "b\n", "\n"]);
    assert_eq!(shown(&editor), handles(&editor));
    assert_eq!(cx.read(source(&editor, 1)).language().unwrap().name, "Python");
}

#[test]
fn chat_cells_have_no_language() {
    let mut cx = Buffers::new();
    let mut editor = editor(&["a\n"], false, &mut cx);
    let active = Some(source(&editor, 0));
    editor.new_chat_cell(active, &mut cx).unwrap();
    assert_eq!(editor.notebook.cells.iter()[1].cell_type, CellType::Chat);
    assert!(cx.read(source(&editor, 1)).language().is_none());
}

#[test]
fn nothing_is_inserted_without_an_active_cell() {
    let mut cx = Buffers::new();
    let mut editor = editor(&["a\n"], false, &mut cx);
    assert!(editor.insert_cell(None, Bias::Left, None, &mut cx).is_none());
    let other = Some(BufferId { index: 9 });
    assert!(editor.insert_cell(other, Bias::Left, None, &mut cx).is_none());
    assert_eq!(cx.models.len(), 1);
}

#[test]
fn running_code_asks_the_kernel() {
    let mut cx = Buffers::new();
    let mut editor = editor(&["1 + 1\n", "b\n"], true, &mut cx);
    let active = Some(source(&editor, 0));
    let (point, action): (_, RunAction<(), ()>) =
        editor.run_current_cell(active, &mut cx).unwrap();
    assert_eq!(point, Some(Point { row: 2, column: 0 }));
    assert!(matches!(
        action,
        RunAction::Run(KernelCommand::Run { cell_id, code })
            if cell_id == CellId(1) && code == "1 + 1\n"
    ));
}

#[test]
fn running_without_a_client_or_a_cell() {
    let mut cx = Buffers::new();
    let mut editor = editor(&["a\n"], false, &mut cx);
    let active = Some(source(&editor, 0));
    let (point, action): (_, RunAction<(), ()>) =
        editor.run_current_cell(active, &mut cx).unwrap();
    assert_eq!(point, None);
    assert!(matches!(action, RunAction::Nothing));
    let none: Option<(_, RunAction<(), ()>)> = editor.run_current_cell(None, &mut cx);
    assert!(none.is_none());
    editor.notebook.cells.tree[0].cell_type = CellType::Markdown;
    editor.notebook.client_handle = Some(JupyterKernelClient { channel: 1 });
    let (_, action): (_, RunAction<(), ()>) = editor.run_current_cell(active, &mut cx).unwrap();
    assert!(matches!(action, RunAction::Nothing));
}

#[test]
fn a_selection_is_run_on_its_own() {
    let mut cx = Buffers::new();
    let mut editor = editor(&["x\n", "one\ntwo\nthree\n", "y\n"], true, &mut cx);
    let active = Some(source(&editor, 1));
    let command: Option<Command> =
        editor.run_current_selection(active, vec![(4, 8)], &mut cx);
    assert!(matches!(
        command,
        Some(KernelCommand::Run { cell_id, code }) if cell_id == CellId(2) && code == "two\n"
    ));
    assert_eq!(texts(&editor, &cx), vec!["x\n", "one\n", "two\n", "three\n", "y\n"]);
    let numbers: Vec<u64> = editor.notebook.cells.iter().iter().map(|cell| cell.id.0).collect();
    assert_eq!(numbers, vec![1, 2, 3, 4, 5]);
    assert_eq!(shown(&editor), handles(&editor));
    assert_eq!(Some(source(&editor, 2)), active);
    assert_eq!(cx.read(source(&editor, 1)).language().unwrap().name, "Python");
}

#[test]
fn a_selection_of_everything() {
    let mut cx = Buffers::new();
    let mut editor = editor(&["é\n"], false, &mut cx);
    let active = Some(source(&editor, 0));
    let command: Option<Command> =
        editor.run_current_selection(active, vec![(0, 3)], &mut cx);
    assert!(command.is_none());
    assert_eq!(texts(&editor, &cx), vec!["", "é\n", ""]);
}

#[test]
fn selections_that_are_not_run() {
    let mut cx = Buffers::new();
    let mut editor = editor(&["a\n"], true, &mut cx);
    let active = Some(source(&editor, 0));
    let none: Option<Command> = editor.run_current_selection(active, vec![], &mut cx);
    assert!(none.is_none());
    let two: Option<Command> =
        editor.run_current_selection(active, vec![(0, 1), (1, 2)], &mut cx);
    assert!(two.is_none());
    let elsewhere: Option<Command> = editor.run_current_selection(None, vec![(0, 1)], &mut cx);
    assert!(elsewhere.is_none());
    assert_eq!(texts(&editor, &cx), vec!["a\n"]);
}

#[test]
fn kernel_messages_reach_the_cell() {
    let mut cx = Buffers::new();
    let mut editor = editor(&["a\n"], true, &mut cx);
    let msg_type = MessageType::IoPubSub(IoPubSubMessageType::Stream);
    let header = || MessageHeader {
        msg_id: String::new(),
        session: String::new(),
        username: String::new(),
        date: None,
        msg_type,
        version: String::new(),
    };
    let msg = Message {
        header: header(),
        msg_id: String::new(),
        msg_type,
        parent_header: header(),
        metadata: vec![],
        content: vec![("text".to_string(), Json::String("out".to_string()))],
        buffers: vec![],
    };
    editor
        .handle_kernel_event(KernelEvent::ReceivedKernelMessage(msg), &CellId(1), &mut cx)
        .unwrap();
    let output = editor.notebook.cells.iter()[0].output_content.unwrap();
    assert_eq!(cx.read(output).text(), "out");
}

#[test]
fn the_system_prompt_shows_the_notebook() {
    let mut cx = Buffers::new();
    let mut editor = editor(&["a", "b"], false, &mut cx);
    let first = source(&editor, 0);
    cx.set_language(first, Some(language()));
    let second = source(&editor, 1);
    cx.set_language(
        second,
        Some(Language { name: "Text".to_string(), block_comment_delimiters: None }),
    );
    editor.chat = Chat::new("m".to_string(), &editor.notebook, &cx);
    assert_eq!(editor.chat.messages.len(), 1);
    assert_eq!(editor.chat.messages[0].role, Role::System);
    let expected = "You are a coding and research assistant specializing in the analysis of interactive notebooks.\n\
        A notebook state is included below.\n\
        Each cell is denoted by a code block including the source code of the cell and a leading comment indicating the ID of the cell.\n\
        \n\n\
        ```Python\n\"\"\"\nSource code for Cell 1\n\"\"\"\na\n```\n\n\
        ```Text\nb\n```";
    assert_eq!(editor.chat.messages[0].content, expected);
}

#[test]
fn the_system_prompt_of_an_empty_notebook() {
    let mut cx = Buffers::new();
    let editor = editor(&[], false, &mut cx);
    assert!(editor.chat.messages[0].content.ends_with("ID of the cell.\n\n\n"));
}

#[test]
fn a_chat_cell_is_asked_and_answered() {
    let mut cx = Buffers::new();
    let mut editor = editor(&["question\n", "z\n"], false, &mut cx);
    editor.notebook.cells.tree[0].cell_type = CellType::Chat;
    let active = Some(source(&editor, 0));
    let (point, action): (_, RunAction<(), ()>) =
        editor.run_current_cell(active, &mut cx).unwrap();
    assert_eq!(point, Some(Point { row: 2, column: 0 }));
    let RunAction::Answer(mut turn, request) = action else {
        panic!("no answer");
    };
    assert_eq!(request.model, "gpt-4-turbo");
    assert_eq!(request.messages.len(), 2);
    assert_eq!(request.messages[1].role, Role::User);
    assert_eq!(request.messages[1].content, "question\n");
    assert!(request.stop.is_empty());
    assert_eq!(turn.cell_id, CellId(1));
    assert_eq!(turn.offset, 0);
    assert!(matches!(
        editor.notebook.cells.iter()[0].state,
        Some(ExecutionState::Running(_))
    ));
    assert_eq!(shown(&editor), handles(&editor));

    editor.receive_delta(&mut turn, "Hello".to_string(), &mut cx).unwrap();
    editor.receive_delta(&mut turn, ", world".to_string(), &mut cx).unwrap();
    assert_eq!(turn.offset, 12);
    editor.finish_answer(&turn, &mut cx);
    assert_eq!(cx.read(turn.output).text(), "Hello, world\n");
    assert!(matches!(
        editor.notebook.cells.iter()[0].state,
        Some(ExecutionState::Succeeded(_))
    ));
}

#[test]
fn long_lines_of_an_answer_break() {
    let mut cx = Buffers::new();
    let mut editor = editor(&["q\n"], false, &mut cx);
    let (mut turn, _) = editor.next_chat_turn(&CellId(1), &mut cx);
    let long = "x".repeat(95);
    editor.receive_delta(&mut turn, long.clone(), &mut cx).unwrap();
    editor.receive_delta(&mut turn, ".".to_string(), &mut cx).unwrap();
    editor.receive_delta(&mut turn, ")".to_string(), &mut cx).unwrap();
    editor.receive_delta(&mut turn, "é".to_string(), &mut cx).unwrap();
    editor.receive_delta(&mut turn, " next".to_string(), &mut cx).unwrap();
    assert_eq!(cx.read(turn.output).text(), format!("{long}.)é\nnext"));
    editor.receive_delta(&mut turn, "y".repeat(93), &mut cx).unwrap();
    let text = cx.read(turn.output).text();
    assert_eq!(text, format!("{long}.)é\nnext\n{}", "y".repeat(93)));
    assert_eq!(turn.offset, text.len());
    editor.receive_delta(&mut turn, String::new(), &mut cx).unwrap();
    assert_eq!(cx.read(turn.output).text(), text);
}

#[test]
fn pieces_go_where_the_answer_is() {
    let mut cx = Buffers::new();
    let mut editor = editor(&["q\n"], false, &mut cx);
    let (mut turn, _) = editor.next_chat_turn(&CellId(1), &mut cx);
    editor.receive_delta(&mut turn, "ab".to_string(), &mut cx).unwrap();
    cx.set_text(turn.output, "ab (mine)".to_string());
    editor.receive_delta(&mut turn, "cd".to_string(), &mut cx).unwrap();
    assert_eq!(cx.read(turn.output).text(), "abcd (mine)");
}

#[test]
fn an_answer_that_is_no_longer_shown() {
    let mut cx = Buffers::new();
    let mut editor = editor(&["q\n"], false, &mut cx);
    let (mut turn, _) = editor.next_chat_turn(&CellId(1), &mut cx);
    let (_second, _) = editor.next_chat_turn(&CellId(1), &mut cx);
    let error = editor.receive_delta(&mut turn, "x".to_string(), &mut cx).unwrap_err();
    assert_eq!(error.message, "Failed to obtain buffer handle");
    assert_eq!(cx.read(turn.output).text(), "");
    editor.fail_answer(&turn, &mut cx);
    assert!(matches!(
        editor.notebook.cells.iter()[0].state,
        Some(ExecutionState::Failed(_))
    ));
}

/// Runs a turn of the chat: the parts that were handed out, and how it ended.
fn run_turn(
    opened: Result<(), u8>,
    items: Vec<Result<&str, u8>>,
    fails_at: Option<usize>,
) -> (Vec<String>, Result<(), u8>) {
    let mut items = items.into_iter();
    let mut parts = Vec::new();
    let mut event = TurnEvent::Opened(opened);
    loop {
        event = match Chat::turn_step(event) {
            TurnStep::Await => {
                TurnEvent::Item(items.next().map(|item| item.map(|part| part.to_string())))
            }
            TurnStep::HandOut(part) => {
                let failed = fails_at == Some(parts.len());
                parts.push(part);
                TurnEvent::HandedOut(if failed { Err(9) } else { Ok(()) })
            }
            TurnStep::Finish(result) => return (parts, result),
        };
    }
}

#[test]
fn a_turn_hands_out_all_parts() {
    let (parts, result) = run_turn(Ok(()), vec![Ok("a"), Ok(""), Ok("b")], None);
    assert_eq!(parts, vec!["a", "", "b"]);
    assert_eq!(result, Ok(()));
}

#[test]
fn a_turn_that_does_not_begin() {
    assert_eq!(run_turn(Err(7), vec![Ok("a")], None), (vec![], Err(7)));
}

#[test]
fn a_part_that_fails_to_come_ends_a_turn_well() {
    let (parts, result) = run_turn(Ok(()), vec![Ok("a"), Err(5), Ok("b")], None);
    assert_eq!(parts, vec!["a"]);
    assert_eq!(result, Ok(()));
}

#[test]
fn the_first_part_that_cannot_be_used_ends_a_turn() {
    let (parts, result) = run_turn(Ok(()), vec![Ok("a"), Ok("b"), Ok("c")], Some(1));
    assert_eq!(parts, vec!["a", "b"]);
    assert_eq!(result, Err(9));
}

fn piece(content: &str) -> AnswerEvent {
    AnswerEvent::Item(Some(Ok(content.to_string())))
}

#[test]
fn an_answer_that_comes_to_its_end_succeeds() {
    let mut cx = Buffers::new();
    let mut editor = editor(&["q\n", "z\n"], false, &mut cx);
    let (mut turn, _) = editor.next_chat_turn(&CellId(1), &mut cx);
    assert!(!editor.answer_event(&mut turn, AnswerEvent::Opened(Ok(())), &mut cx));
    assert_eq!(cx.read(turn.output).text(), "");
    assert!(!editor.answer_event(&mut turn, piece("one"), &mut cx));
    assert!(!editor.answer_event(&mut turn, piece(" two"), &mut cx));
    assert_eq!(turn.offset, 7);
    assert!(matches!(
        editor.notebook.cells.iter()[0].state,
        Some(ExecutionState::Running(_))
    ));
    assert!(editor.answer_event(&mut turn, AnswerEvent::Item(None), &mut cx));
    assert_eq!(cx.read(turn.output).text(), "one two\n");
    assert!(matches!(
        editor.notebook.cells.iter()[0].state,
        Some(ExecutionState::Succeeded(_))
    ));
    let shown = editor.notebook.cells.multi.excerpts[1];
    assert_eq!(shown.buffer, turn.output);
    assert_eq!(shown.range(&cx), (0, 8));
}

#[test]
fn an_answer_that_breaks_off_fails() {
    let mut cx = Buffers::new();
    let mut editor = editor(&["q\n"], false, &mut cx);
    let (mut turn, _) = editor.next_chat_turn(&CellId(1), &mut cx);
    assert!(!editor.answer_event(&mut turn, AnswerEvent::Opened(Ok(())), &mut cx));
    assert!(!editor.answer_event(&mut turn, piece("one"), &mut cx));
    let failed = AnswerEvent::Item(Some(Err(NotebookError::new("lost"))));
    assert!(editor.answer_event(&mut turn, failed, &mut cx));
    assert_eq!(cx.read(turn.output).text(), "one");
    assert!(matches!(
        editor.notebook.cells.iter()[0].state,
        Some(ExecutionState::Failed(_))
    ));
}

#[test]
fn an_answer_that_does_not_begin_fails() {
    let mut cx = Buffers::new();
    let mut editor = editor(&["q\n"], false, &mut cx);
    let (mut turn, _) = editor.next_chat_turn(&CellId(1), &mut cx);
    let failed = AnswerEvent::Opened(Err(NotebookError::new("no model")));
    assert!(editor.answer_event(&mut turn, failed, &mut cx));
    assert_eq!(cx.read(turn.output).text(), "");
    assert!(matches!(
        editor.notebook.cells.iter()[0].state,
        Some(ExecutionState::Failed(_))
    ));
}

#[test]
fn lines_of_an_answer_end_with_line_feeds() {
    let mut cx = Buffers::new();
    let mut editor = editor(&["q\n"], false, &mut cx);
    let (mut turn, _) = editor.next_chat_turn(&CellId(1), &mut cx);
    assert!(!editor.answer_event(&mut turn, piece("a\r\nb"), &mut cx));
    assert_eq!(cx.read(turn.output).text(), "a\nb");
    assert_eq!(turn.offset, 4);
}

#[test]
fn identities_of_excerpts_after_an_insertion() {
    let mut cx = Buffers::new();
    let mut editor = editor(&["a\n", "b\n", "c\n"], false, &mut cx);
    let active = Some(source(&editor, 1));
    assert_eq!(editor.notebook.cells.multi.next_id, 4);
    editor.insert_cell_below(active, &mut cx).unwrap();
    assert_eq!(editor.notebook.cells.multi.next_id, 6);
    editor.insert_cell_above(active, &mut cx).unwrap();
    assert_eq!(editor.notebook.cells.multi.next_id, 10);
    let command: Option<Command> = editor.run_current_selection(active, vec![(0, 1)], &mut cx);
    assert!(command.is_none());
    assert_eq!(editor.notebook.cells.multi.next_id, 17);
    assert_eq!(shown(&editor), handles(&editor));
    assert!(editor.notebook.cells.is_in_order(&cx));
}

#[test]
fn room_for_more_cells() {
    let mut cx = Buffers::new();
    let mut editor = editor(&["a\n", "b\n"], false, &mut cx);
    assert!(editor.can_take(0, &cx));
    assert!(editor.can_take(1, &cx));
    assert!(!editor.can_take(u32::MAX, &cx));
    editor.notebook.cells.multi.next_id = u64::MAX - 3;
    assert!(editor.can_take(1, &cx));
    editor.notebook.cells.multi.next_id = u64::MAX - 2;
    assert!(!editor.can_take(1, &cx));
    assert!(editor.can_take(0, &cx));
    editor.notebook.cells.tree[0].id = CellId(2);
    assert!(!editor.can_take(0, &cx));
}

#[test]
fn what_can_be_split() {
    let mut cx = Buffers::new();
    let mut editor = editor(&["aé\n"], false, &mut cx);
    let active = Some(source(&editor, 0));
    assert!(editor.can_split(active, &vec![(0, 1)], &cx));
    assert!(editor.can_split(active, &vec![(1, 4)], &cx));
    assert!(!editor.can_split(active, &vec![(1, 2)], &cx));
    assert!(!editor.can_split(active, &vec![(1, 0)], &cx));
    assert!(!editor.can_split(active, &vec![(0, 5)], &cx));
    assert!(editor.can_split(active, &vec![(0, 5), (0, 5)], &cx));
    assert!(editor.can_split(None, &vec![(0, 5)], &cx));
    editor.notebook.cells.multi.next_id = u64::MAX;
    assert!(!editor.can_split(None, &vec![], &cx));
}

#[test]
fn what_can_be_printed_and_received() {
    let mut cx = Buffers::new();
    let mut editor = editor(&["q\n"], false, &mut cx);
    let (mut turn, _) = editor.next_chat_turn(&CellId(1), &mut cx);
    assert!(turn.can_receive("abc", &cx));
    assert!(!editor.answer_event(&mut turn, piece("é"), &mut cx));
    turn.offset = 1;
    assert!(!turn.can_receive("abc", &cx));
    turn.offset = 3;
    assert!(!turn.can_receive("", &cx));
    turn.offset = 0;
    assert!(turn.can_receive("", &cx));

    let header = MessageHeader {
        msg_id: String::new(),
        session: String::new(),
        username: String::new(),
        date: None,
        msg_type: MessageType::IoPubSub(IoPubSubMessageType::Stream),
        version: String::new(),
    };
    let msg = Message {
        header: MessageHeader { msg_id: String::new(), ..header },
        msg_id: String::new(),
        msg_type: MessageType::IoPubSub(IoPubSubMessageType::Stream),
        parent_header: MessageHeader {
            msg_id: String::new(),
            session: String::new(),
            username: String::new(),
            date: None,
            msg_type: MessageType::IoPubSub(IoPubSubMessageType::Stream),
            version: String::new(),
        },
        metadata: vec![],
        content: vec![("text".to_string(), Json::String("x".to_string()))],
        buffers: vec![],
    };
    assert!(editor.notebook.cells.can_print(&CellId(1), &msg, &cx));
    assert!(editor.notebook.cells.can_print(&CellId(9), &msg, &cx));
    assert!(!editor.notebook.cells.can_print(&CellId(1), &msg, &Buffers::new()));
    editor.notebook.cells.multi.next_id = u64::MAX;
    assert!(!editor.notebook.cells.can_print(&CellId(1), &msg, &cx));
}
