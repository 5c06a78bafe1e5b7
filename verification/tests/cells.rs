use notebook::buffer::{Buffer, BufferId, Buffers};
use notebook::cell::{Cell, CellBuilder, CellId, CellType};
use notebook::cell_summary::CellSummary;
use notebook::cells::{count_before, excerpt_ids_for_cell, Bias, Cells};
use notebook::json::{Json, JsonNumber};
use notebook::jupyter::message::{
    IoPubSubMessageType, Message, MessageHeader, MessageType, ShellMessageType,
};
use notebook::multi_buffer::{Anchor, ExcerptId, MultiBuffer};
use notebook::summary::{Point, TextSummary};

fn cell(id: u64, text: &str, cx: &mut Buffers) -> Cell {
    let source = cx.new_model(Buffer::local(text.to_string()));
    CellBuilder::new(id).source(source).build(cx)
}

fn three(cx: &mut Buffers) -> Cells {
    let mut cells = Cells::new();
    let list = vec![cell(1, "a\n", cx), cell(2, "b\n", cx), cell(3, "c\n", cx)];
    cells.insert(list, cx);
    cells
}

fn texts(cells: &Cells, cx: &Buffers) -> Vec<String> {
    cells.iter().iter().map(|cell| cx.read(cell.source).text()).collect()
}

fn numbers(cells: &Cells) -> Vec<u64> {
    cells.iter().iter().map(|cell| cell.id.0).collect()
}

fn shown(cells: &Cells) -> Vec<BufferId> {
    cells.multi.excerpts.iter().map(|excerpt| excerpt.buffer).collect()
}

fn handles(cells: &Cells) -> Vec<BufferId> {
    cells.iter().iter().flat_map(|cell| cell.buffer_handles()).collect()
}

fn header(msg_type: MessageType) -> MessageHeader {
    MessageHeader {
        msg_id: "1".to_string(),
        session: "s".to_string(),
        username: "u".to_string(),
        date: None,
        msg_type,
        version: "5.3".to_string(),
    }
}

fn message(msg_type: MessageType, content: Vec<(&str, Json)>) -> Message {
    Message {
        header: header(msg_type),
        msg_id: "1".to_string(),
        msg_type,
        parent_header: header(msg_type),
        metadata: vec![],
        content: content.into_iter().map(|(key, value)| (key.to_string(), value)).collect(),
        buffers: vec![],
    }
}

fn stream(text: &str) -> Message {
    message(
        MessageType::IoPubSub(IoPubSubMessageType::Stream),
        vec![("name", Json::String("stdout".to_string())), ("text", Json::String(text.to_string()))],
    )
}

#[test]
fn inserting_moves_what_follows() {
    let mut cx = Buffers::new();
    let mut cells = three(&mut cx);
    let new = cell(2, "new\n", &mut cx);
    cells.insert(vec![new], &mut cx);
    assert_eq!(texts(&cells, &cx), vec!["a\n", "new\n", "b\n", "c\n"]);
    assert_eq!(numbers(&cells), vec![1, 2, 3, 4]);
    assert_eq!(shown(&cells), handles(&cells));
    let title = &cx.read(cells.iter()[3].source).file().unwrap().title;
    assert_eq!(title[1], "Cell 4");
}

#[test]
fn inserting_at_both_ends() {
    let mut cx = Buffers::new();
    let mut cells = three(&mut cx);
    let last = cell(4, "last\n", &mut cx);
    cells.insert(vec![last], &mut cx);
    let first = cell(1, "first\n", &mut cx);
    cells.insert(vec![first], &mut cx);
    assert_eq!(texts(&cells, &cx), vec!["first\n", "a\n", "b\n", "c\n", "last\n"]);
    assert_eq!(shown(&cells), handles(&cells));
}

#[test]
fn inserting_nothing_changes_nothing() {
    let mut cx = Buffers::new();
    let mut cells = three(&mut cx);
    cells.insert(vec![], &mut cx);
    assert_eq!(texts(&cells, &cx), vec!["a\n", "b\n", "c\n"]);
    assert_eq!(cells.multi.next_id, 4);
}

#[test]
fn cells_are_found_by_number_and_by_source() {
    let mut cx = Buffers::new();
    let cells = three(&mut cx);
    assert_eq!(cells.get_cell_by_id(&CellId(2)).unwrap().id, CellId(2));
    assert!(cells.get_cell_by_id(&CellId(4)).is_none());
    assert_eq!(cells.get_cell_by_id(&CellId(0)).unwrap().id, CellId(1));
    let source = cells.iter()[2].source;
    assert_eq!(cells.get_cell_by_buffer(source).unwrap().id, CellId(3));
    assert!(cells.get_cell_by_buffer(BufferId { index: 99 }).is_none());
}

#[test]
fn places_between_cells() {
    assert_eq!(count_before(3, CellId(2), Bias::Left), 1);
    assert_eq!(count_before(3, CellId(2), Bias::Right), 2);
    assert_eq!(count_before(3, CellId(0), Bias::Left), 0);
    assert_eq!(count_before(3, CellId(9), Bias::Left), 3);
}

#[test]
fn summaries_of_cells() {
    let mut cx = Buffers::new();
    let cells = three(&mut cx);
    let summary = cells.summary();
    assert_eq!(summary.num_cells_inclusive, 3);
    assert_eq!(summary.text_summary.lines, Point { row: 6, column: 0 });
    let mut cursor = cells.cursor();
    assert!(cursor.prev_item().is_none());
    let passed = cursor.summary(&CellId(3), Bias::Left);
    assert_eq!(passed.num_cells_inclusive, 2);
    assert_eq!(passed.text_summary.lines, Point { row: 4, column: 0 });
    assert_eq!(passed.text_summary.len, 4);
    assert_eq!(cursor.item().unwrap().id, CellId(3));
    assert_eq!(cursor.prev_item().unwrap().id, CellId(2));
    let mut total = CellSummary::default();
    total.add_summary(&cells.iter()[0].summary());
    assert_eq!(total.num_cells_inclusive, 1);
    assert_eq!(CellId::from_summary(&total), CellId(1));
    assert_eq!(CellId(2).cmp_location(&total), std::cmp::Ordering::Greater);
    assert_eq!(TextSummary::from_summary(&total).lines.row, 2);
}

#[test]
fn a_stream_is_printed_in_a_new_output() {
    let mut cx = Buffers::new();
    let mut cells = three(&mut cx);
    cells.update_cell_from_msg(&CellId(2), stream("hello"), &mut cx).unwrap();
    let output = cells.iter()[1].output_content.unwrap();
    assert_eq!(cx.read(output).text(), "hello");
    assert_eq!(cx.read(output).file().unwrap().title, vec!["[Output — Cell 2]"]);
    assert_eq!(shown(&cells), handles(&cells));
    assert_eq!(cells.iter()[1].text_summary.lines, Point { row: 2, column: 0 });

    cells.update_cell_from_msg(&CellId(2), stream("again"), &mut cx).unwrap();
    assert_eq!(cells.iter()[1].output_content, Some(output));
    assert_eq!(cx.read(output).text(), "again");
    assert_eq!(shown(&cells), handles(&cells));
}

#[test]
fn an_error_is_printed_with_its_traceback() {
    let mut cx = Buffers::new();
    let mut cells = three(&mut cx);
    let msg = message(
        MessageType::IoPubSub(IoPubSubMessageType::ExecutionError),
        vec![
            ("ename", Json::String("NameError".to_string())),
            ("evalue", Json::String("x".to_string())),
            (
                "traceback",
                Json::Array(vec![
                    Json::String("line 1".to_string()),
                    Json::String("line 2".to_string()),
                ]),
            ),
        ],
    );
    cells.update_cell_from_msg(&CellId(1), msg, &mut cx).unwrap();
    let output = cells.iter()[0].output_content.unwrap();
    assert_eq!(cx.read(output).text(), "NameError: x\nline 1\nline 2");
}

#[test]
fn messages_without_text_change_nothing() {
    let mut cx = Buffers::new();
    let mut cells = three(&mut cx);
    let silent = vec![
        message(MessageType::IoPubSub(IoPubSubMessageType::KernelStatus), vec![]),
        message(MessageType::Shell(ShellMessageType::ExecuteReply), vec![]),
        message(
            MessageType::IoPubSub(IoPubSubMessageType::Stream),
            vec![("text", Json::Number(JsonNumber::Unsigned(1)))],
        ),
        message(
            MessageType::IoPubSub(IoPubSubMessageType::ExecutionError),
            vec![("ename", Json::String("E".to_string()))],
        ),
    ];
    for msg in silent {
        cells.update_cell_from_msg(&CellId(1), msg, &mut cx).unwrap();
    }
    assert!(cells.iter()[0].output_content.is_none());
    assert_eq!(cx.models.len(), 3);
}

#[test]
fn messages_for_a_missing_cell_fail() {
    let mut cx = Buffers::new();
    let mut cells = three(&mut cx);
    let error = cells.update_cell_from_msg(&CellId(12), stream("x"), &mut cx).unwrap_err();
    assert_eq!(error.message, "No cell with cell ID CellId(\n    12,\n)");
    assert_eq!(cx.models.len(), 3);
}

#[test]
fn replacing_a_cell_shows_its_new_output() {
    let mut cx = Buffers::new();
    let mut cells = three(&mut cx);
    cells.update_cell_from_msg(&CellId(2), stream("old"), &mut cx).unwrap();
    let old = cells.iter()[1].output_content.unwrap();
    let source = cells.iter()[1].source;
    let output = cx.new_model(Buffer::local("new".to_string()));
    let mut replacement = CellBuilder::new(2).source(source).build(&cx);
    replacement.output_content = Some(output);
    cells.replace(replacement, &cx);
    assert_eq!(cells.iter()[1].output_content, Some(output));
    assert_eq!(shown(&cells), handles(&cells));
    assert!(!shown(&cells).contains(&old));

    let without = CellBuilder::new(2).source(source).build(&cx);
    cells.replace(without, &cx);
    assert_eq!(shown(&cells).len(), 3);
}

#[test]
fn syncing_measures_the_cells() {
    let mut cx = Buffers::new();
    let mut cells = three(&mut cx);
    let source = cells.iter()[0].source;
    cx.set_text(source, "a\nb\nccc".to_string());
    assert_eq!(cells.iter()[0].text_summary.lines, Point { row: 1, column: 0 });
    cells.sync(&cx);
    assert_eq!(cells.iter()[0].text_summary.lines, Point { row: 2, column: 3 });
}

#[test]
fn builders_out_of_order() {
    let mut cx = Buffers::new();
    let first = cx.new_model(Buffer::local("one\n".to_string()));
    let second = cx.new_model(Buffer::local("two\n".to_string()));
    let builders = vec![CellBuilder::new(1).source(first), CellBuilder::new(1).source(second)];
    let cells = Cells::from_builders(builders, &mut cx);
    assert_eq!(texts(&cells, &cx), vec!["two\n"]);
    assert_eq!(Cells::from_builders(vec![], &mut cx).iter().len(), 0);
}

#[test]
fn excerpts_of_a_cell() {
    let mut cx = Buffers::new();
    let mut cells = three(&mut cx);
    cells.update_cell_from_msg(&CellId(1), stream("x"), &mut cx).unwrap();
    assert_eq!(
        excerpt_ids_for_cell(&cells.multi, &cells.iter()[0]),
        vec![ExcerptId(1), ExcerptId(4)]
    );
}

#[test]
fn excerpts_are_put_in_and_taken_out() {
    let mut cx = Buffers::new();
    let a = cx.new_model(Buffer::local("abc".to_string()));
    let b = cx.new_model(Buffer::local("abcd".to_string()));
    let c = cx.new_model(Buffer::local("abcde".to_string()));
    let mut multi = MultiBuffer::new();
    let first = multi.insert_excerpt_after(ExcerptId::min(), a, 0, 3, &cx);
    let second = multi.insert_excerpt_after(first, b, 0, 4, &cx);
    let between = multi.insert_excerpt_after(first, c, 1, 2, &cx);
    let order: Vec<ExcerptId> = multi.excerpts.iter().map(|excerpt| excerpt.id).collect();
    assert_eq!(order, vec![first, between, second]);
    let ranges: Vec<(usize, usize)> =
        multi.excerpts.iter().map(|excerpt| excerpt.range(&cx)).collect();
    assert_eq!(ranges, vec![(0, 3), (1, 2), (0, 4)]);
    multi.remove_excerpts(&vec![first, second]);
    assert_eq!(multi.excerpts.len(), 1);
    assert_eq!(multi.excerpts_for_buffer(c), vec![between]);
    assert!(multi.excerpts_for_buffer(a).is_empty());
}

#[test]
fn cell_numbers_count_up() {
    let mut id = CellId::min();
    assert_eq!(id.pre_inc(), CellId(1));
    assert_eq!(id.post_inc(), CellId(1));
    assert_eq!(id, CellId(2));
    assert_eq!(CellId::from(7), CellId(7));
    assert_eq!(u64::from(CellId(7)), 7);
}

#[test]
fn new_cells_hold_code() {
    let mut cx = Buffers::new();
    let plain = cell(1, "x", &mut cx);
    assert_eq!(plain.cell_type, CellType::Code);
    assert!(plain.metadata.is_empty());
    assert_eq!(plain.text_summary.lines, Point { row: 0, column: 1 });
}

#[test]
fn message_types_by_name() {
    assert_eq!(
        MessageType::visit_str("execute_request"),
        Ok(MessageType::from(ShellMessageType::ExecuteRequest))
    );
    assert_eq!(
        MessageType::visit_str("stream"),
        Ok(MessageType::from(IoPubSubMessageType::Stream))
    );
    assert!(MessageType::visit_str("no such type").is_err());
}

#[test]
fn all_message_types_by_name() {
    let shell = [
        ("execute_request", ShellMessageType::ExecuteRequest),
        ("execute_reply", ShellMessageType::ExecuteReply),
        ("inspect_request", ShellMessageType::InspectRequest),
        ("inspect_reply", ShellMessageType::InspecyReply),
        ("complete_request", ShellMessageType::CompletedProquest),
        ("complete_reply", ShellMessageType::CompleteReply),
        ("history_request", ShellMessageType::HistoryRequest),
        ("history_reply", ShellMessageType::HistoryReply),
        ("is_complete_request", ShellMessageType::IsCompleteRequest),
        ("is_complete_reply", ShellMessageType::IsCompleteReply),
        ("connect_request", ShellMessageType::ConnectRequest),
        ("connect_reply", ShellMessageType::ConnectReply),
        ("comm_info_request", ShellMessageType::CommInfoRequest),
        ("comm_info_reply", ShellMessageType::CommInfoReply),
        ("kernel_info_request", ShellMessageType::KernelInfoRequest),
        ("kernel_info_reply", ShellMessageType::KernelInfoReply),
    ];
    for (name, msg_type) in shell {
        assert_eq!(MessageType::visit_str(name), Ok(MessageType::Shell(msg_type)));
    }
    let published = [
        ("stream", IoPubSubMessageType::Stream),
        ("display_data", IoPubSubMessageType::DisplayData),
        ("update_display_data", IoPubSubMessageType::UpdateDisplayData),
        ("execute_input", IoPubSubMessageType::ExecuteInput),
        ("execute_result", IoPubSubMessageType::ExecuteResult),
        ("error", IoPubSubMessageType::ExecutionError),
        ("status", IoPubSubMessageType::KernelStatus),
        ("clear_output", IoPubSubMessageType::ClearOutput),
        ("debug_event", IoPubSubMessageType::DebugEvent),
    ];
    for (name, msg_type) in published {
        assert_eq!(MessageType::visit_str(name), Ok(MessageType::IoPubSub(msg_type)));
    }
}

#[test]
fn extents_add_up() {
    let mut first = TextSummary::of("ab\ncd");
    assert_eq!(first.lines, Point { row: 1, column: 2 });
    first.append(&TextSummary::of("é"));
    assert_eq!(first.lines, Point { row: 1, column: 4 });
    first.append(&TextSummary::of("x\nyz"));
    assert_eq!(first.lines, Point { row: 2, column: 2 });
    assert_eq!(TextSummary::of("ab\ncdéx\nyz"), first);
    assert_eq!(first.len, 11);
}

#[test]
fn excerpts_follow_the_texts() {
    let mut cx = Buffers::new();
    let mut cells = three(&mut cx);
    cells.update_cell_from_msg(&CellId(1), stream("hello"), &mut cx).unwrap();
    let output = cells.multi.excerpts[1];
    assert_eq!((output.start, output.end), (Anchor::Min, Anchor::Max));
    assert_eq!(output.range(&cx), (0, 5));
    cx.edit(output.buffer, 5, 5, ", world");
    assert_eq!(output.range(&cx), (0, 12));
    cx.set_text(output.buffer, String::new());
    assert_eq!(output.range(&cx), (0, 0));
}

#[test]
fn the_second_message_replaces_the_first() {
    let mut cx = Buffers::new();
    let mut cells = three(&mut cx);
    cells.update_cell_from_msg(&CellId(2), stream("a"), &mut cx).unwrap();
    let output = cells.iter()[1].output_content.unwrap();
    let excerpts = cells.multi.excerpts.clone();
    cells.update_cell_from_msg(&CellId(2), stream("b"), &mut cx).unwrap();
    assert_eq!(cells.iter()[1].output_content, Some(output));
    assert_eq!(cx.read(output).text(), "b");
    assert_eq!(cells.multi.excerpts, excerpts);
    assert_eq!(cx.models.len(), 4);
}

#[test]
fn printed_lines_end_with_line_feeds() {
    let mut cx = Buffers::new();
    let mut cells = three(&mut cx);
    cells.update_cell_from_msg(&CellId(1), stream("a\r\nb\rc\r\r\n\n"), &mut cx).unwrap();
    let output = cells.iter()[0].output_content.unwrap();
    assert_eq!(cx.read(output).text(), "a\nb\nc\n\n\n");
}

#[test]
fn lines_of_a_buffer_end_with_line_feeds() {
    let mut cx = Buffers::new();
    let id = cx.new_model(Buffer::local("a\r\nb".to_string()));
    assert_eq!(cx.read(id).text(), "a\nb");
    assert_eq!(cx.read(id).len(), 3);
    cx.edit(id, 1, 2, "\r\n\r");
    assert_eq!(cx.read(id).text(), "a\n\nb");
    cx.set_text(id, "\r".to_string());
    assert_eq!(cx.read(id).text(), "\n");
}

#[test]
fn the_measure_of_a_cell() {
    let mut cx = Buffers::new();
    let mut measured = cell(1, "a\nbc", &mut cx);
    assert_eq!(measured.text_summary, TextSummary::of("a\nbc"));
    measured.output_content = Some(cx.new_model(Buffer::local("é\nx\n".to_string())));
    measured.update_text_summary(&cx);
    assert_eq!(measured.text_summary.len, 9);
    assert_eq!(measured.text_summary.lines, Point { row: 4, column: 0 });
    let before = measured.text_summary;
    measured.update_text_summary(&cx);
    assert_eq!(measured.text_summary, before);
}

#[test]
fn the_grouping_of_summaries_makes_no_difference() {
    let mut cx = Buffers::new();
    let summaries: Vec<CellSummary> = ["a\nb", "cd", "\n\n", "é"]
        .iter()
        .map(|text| cell(1, text, &mut cx).summary())
        .collect();
    let sum = |part: &[CellSummary]| {
        let mut total = CellSummary::default();
        part.iter().for_each(|summary| total.add_summary(summary));
        total
    };
    let whole = sum(&summaries);
    assert_eq!(whole.num_cells_inclusive, 4);
    assert_eq!(whole.text_summary.len, 9);
    assert_eq!(whole.text_summary.lines, Point { row: 7, column: 2 });
    for at in 0..=4 {
        let mut halves = sum(&summaries[..at]);
        halves.add_summary(&sum(&summaries[at..]));
        assert_eq!(halves, whole);
    }
}

#[test]
fn cells_in_order() {
    let mut cx = Buffers::new();
    let mut cells = three(&mut cx);
    assert!(Cells::new().is_in_order(&cx));
    assert!(cells.is_in_order(&cx));
    assert!(!cells.is_in_order(&Buffers::new()));
    cells.update_cell_from_msg(&CellId(2), stream("x"), &mut cx).unwrap();
    assert!(cells.is_in_order(&cx));
    cells.tree[1].id = CellId(3);
    assert!(!cells.is_in_order(&cx));
}

#[test]
fn excerpts_out_of_order() {
    let mut cx = Buffers::new();
    let mut cells = three(&mut cx);
    cells.multi.excerpts.swap(0, 1);
    assert!(cells.multi.is_in_order());
    assert!(!cells.is_in_order(&cx));

    let mut cells = three(&mut cx);
    cells.multi.excerpts[2].end = Anchor::At(2);
    assert!(!cells.is_in_order(&cx));

    let mut cells = three(&mut cx);
    cells.multi.excerpts.pop();
    assert!(!cells.is_in_order(&cx));

    let mut cells = three(&mut cx);
    cells.multi.next_id = 3;
    assert!(!cells.multi.is_in_order());
    cells.multi.next_id = 4;
    cells.multi.excerpts[1].id = ExcerptId(1);
    assert!(!cells.multi.is_in_order());
    cells.multi.excerpts[1].id = ExcerptId(0);
    assert!(!cells.multi.is_in_order());
    assert!(!cells.is_in_order(&cx));
}

#[test]
fn a_buffer_of_two_cells() {
    let mut cx = Buffers::new();
    let source = cx.new_model(Buffer::local("x\n".to_string()));
    let builders = vec![CellBuilder::new(1).source(source), CellBuilder::new(2).source(source)];
    let cells = Cells::from_builders(builders, &mut cx);
    assert!(cells.multi.is_in_order());
    assert!(!cells.is_in_order(&cx));
}

#[test]
fn titles_tell_excerpts_apart() {
    let title = |idx: u64, cell_type: CellType, for_output: bool| {
        notebook::cell::title_for_cell_excerpt(idx, None, &cell_type, for_output).title
    };
    assert_eq!(title(1, CellType::Code, true), title(1, CellType::Raw, true));
    assert_ne!(title(1, CellType::Code, false), title(1, CellType::Raw, false));
    assert_ne!(title(1, CellType::Code, false), title(1, CellType::Code, true));
    assert_ne!(title(1, CellType::Code, true), title(11, CellType::Code, true));
    assert_eq!(title(3, CellType::Chat, false), title(3, CellType::Chat, false));
}

#[test]
fn extents_that_can_be_written() {
    assert_eq!(TextSummary::checked_of("a\nbc"), Some(TextSummary::of("a\nbc")));
    assert_eq!(Buffer::local("x\r\ny".to_string()).checked_summary(), Some(TextSummary::of("x\ny")));
}
