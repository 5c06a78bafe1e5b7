//! What holds of the messages that a kernel sends.
use crate::buffer::{BufferId, BufferView};
use crate::cell::{Cell, CellId};
use crate::cells::{Bias, Cells};
use crate::common::NotebookError;
use crate::json::JsonView;
use crate::jupyter::message::{IoPubSubMessageType, Message, MessageType, ShellMessageType};
use crate::multi_buffer::{Excerpt, ExcerptId};
use vstd::prelude::*;

verus! {

/// Each message type goes by one name, on whichever channel, and no other name stands for it.
#[verifier::rlimit(80)]
pub proof fn lemma_names_of_message_types(name: Seq<char>)
    ensures
        MessageType::named(name) == Some(
            MessageType::Shell(ShellMessageType::ExecuteRequest),
        ) <==> name == "execute_request"@,
        MessageType::named(name) == Some(
            MessageType::Shell(ShellMessageType::ExecuteReply),
        ) <==> name == "execute_reply"@,
        MessageType::named(name) == Some(
            MessageType::Shell(ShellMessageType::InspectRequest),
        ) <==> name == "inspect_request"@,
        MessageType::named(name) == Some(
            MessageType::Shell(ShellMessageType::InspecyReply),
        ) <==> name == "inspect_reply"@,
        MessageType::named(name) == Some(
            MessageType::Shell(ShellMessageType::CompletedProquest),
        ) <==> name == "complete_request"@,
        MessageType::named(name) == Some(
            MessageType::Shell(ShellMessageType::CompleteReply),
        ) <==> name == "complete_reply"@,
        MessageType::named(name) == Some(
            MessageType::Shell(ShellMessageType::HistoryRequest),
        ) <==> name == "history_request"@,
        MessageType::named(name) == Some(
            MessageType::Shell(ShellMessageType::HistoryReply),
        ) <==> name == "history_reply"@,
        MessageType::named(name) == Some(
            MessageType::Shell(ShellMessageType::IsCompleteRequest),
        ) <==> name == "is_complete_request"@,
        MessageType::named(name) == Some(
            MessageType::Shell(ShellMessageType::IsCompleteReply),
        ) <==> name == "is_complete_reply"@,
        MessageType::named(name) == Some(
            MessageType::Shell(ShellMessageType::ConnectRequest),
        ) <==> name == "connect_request"@,
        MessageType::named(name) == Some(
            MessageType::Shell(ShellMessageType::ConnectReply),
        ) <==> name == "connect_reply"@,
        MessageType::named(name) == Some(
            MessageType::Shell(ShellMessageType::CommInfoRequest),
        ) <==> name == "comm_info_request"@,
        MessageType::named(name) == Some(
            MessageType::Shell(ShellMessageType::CommInfoReply),
        ) <==> name == "comm_info_reply"@,
        MessageType::named(name) == Some(
            MessageType::Shell(ShellMessageType::KernelInfoRequest),
        ) <==> name == "kernel_info_request"@,
        MessageType::named(name) == Some(
            MessageType::Shell(ShellMessageType::KernelInfoReply),
        ) <==> name == "kernel_info_reply"@,
        MessageType::named(name) == Some(
            MessageType::IoPubSub(IoPubSubMessageType::Stream),
        ) <==> name == "stream"@,
        MessageType::named(name) == Some(
            MessageType::IoPubSub(IoPubSubMessageType::DisplayData),
        ) <==> name == "display_data"@,
        MessageType::named(name) == Some(
            MessageType::IoPubSub(IoPubSubMessageType::UpdateDisplayData),
        ) <==> name == "update_display_data"@,
        MessageType::named(name) == Some(
            MessageType::IoPubSub(IoPubSubMessageType::ExecuteInput),
        ) <==> name == "execute_input"@,
        MessageType::named(name) == Some(
            MessageType::IoPubSub(IoPubSubMessageType::ExecuteResult),
        ) <==> name == "execute_result"@,
        MessageType::named(name) == Some(
            MessageType::IoPubSub(IoPubSubMessageType::ExecutionError),
        ) <==> name == "error"@,
        MessageType::named(name) == Some(
            MessageType::IoPubSub(IoPubSubMessageType::KernelStatus),
        ) <==> name == "status"@,
        MessageType::named(name) == Some(
            MessageType::IoPubSub(IoPubSubMessageType::ClearOutput),
        ) <==> name == "clear_output"@,
        MessageType::named(name) == Some(
            MessageType::IoPubSub(IoPubSubMessageType::DebugEvent),
        ) <==> name == "debug_event"@,
{
    reveal_strlit("execute_request");
    reveal_strlit("execute_reply");
    reveal_strlit("inspect_request");
    reveal_strlit("inspect_reply");
    reveal_strlit("complete_request");
    reveal_strlit("complete_reply");
    reveal_strlit("history_request");
    reveal_strlit("history_reply");
    reveal_strlit("is_complete_request");
    reveal_strlit("is_complete_reply");
    reveal_strlit("connect_request");
    reveal_strlit("connect_reply");
    reveal_strlit("comm_info_request");
    reveal_strlit("comm_info_reply");
    reveal_strlit("kernel_info_request");
    reveal_strlit("kernel_info_reply");
    reveal_strlit("stream");
    reveal_strlit("display_data");
    reveal_strlit("update_display_data");
    reveal_strlit("execute_input");
    reveal_strlit("execute_result");
    reveal_strlit("error");
    reveal_strlit("status");
    reveal_strlit("clear_output");
    reveal_strlit("debug_event");
    assert("execute_request"@.len() == 15);
    assert("execute_reply"@.len() == 13);
    assert("inspect_request"@.len() == 15);
    assert("inspect_reply"@.len() == 13);
    assert("complete_request"@.len() == 16);
    assert("complete_reply"@.len() == 14);
    assert("history_request"@.len() == 15);
    assert("history_reply"@.len() == 13);
    assert("is_complete_request"@.len() == 19);
    assert("is_complete_reply"@.len() == 17);
    assert("connect_request"@.len() == 15);
    assert("connect_reply"@.len() == 13);
    assert("comm_info_request"@.len() == 17);
    assert("comm_info_reply"@.len() == 15);
    assert("kernel_info_request"@.len() == 19);
    assert("kernel_info_reply"@.len() == 17);
    assert("stream"@.len() == 6);
    assert("display_data"@.len() == 12);
    assert("update_display_data"@.len() == 19);
    assert("execute_input"@.len() == 13);
    assert("execute_result"@.len() == 14);
    assert("error"@.len() == 5);
    assert("status"@.len() == 6);
    assert("clear_output"@.len() == 12);
    assert("debug_event"@.len() == 11);
    assert("execute_request"@[0] == 'e');
    assert("inspect_request"@[0] == 'i');
    assert("history_request"@[0] == 'h');
    assert("connect_request"@[0] == 'c');
    assert("comm_info_reply"@[0] == 'c');
    assert("execute_request"@[2] == 'e');
    assert("inspect_request"@[2] == 's');
    assert("history_request"@[2] == 's');
    assert("connect_request"@[2] == 'n');
    assert("comm_info_reply"@[2] == 'm');
    assert("execute_reply"@[0] == 'e');
    assert("inspect_reply"@[0] == 'i');
    assert("history_reply"@[0] == 'h');
    assert("connect_reply"@[0] == 'c');
    assert("execute_input"@[0] == 'e');
    assert("execute_reply"@[8] == 'r');
    assert("inspect_reply"@[8] == 'r');
    assert("history_reply"@[8] == 'r');
    assert("connect_reply"@[8] == 'r');
    assert("execute_input"@[8] == 'i');
    assert("complete_reply"@[0] == 'c');
    assert("execute_result"@[0] == 'e');
    assert("is_complete_request"@[0] == 'i');
    assert("kernel_info_request"@[0] == 'k');
    assert("update_display_data"@[0] == 'u');
    assert("is_complete_reply"@[0] == 'i');
    assert("comm_info_request"@[0] == 'c');
    assert("kernel_info_reply"@[0] == 'k');
    assert("stream"@[2] == 'r');
    assert("status"@[2] == 'a');
    assert("display_data"@[0] == 'd');
    assert("clear_output"@[0] == 'c');
}

/// What a stream has to say is the string under `text`, and nothing if there is none. No other
/// entry of its content makes a difference: neither the name of the stream nor anything else.
pub proof fn lemma_text_of_a_stream(content: Seq<(Seq<char>, JsonView)>)
    ensures
        crate::jupyter::message::output_text(
            MessageType::IoPubSub(IoPubSubMessageType::Stream),
            content,
        ) == (match crate::json::lookup(content, "text"@) {
            Some(JsonView::String(text)) => Some(text),
            _ => None,
        }),
{
}

/// What an error has to say is its name, its value and the lines of its traceback, where it has
/// all three. No other entry of its content makes a difference.
pub proof fn lemma_text_of_an_error(
    content: Seq<(Seq<char>, JsonView)>,
    name: Seq<char>,
    value: Seq<char>,
    traceback: Seq<Seq<char>>,
)
    requires
        crate::json::lookup(content, "ename"@) == Some(JsonView::String(name)),
        crate::json::lookup(content, "evalue"@) == Some(JsonView::String(value)),
        crate::json::lookup(content, "traceback"@) == Some(crate::laws::array_of(traceback)),
    ensures
        crate::jupyter::message::output_text(
            MessageType::IoPubSub(IoPubSubMessageType::ExecutionError),
            content,
        ) == Some(name + ": "@ + value + "\n"@ + crate::text::joined(traceback, "\n"@)),
{
    crate::laws::lemma_texts_of_array(traceback);
}

/// An error without a name, a value or a traceback has nothing to say, and neither has one whose
/// traceback holds anything but strings.
pub proof fn lemma_error_without_a_part(content: Seq<(Seq<char>, JsonView)>)
    requires
        !(crate::json::lookup(content, "ename"@) matches Some(JsonView::String(_))) || !(
        crate::json::lookup(content, "evalue"@) matches Some(JsonView::String(_))) || !(
        crate::json::lookup(content, "traceback"@) matches Some(JsonView::Array(_))) || (
        crate::json::lookup(content, "traceback"@) matches Some(JsonView::Array(items))
            && exists|i: int| 0 <= i < items.len() && !((#[trigger] items[i]) is String)),
    ensures
        crate::jupyter::message::output_text(
            MessageType::IoPubSub(IoPubSubMessageType::ExecutionError),
            content,
        ) is None,
{
}

/// Nothing but a stream or an error has anything to say, whatever the content.
pub proof fn lemma_silent_messages(msg_type: MessageType, content: Seq<(Seq<char>, JsonView)>)
    requires
        msg_type != MessageType::IoPubSub(IoPubSubMessageType::Stream),
        msg_type != MessageType::IoPubSub(IoPubSubMessageType::ExecutionError),
    ensures
        crate::jupyter::message::output_text(msg_type, content) is None,
{
}

/// Printing a stream with the string `text` to a cell leaves that cell with an output that holds
/// `text` with its line endings unified, whatever else stands in the message and whatever the cell
/// had before.
pub proof fn lemma_stream_is_printed(
    before: Cells,
    buffers: Seq<BufferView>,
    id: CellId,
    msg: Message,
    after: Cells,
    buffers_after: Seq<BufferView>,
    result: Result<(), NotebookError>,
    text: Seq<char>,
)
    requires
        before.wf(buffers),
        buffers.len() < usize::MAX,
        1 <= id.0 <= before.tree@.len(),
        msg.msg_type == MessageType::IoPubSub(IoPubSubMessageType::Stream),
        crate::json::lookup(crate::json::entries_view(msg.content@), "text"@) == Some(
            JsonView::String(text),
        ),
        crate::cell_update::printed(before, buffers, id, msg, after, buffers_after, result),
    ensures
        result is Ok,
        ({
            let at = id.0 - 1;
            &&& after.tree@[at].output_content matches Some(output)
            &&& output.index < buffers_after.len()
            &&& buffers_after[output.index as int].text == crate::text::normalized(text)
        }),
{
    lemma_printing_touches_one_cell(
        before,
        buffers,
        id,
        msg,
        after,
        buffers_after,
        result,
        text,
    );
}

/// Printing an error to a cell leaves that cell with an output that holds the name, the value and
/// the traceback of the error.
pub proof fn lemma_error_is_printed(
    before: Cells,
    buffers: Seq<BufferView>,
    id: CellId,
    msg: Message,
    after: Cells,
    buffers_after: Seq<BufferView>,
    result: Result<(), NotebookError>,
    name: Seq<char>,
    value: Seq<char>,
    traceback: Seq<Seq<char>>,
)
    requires
        before.wf(buffers),
        buffers.len() < usize::MAX,
        1 <= id.0 <= before.tree@.len(),
        msg.msg_type == MessageType::IoPubSub(IoPubSubMessageType::ExecutionError),
        crate::json::lookup(crate::json::entries_view(msg.content@), "ename"@) == Some(
            JsonView::String(name),
        ),
        crate::json::lookup(crate::json::entries_view(msg.content@), "evalue"@) == Some(
            JsonView::String(value),
        ),
        crate::json::lookup(crate::json::entries_view(msg.content@), "traceback"@) == Some(
            crate::laws::array_of(traceback),
        ),
        crate::cell_update::printed(before, buffers, id, msg, after, buffers_after, result),
    ensures
        result is Ok,
        ({
            let at = id.0 - 1;
            &&& after.tree@[at].output_content matches Some(output)
            &&& output.index < buffers_after.len()
            &&& buffers_after[output.index as int].text == crate::text::normalized(
                name + ": "@ + value + "\n"@ + crate::text::joined(traceback, "\n"@),
            )
        }),
{
    let text = name + ": "@ + value + "\n"@ + crate::text::joined(traceback, "\n"@);
    lemma_text_of_an_error(crate::json::entries_view(msg.content@), name, value, traceback);
    lemma_printing_touches_one_cell(
        before,
        buffers,
        id,
        msg,
        after,
        buffers_after,
        result,
        text,
    );
}

/// A message that has nothing to say changes nothing, and neither does one for a cell that is not
/// there. The latter is an error that names the cell.
pub proof fn lemma_nothing_is_printed(
    before: Cells,
    buffers: Seq<BufferView>,
    id: CellId,
    msg: Message,
    after: Cells,
    buffers_after: Seq<BufferView>,
    result: Result<(), NotebookError>,
)
    requires
        id.0 >= 1,
        crate::laws::message_text(msg) is None || id.0 > before.tree@.len(),
        crate::cell_update::printed(before, buffers, id, msg, after, buffers_after, result),
    ensures
        after == before,
        buffers_after == buffers,
        id.0 <= before.tree@.len() <==> result is Ok,
        result matches Err(error) ==> error@ == "No cell with cell ID CellId(\n    "@
            + crate::text::decimal(id.0 as nat) + ",\n)"@,
{
}

/// Printing to the cell with number `id` touches that cell alone. It gets an output unless it has
/// one: a new buffer, after all others, shown right after its source under a title of its own. Of
/// the cell nothing else changes but its extent, and no text changes but that of its output.
pub proof fn lemma_printing_touches_one_cell(
    before: Cells,
    buffers: Seq<BufferView>,
    id: CellId,
    msg: Message,
    after: Cells,
    buffers_after: Seq<BufferView>,
    result: Result<(), NotebookError>,
    text: Seq<char>,
)
    requires
        before.wf(buffers),
        buffers.len() < usize::MAX,
        1 <= id.0 <= before.tree@.len(),
        crate::laws::message_text(msg) == Some(text),
        crate::cell_update::printed(before, buffers, id, msg, after, buffers_after, result),
    ensures
        result is Ok,
        after.tree@.len() == before.tree@.len(),
        forall|i: int|
            0 <= i < before.tree@.len() && i != id.0 - 1 ==> #[trigger] after.tree@[i]
                == before.tree@[i],
        ({
            let at = id.0 - 1;
            let cell = before.tree@[at];
            let now = after.tree@[at];
            &&& now.output_content matches Some(output)
            &&& now == (Cell {
                output_content: now.output_content,
                text_summary: now.text_summary,
                ..cell
            })
            &&& match cell.output_content {
                Some(had) => output == had && buffers_after.len() == buffers.len(),
                None => output.index == buffers.len() && buffers_after.len() == buffers.len() + 1
                    && buffers_after[output.index as int].language is None,
            }
            &&& buffers_after[output.index as int].text == crate::text::normalized(text)
            &&& forall|k: int|
                #![trigger buffers_after[k]]
                0 <= k < buffers.len() && k != output.index ==> buffers_after[k].text
                    == buffers[k].text
            &&& forall|k: int|
                #![trigger buffers_after[k]]
                0 <= k < buffers.len() ==> buffers_after[k].language == buffers[k].language
            &&& cell.output_content is Some ==> now.text_summary == cell.measured(buffers)
            &&& cell.output_content is None && crate::text::byte_len(
                buffers[cell.source.index as int].text,
            ) < u32::MAX ==> {
                &&& now.text_summary.len == crate::text::byte_len(
                    buffers[cell.source.index as int].text,
                )
                &&& now.text_summary.lines.row == crate::summary::line_breaks(
                    buffers[cell.source.index as int].text,
                ) + 1
            }
            &&& buffers_after[output.index as int].file matches Some(file)
            &&& crate::laws::document::output_title(
                file,
                id.0,
                crate::text::optional_text(cell.cell_id),
            )
        }),
{
    let at = id.0 - 1;
    assert(crate::cells::cells_before(before.tree@.len(), id, Bias::Left) == at);
    let cell = before.tree@[at];
    assert(cell.valid(buffers));
    assert(cell.id == id);
    let with_buffer = crate::cell_update::with_output_buffer(buffers, cell);
    let updated = crate::cell_update::with_output(buffers, cell);
    let output = updated.output_content->0;
    assert(output.index < with_buffer.len());
    lemma_cell_buffers_differ(before, buffers, at);
    assert(updated.source != output);
    crate::laws::document::lemma_titles_of_excerpts(
        id.0,
        crate::text::optional_text(cell.cell_id),
        cell.cell_type,
    );
    reveal_strlit("");
    let none = Seq::<char>::empty();
    assert(""@ =~= none);
    crate::text::lemma_plain_stays(none);
    crate::summary::lemma_extent_is_bounded(buffers[cell.source.index as int].text);
    crate::summary::lemma_extent_is_bounded(none);
    crate::text::lemma_encode_concat(none, none);
    assert(none + none =~= none);
}

pub(crate) proof fn lemma_cell_buffers_differ(cells: Cells, buffers: Seq<BufferView>, at: int)
    requires
        cells.wf(buffers),
        0 <= at < cells.tree@.len(),
    ensures
        Some(cells.tree@[at].source) != cells.tree@[at].output_content,
{
    let tree = cells.tree@;
    let front = tree.take(at + 1);
    assert(front + tree.skip(at + 1) =~= tree);
    crate::cells::lemma_all_handles_concat(front, tree.skip(at + 1));
    let before = crate::cells::all_handles(front.drop_last());
    let handles = crate::cells::all_handles(tree);
    let own = tree[at].handles();
    assert(front.last() == tree[at]);
    if tree[at].output_content is Some {
        assert(handles[before.len() as int] == own[0]);
        assert(handles[before.len() as int + 1] == own[1]);
    }
}

/// The output that a cell gets when something is printed to it for the first time is shown right
/// after its source, and in front of all that follows. All other excerpts stay as they are.
pub proof fn lemma_output_is_shown_after_source(
    before: Cells,
    buffers: Seq<BufferView>,
    id: CellId,
    msg: Message,
    after: Cells,
    buffers_after: Seq<BufferView>,
    result: Result<(), NotebookError>,
)
    requires
        before.wf(buffers),
        buffers.len() < usize::MAX,
        before.multi.next_id < u64::MAX,
        1 <= id.0 <= before.tree@.len(),
        crate::laws::message_text(msg) is Some,
        crate::cell_update::printed(before, buffers, id, msg, after, buffers_after, result),
    ensures
        before.tree@[id.0 - 1].output_content is Some ==> after.multi == before.multi,
        before.tree@[id.0 - 1].output_content is None ==> exists|place: int|
            {
                &&& 0 <= place < before.multi.excerpts@.len()
                &&& (#[trigger] before.multi.excerpts@[place]).buffer == before.tree@[id.0
                    - 1].source
                &&& after.multi.excerpts@ == before.multi.excerpts@.insert(
                    place + 1,
                    Excerpt {
                        id: ExcerptId(before.multi.next_id),
                        buffer: after.tree@[id.0 - 1].output_content->0,
                        start: crate::multi_buffer::Anchor::Min,
                        end: crate::multi_buffer::Anchor::Max,
                    },
                )
            },
{
    let tree = before.tree@;
    let at = id.0 - 1;
    assert(crate::cells::cells_before(tree.len(), id, Bias::Left) == at);
    if tree[at].output_content is None {
        let front = tree.take(at + 1);
        assert(front + tree.skip(at + 1) =~= tree);
        crate::cells::lemma_all_handles_concat(front, tree.skip(at + 1));
        assert(front.drop_last() =~= tree.take(at));
        assert(front.last() == tree[at]);
        let place = crate::cells::all_handles(tree.take(at)).len() as int;
        let excerpts = before.multi.excerpts@;
        let shown = excerpts.map_values(|excerpt: Excerpt| excerpt.buffer);
        assert(shown == crate::cells::all_handles(tree));
        let own = tree[at].handles();
        assert(crate::cells::all_handles(front) == crate::cells::all_handles(tree.take(at)) + own);
        assert(own.len() == 1 && own[0] == tree[at].source);
        assert(place < shown.len() && shown.len() == excerpts.len());
        assert(shown[place] == tree[at].source);
        assert(excerpts[place].buffer == tree[at].source);
        let output = after.tree@[at].output_content->0;
        assert(after.tree@[at].output_content == Some(BufferId { index: buffers.len() as usize }));
        let block = crate::cells::new_excerpts(seq![output], before.multi.next_id as int);
        assert(after.multi.excerpts@ == excerpts.take(place + 1) + block + excerpts.skip(
            place + 1,
        ));
        assert(after.multi.excerpts@ =~= excerpts.insert(place + 1, block[0]));
    }
}

} // verus!
