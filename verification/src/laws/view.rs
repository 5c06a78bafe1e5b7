//! What holds of what values stand for: nothing of them is lost.
use crate::buffer::Language;
use crate::cell::{
    Cell, CellBuilder, CellId, ExecutionState, ExecutionStateView, PhonyFile,
};
use crate::chat::Turn;
use crate::json::{Json, JsonNumber, JsonNumberView, JsonView};
use crate::jupyter::message::{IoPubSubMessageType, MessageType, ShellMessageType};
use crate::kernel_spec::KernelSpec;
use crate::notebook_builder::NotebookBuilder;
use crate::output::{
    IpynbCodeOutput, IpynbCodeOutputView, MimeData, MimeDataView, MimeType, StreamOutputText,
    StreamOutputTextView,
};
use vstd::prelude::*;
use vstd::std_specs::convert::FromSpec;

verus! {

/// A number of a cell is made of a number and gives it back.
pub proof fn lemma_numbers_are_kept(number: u64)
    ensures
        <CellId as FromSpec<u64>>::from_spec(number) == CellId(number),
        <u64 as FromSpec<CellId>>::from_spec(CellId(number)) == number,
{
}

/// A message type of a channel becomes that message type of that channel.
pub proof fn lemma_channels_are_kept(shell: ShellMessageType, io_pub_sub: IoPubSubMessageType)
    ensures
        <MessageType as FromSpec<ShellMessageType>>::from_spec(shell) == MessageType::Shell(shell),
        <MessageType as FromSpec<IoPubSubMessageType>>::from_spec(io_pub_sub)
            == MessageType::IoPubSub(io_pub_sub),
{
}

/// Strings stand for their texts, one by one.
pub proof fn lemma_texts_of_strings(strings: Seq<String>, string: String)
    ensures
        crate::text::texts(strings).len() == strings.len(),
        forall|i: int|
            0 <= i < strings.len() ==> #[trigger] crate::text::texts(strings)[i] == strings[i]@,
        crate::text::optional_text(Some(string)) == Some(string@),
        crate::text::optional_text(None) is None,
{
}

/// A JSON value stands for a value of the same form with the same contents.
pub proof fn lemma_json_stands_for_itself(
    value: Json,
    number: JsonNumber,
    entries: Seq<(String, Json)>,
)
    ensures
        match value {
            Json::Null => value@ == JsonView::Null,
            Json::Bool(b) => value@ == JsonView::Bool(b),
            Json::Number(number) => value@ == JsonView::Number(number@),
            Json::String(text) => value@ == JsonView::String(text@),
            Json::Array(items) => {
                &&& value@ matches JsonView::Array(views)
                &&& views.len() == items@.len()
                &&& forall|i: int| 0 <= i < views.len() ==> #[trigger] views[i] == items@[i]@
            },
            Json::Object(entries) => {
                &&& value@ matches JsonView::Object(views)
                &&& views == crate::json::entries_view(entries@)
            },
        },
        match number {
            JsonNumber::Unsigned(n) => number@ == JsonNumberView::Unsigned(n),
            JsonNumber::Negative(n) => number@ == JsonNumberView::Negative(n),
            JsonNumber::Float(text) => number@ == JsonNumberView::Float(text@),
        },
        crate::json::entries_view(entries).len() == entries.len(),
        forall|i: int|
            0 <= i < entries.len() ==> #[trigger] crate::json::entries_view(entries)[i] == (
                entries[i].0@,
                entries[i].1@,
            ),
{
    if let Json::Object(entries) = value {
        crate::json::lemma_object_view(entries);
    }
    if let Json::Array(items) = value {
        crate::json::lemma_array_view(items);
    }
}

/// The entries of several objects stand for those of each.
pub proof fn lemma_objects_stand_for_themselves(objects: Seq<Vec<(String, Json)>>)
    ensures
        crate::json::objects_view(objects).len() == objects.len(),
        forall|i: int|
            0 <= i < objects.len() ==> #[trigger] crate::json::objects_view(objects)[i]
                == crate::json::entries_view(objects[i]@),
        crate::json::optional_entries_view(None) is None,
        objects.len() > 0 ==> crate::json::optional_entries_view(Some(objects[0])) == Some(
            crate::json::entries_view(objects[0]@),
        ),
{
}

/// A cell stands for all that it holds.
pub proof fn lemma_cell_stands_for_its_parts(cell: Cell)
    ensures
        cell@.id == cell.id,
        cell@.latest_execution_request_msg_id == crate::text::optional_text(
            cell.latest_execution_request_msg_id,
        ),
        cell@.text_summary == cell.text_summary,
        cell@.cell_id == crate::text::optional_text(cell.cell_id),
        cell@.cell_type == cell.cell_type,
        cell@.metadata == crate::json::entries_view(cell.metadata@),
        cell@.source == cell.source,
        cell@.execution_count == cell.execution_count,
        cell@.outputs == crate::output_reading::optional_outputs_view(cell.outputs),
        cell@.output_content == cell.output_content,
        match cell.state {
            Some(state) => cell@.state == Some(state@),
            None => cell@.state is None,
        },
{
}

/// A builder of a cell stands for all that it has collected.
pub proof fn lemma_builder_stands_for_its_parts(builder: CellBuilder)
    ensures
        builder@.id == builder.id,
        builder@.text_summary == builder.text_summary,
        builder@.cell_id == crate::text::optional_text(builder.cell_id),
        builder@.cell_type == builder.cell_type,
        builder@.metadata == crate::json::optional_entries_view(builder.metadata),
        builder@.source == builder.source,
        builder@.execution_count == builder.execution_count,
        builder@.outputs == crate::output_reading::optional_outputs_view(builder.outputs),
        builder@.output_content == builder.output_content,
{
}

/// A builder of a notebook stands for all that it has collected.
pub proof fn lemma_notebook_builder_stands_for_its_parts(builder: NotebookBuilder)
    ensures
        builder@.file == builder.file,
        builder@.metadata == crate::json::optional_entries_view(builder.metadata),
        builder@.nbformat == builder.nbformat,
        builder@.nbformat_minor == builder.nbformat_minor,
        builder@.cell_builders.len() == builder.cell_builders@.len(),
        forall|i: int|
            0 <= i < builder.cell_builders@.len() ==> #[trigger] builder@.cell_builders[i]
                == builder.cell_builders@[i]@,
{
}

/// The state of a cell stands for the same state with the same note, and a title for its components
/// and the cell that it belongs to.
pub proof fn lemma_states_and_titles(state: ExecutionState, file: PhonyFile)
    ensures
        match state {
            ExecutionState::Running(note) => state@ == ExecutionStateView::Running(note@),
            ExecutionState::Succeeded(note) => state@ == ExecutionStateView::Succeeded(note@),
            ExecutionState::Failed(note) => state@ == ExecutionStateView::Failed(note@),
        },
        file@.worktree_id == file.worktree_id,
        file@.title == crate::text::texts(file.title@),
        file@.cell_idx == file.cell_idx,
        file@.cell_id == crate::text::optional_text(file.cell_id),
{
}

/// A language stands for its name and its delimiters, and a turn for who said what.
pub proof fn lemma_languages_and_turns(language: Language, turn: Turn, turns: Seq<Turn>)
    ensures
        language@.name == language.name@,
        match language.block_comment_delimiters {
            Some(delimiters) => language@.block_comment_delimiters == Some(
                (delimiters.0@, delimiters.1@),
            ),
            None => language@.block_comment_delimiters is None,
        },
        crate::buffer::optional_language_view(Some(language)) == Some(language@),
        crate::buffer::optional_language_view(None) is None,
        turn@.role == turn.role,
        turn@.content == turn.content@,
        crate::chat::turns_view(turns).len() == turns.len(),
        forall|i: int|
            0 <= i < turns.len() ==> #[trigger] crate::chat::turns_view(turns)[i] == turns[i]@,
{
}

/// What is said of a kernel stands for each of its fields.
pub proof fn lemma_kernel_stands_for_its_fields(kernel_spec: KernelSpec)
    ensures
        kernel_spec@.display_name == kernel_spec.display_name@,
        kernel_spec@.language == kernel_spec.language@,
        kernel_spec@.interrup_mode == crate::text::optional_text(kernel_spec.interrup_mode),
        kernel_spec@.metadata == crate::json::optional_entries_view(kernel_spec.metadata),
        match kernel_spec.argv {
            Some(argv) => kernel_spec@.argv == Some(crate::text::texts(argv@)),
            None => kernel_spec@.argv is None,
        },
        match kernel_spec.env {
            Some(env) => {
                &&& kernel_spec@.env matches Some(pairs)
                &&& pairs.len() == env@.len()
                &&& forall|i: int|
                    0 <= i < pairs.len() ==> #[trigger] pairs[i] == (env@[i].0@, env@[i].1@)
            },
            None => kernel_spec@.env is None,
        },
        crate::kernel_spec::optional_kernel_spec_view(Some(kernel_spec)) == Some(kernel_spec@),
        crate::kernel_spec::optional_kernel_spec_view(None) is None,
{
}

/// The data of several natures stand for what each holds, and so do the entries of metadata.
pub proof fn lemma_data_stand_for_themselves(
    data: Seq<(MimeType, MimeData)>,
    metadata: Seq<(MimeType, Vec<(String, Json)>)>,
)
    ensures
        crate::output::data_view(data).len() == data.len(),
        forall|i: int|
            0 <= i < data.len() ==> #[trigger] crate::output::data_view(data)[i] == (
                data[i].0,
                data[i].1@,
            ),
        crate::output::metadata_view(metadata).len() == metadata.len(),
        forall|i: int|
            0 <= i < metadata.len() ==> #[trigger] crate::output::metadata_view(metadata)[i] == (
                metadata[i].0,
                crate::json::entries_view(metadata[i].1@),
            ),
{
}

/// An output stands for an output of the same kind with the same contents.
pub proof fn lemma_output_stands_for_itself(
    output: IpynbCodeOutput,
    text: StreamOutputText,
    data: MimeData,
    outputs: Vec<IpynbCodeOutput>,
)
    ensures
        match output {
            IpynbCodeOutput::Stream { name, text } => output@ == (IpynbCodeOutputView::Stream {
                name,
                text: text@,
            }),
            IpynbCodeOutput::DisplayData { data, metadata } => output@ == (
            IpynbCodeOutputView::DisplayData {
                data: crate::output::data_view(data@),
                metadata: crate::output::metadata_view(metadata@),
            }),
            IpynbCodeOutput::ExecutionResult { execution_count, data, metadata } => output@ == (
            IpynbCodeOutputView::ExecutionResult {
                execution_count,
                data: crate::output::data_view(data@),
                metadata: crate::output::metadata_view(metadata@),
            }),
        },
        match text {
            StreamOutputText::Text(string) => text@ == StreamOutputTextView::Text(string@),
            StreamOutputText::MultiLineText(lines) => text@ == StreamOutputTextView::MultiLineText(
                crate::text::texts(lines@),
            ),
        },
        match data {
            MimeData::MultiLineText(lines) => data@ == MimeDataView::MultiLineText(
                crate::text::texts(lines@),
            ),
            MimeData::B64EncodedMultiLineText(lines) => data@
                == MimeDataView::B64EncodedMultiLineText(crate::text::texts(lines@)),
            MimeData::Json(entries) => data@ == MimeDataView::Json(
                crate::json::entries_view(entries@),
            ),
        },
        crate::output_reading::optional_outputs_view(None) is None,
        crate::output_reading::optional_outputs_view(Some(outputs)) == Some(
            outputs@.map_values(|output: IpynbCodeOutput| output@),
        ),
{
}

} // verus!
