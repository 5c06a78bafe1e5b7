//! What the cells of a notebook have printed.
use crate::buffer::{Buffer, BufferId, BufferView, Buffers};
use crate::cell::PhonyFile;
use crate::json::{Json, JsonView, ParseError};
use vstd::prelude::*;
use vstd::string::*;

verus! {

/// The text that was written to a stream.
#[derive(Debug)]
pub enum StreamOutputText {
    Text(String),
    MultiLineText(Vec<String>),
}

/// An output of a code cell.
/// <https://nbformat.readthedocs.io/en/latest/format_description.html#code-cell-outputs>
#[derive(Debug)]
pub enum IpynbCodeOutput {
    Stream { name: StreamOutputTarget, text: StreamOutputText },
    /// No two of the keys of `data`, nor of those of `metadata`, are the same.
    DisplayData { data: Vec<(MimeType, MimeData)>, metadata: Vec<(MimeType, Vec<(String, Json)>)> },
    /// No two of the keys of `data`, nor of those of `metadata`, are the same.
    ExecutionResult {
        execution_count: usize,
        data: Vec<(MimeType, MimeData)>,
        metadata: Vec<(MimeType, Vec<(String, Json)>)>,
    },
}

/// The nature of some data.
#[derive(Clone, Copy, Debug, PartialEq, Eq, Structural)]
pub enum MimeType {
    Plain,
    Html,
    Latex,
    Javascript,
    Markdown,
    Svg,
    Png,
    Jpeg,
    Gif,
    Json,
    GeoJson,
    DataTable,
    Plotly,
    WidgetView,
    WidgetState,
    VegaLiteV2,
    VegaLiteV3,
    VegaLiteV4,
    VegaLiteV5,
    VegaLiteV6,
    VegaV3,
    VegaV4,
    VegaV5,
    Vdom,
    /// Any other nature.
    Other,
}

/// The data of one MIME type.
/// <https://nbformat.readthedocs.io/en/latest/format_description.html#display-data>
#[derive(Debug)]
pub enum MimeData {
    MultiLineText(Vec<String>),
    B64EncodedMultiLineText(Vec<String>),
    Json(Vec<(String, Json)>),
}

/// The stream that a text was written to.
#[derive(Clone, Copy, Debug, PartialEq, Eq, Structural)]
pub enum StreamOutputTarget {
    Stdout,
    Stderr,
}

/// How an output is shown.
#[derive(Debug)]
pub enum OutputHandler {
    /// As a text, or not at all.
    Print(Option<String>),
}

/// Whether outputs can be shown as anything but text.
pub const MEDIA_SUPPORTED: bool = false;

/// `lines`, each without a line break at its end, as one text.
pub open spec fn lines_text(lines: Seq<Seq<char>>) -> Seq<char> {
    crate::text::joined(
        lines.map_values(|line: Seq<char>| crate::text::without_line_break(line)),
        "\n"@,
    )
}

/// What a [`StreamOutputText`] holds.
pub enum StreamOutputTextView {
    Text(Seq<char>),
    MultiLineText(Seq<Seq<char>>),
}

impl View for StreamOutputText {
    type V = StreamOutputTextView;

    open spec fn view(&self) -> StreamOutputTextView {
        match self {
            StreamOutputText::Text(text) => StreamOutputTextView::Text(text@),
            StreamOutputText::MultiLineText(lines) => StreamOutputTextView::MultiLineText(
                crate::text::texts(lines@),
            ),
        }
    }
}

/// What a [`MimeData`] holds.
pub enum MimeDataView {
    MultiLineText(Seq<Seq<char>>),
    B64EncodedMultiLineText(Seq<Seq<char>>),
    Json(Seq<(Seq<char>, JsonView)>),
}

impl View for MimeData {
    type V = MimeDataView;

    open spec fn view(&self) -> MimeDataView {
        match self {
            MimeData::MultiLineText(lines) => MimeDataView::MultiLineText(
                crate::text::texts(lines@),
            ),
            MimeData::B64EncodedMultiLineText(lines) => MimeDataView::B64EncodedMultiLineText(
                crate::text::texts(lines@),
            ),
            MimeData::Json(entries) => MimeDataView::Json(crate::json::entries_view(entries@)),
        }
    }
}

/// What an [`IpynbCodeOutput`] holds.
pub enum IpynbCodeOutputView {
    Stream { name: StreamOutputTarget, text: StreamOutputTextView },
    DisplayData {
        data: Seq<(MimeType, MimeDataView)>,
        metadata: Seq<(MimeType, Seq<(Seq<char>, JsonView)>)>,
    },
    ExecutionResult {
        execution_count: usize,
        data: Seq<(MimeType, MimeDataView)>,
        metadata: Seq<(MimeType, Seq<(Seq<char>, JsonView)>)>,
    },
}

/// `list`, with `f` of each of its values.
pub open spec fn mapped<V, W>(list: Seq<(MimeType, V)>, f: spec_fn(V) -> W) -> Seq<(MimeType, W)> {
    list.map_values(|item: (MimeType, V)| (item.0, f(item.1)))
}

/// What the data of several natures stand for.
pub open spec fn data_view(data: Seq<(MimeType, MimeData)>) -> Seq<(MimeType, MimeDataView)> {
    mapped(data, |data: MimeData| data@)
}

/// What the entries for several natures stand for.
pub open spec fn metadata_view(metadata: Seq<(MimeType, Vec<(String, Json)>)>) -> Seq<
    (MimeType, Seq<(Seq<char>, JsonView)>),
> {
    mapped(metadata, |entries: Vec<(String, Json)>| crate::json::entries_view(entries@))
}

impl View for IpynbCodeOutput {
    type V = IpynbCodeOutputView;

    open spec fn view(&self) -> IpynbCodeOutputView {
        match self {
            IpynbCodeOutput::Stream { name, text } => IpynbCodeOutputView::Stream {
                name: *name,
                text: text@,
            },
            IpynbCodeOutput::DisplayData { data, metadata } => IpynbCodeOutputView::DisplayData {
                data: data_view(data@),
                metadata: metadata_view(metadata@),
            },
            IpynbCodeOutput::ExecutionResult { execution_count, data, metadata } => {
                IpynbCodeOutputView::ExecutionResult {
                    execution_count: *execution_count,
                    data: data_view(data@),
                    metadata: metadata_view(metadata@),
                }
            },
        }
    }
}

/// What several outputs hold.
pub open spec fn outputs_view(outputs: Seq<IpynbCodeOutput>) -> Seq<IpynbCodeOutputView> {
    outputs.map_values(|output: IpynbCodeOutput| output@)
}

impl StreamOutputTextView {
    /// The text as a whole.
    pub open spec fn text(self) -> Seq<char> {
        match self {
            StreamOutputTextView::Text(text) => text,
            StreamOutputTextView::MultiLineText(lines) => lines_text(lines),
        }
    }
}

impl Clone for StreamOutputText {
    fn clone(&self) -> (text: StreamOutputText)
        ensures
            text@ == self@,
    {
        match self {
            StreamOutputText::Text(text) => StreamOutputText::Text(text.clone()),
            StreamOutputText::MultiLineText(lines) => {
                let copy = lines.clone();
                assert(crate::text::texts(copy@) =~= crate::text::texts(lines@));
                StreamOutputText::MultiLineText(copy)
            },
        }
    }
}

impl IpynbCodeOutputView {
    /// The text that is shown for the output, if any is: only what was written to the standard
    /// output is shown.
    pub open spec fn shown(self) -> Option<Seq<char>> {
        match self {
            IpynbCodeOutputView::Stream { name: StreamOutputTarget::Stdout, text } => Some(
                text.text(),
            ),
            _ => None,
        }
    }
}

/// The texts that are shown for `outputs`, each followed by a line break.
pub open spec fn shown_text(outputs: Seq<IpynbCodeOutputView>) -> Seq<char>
    decreases outputs.len(),
{
    if outputs.len() == 0 {
        Seq::empty()
    } else {
        match outputs.last().shown() {
            Some(text) => shown_text(outputs.drop_last()) + text + "\n"@,
            None => shown_text(outputs.drop_last()),
        }
    }
}

/// `lines`, each without the line break at its end, as one text.
pub fn join_lines(lines: &Vec<String>) -> (text: String)
    ensures
        text@ == lines_text(crate::text::texts(lines@)),
{
    let ghost whole = crate::text::texts(lines@);
    let mut stripped: Vec<String> = Vec::new();
    let mut i: usize = 0;
    while i < lines.len()
        invariant
            i <= lines.len(),
            stripped.len() == i,
            forall|j: int|
                0 <= j < i ==> (#[trigger] stripped@[j])@ == crate::text::without_line_break(
                    lines@[j]@,
                ),
        decreases lines.len() - i,
    {
        stripped.push(crate::text::strip_line_break(lines[i].as_str()));
        i += 1;
    }
    proof {
        assert(crate::text::texts(stripped@) =~= whole.map_values(
            |line: Seq<char>| crate::text::without_line_break(line),
        ));
    }
    crate::text::join(&stripped, "\n")
}

impl OutputHandler {
    /// The text that is shown, if any is.
    pub open spec fn printed(self) -> Option<Seq<char>> {
        match self {
            OutputHandler::Print(text) => crate::text::optional_text(text),
        }
    }

    /// Shows `text`.
    pub fn print(text: Option<StreamOutputText>) -> (handler: OutputHandler)
        ensures
            handler.printed() == match text {
                Some(text) => Some(text@.text()),
                None => None,
            },
    {
        match text {
            Some(StreamOutputText::Text(text)) => OutputHandler::Print(Some(text)),
            Some(StreamOutputText::MultiLineText(lines)) => OutputHandler::Print(
                Some(join_lines(&lines)),
            ),
            None => OutputHandler::Print(None),
        }
    }

    /// The text that is shown, if any is.
    pub fn as_rope(&self) -> (rope: Option<String>)
        ensures
            crate::text::optional_text(rope) == self.printed(),
    {
        match self {
            OutputHandler::Print(Some(text)) => Some(text.clone()),
            OutputHandler::Print(None) => None,
        }
    }

    /// Shows an output as something other than text, once that is supported.
    pub fn to_media()
        requires
            MEDIA_SUPPORTED,
    {
    }

    /// How `output` is shown.
    pub fn try_from(output: &IpynbCodeOutput) -> (handler: Result<OutputHandler, ParseError>)
        ensures
            handler matches Ok(handler) && handler.printed() == output@.shown(),
    {
        match output {
            IpynbCodeOutput::Stream { name, text } => match name {
                StreamOutputTarget::Stdout => Ok(OutputHandler::print(Some(text.clone()))),
                StreamOutputTarget::Stderr => Ok(OutputHandler::print(None)),
            },
            IpynbCodeOutput::DisplayData { .. } => Ok(OutputHandler::print(None)),
            IpynbCodeOutput::ExecutionResult { .. } => Ok(OutputHandler::print(None)),
        }
    }

    /// Puts the texts that are shown for `outputs` in a new buffer, which is shown as `title`.
    pub fn try_as_buffer(
        outputs: &Vec<IpynbCodeOutput>,
        title: PhonyFile,
        cx: &mut Buffers,
    ) -> (id: Option<BufferId>)
        ensures
            id == Some(BufferId { index: old(cx).models@.len() as usize }),
            old(cx).models@.len() <= usize::MAX,
            final(cx)@ == old(cx)@.push(
                BufferView {
                    file: Some(title@),
                    ..BufferView::local(shown_text(outputs_view(outputs@)))
                },
            ),
    {
        let ghost views = outputs_view(outputs@);
        let mut content = String::new();
        let mut i: usize = 0;
        while i < outputs.len()
            invariant
                i <= outputs.len(),
                views == outputs_view(outputs@),
                content@ == shown_text(views.take(i as int)),
            decreases outputs.len() - i,
        {
            proof {
                assert(views.take(i + 1).drop_last() =~= views.take(i as int));
                assert(views.take(i + 1).last() == outputs@[i as int]@);
            }
            if let Ok(handler) = OutputHandler::try_from(&outputs[i]) {
                if let Some(text) = handler.as_rope() {
                    content.append(text.as_str());
                    content.append("\n");
                }
            }
            i += 1;
        }
        proof {
            assert(views.take(i as int) =~= views);
        }
        let mut buffer = Buffer::local(content);
        buffer.file_updated(title);
        Some(cx.new_model(buffer))
    }
}

} // verus!
