//! The cells of a notebook: their data, what they print, and how they are read from a document.
use crate::buffer::{Buffer, BufferId, BufferView, Buffers};
use crate::json::{Json, JsonView, ParseError};
use crate::output::{IpynbCodeOutput, IpynbCodeOutputView, OutputHandler};
use crate::summary::{Point, TextSummary};
use vstd::prelude::*;
use vstd::string::*;

verus! {

/// The place of a cell in its notebook. The first cell has the number 1.
#[derive(Clone, Copy, Debug, Default, Hash, PartialEq, PartialOrd, Ord, Eq, Structural)]
pub struct CellId(pub u64);

impl From<u64> for CellId {
    fn from(id: u64) -> (cell_id: CellId) {
        CellId(id)
    }
}

impl vstd::std_specs::convert::FromSpecImpl<u64> for CellId {
    open spec fn obeys_from_spec() -> bool {
        true
    }

    open spec fn from_spec(id: u64) -> CellId {
        CellId(id)
    }
}

impl From<CellId> for u64 {
    fn from(id: CellId) -> (number: u64) {
        id.0
    }
}

impl vstd::std_specs::convert::FromSpecImpl<CellId> for u64 {
    open spec fn obeys_from_spec() -> bool {
        true
    }

    open spec fn from_spec(id: CellId) -> u64 {
        id.0
    }
}

impl CellId {
    /// The least number, which no cell of a notebook has.
    pub fn min() -> (id: CellId)
        ensures
            id == CellId(0),
    {
        CellId(0)
    }

    /// Steps to the next number and returns it.
    pub fn pre_inc(&mut self) -> (id: CellId)
        requires
            old(self).0 < u64::MAX,
        ensures
            *final(self) == CellId((old(self).0 + 1) as u64),
            id == *final(self),
    {
        self.0 += 1;
        *self
    }

    /// Steps to the next number and returns the one before.
    pub fn post_inc(&mut self) -> (id: CellId)
        requires
            old(self).0 < u64::MAX,
        ensures
            *final(self) == CellId((old(self).0 + 1) as u64),
            id == *old(self),
    {
        let id = *self;
        self.0 += 1;
        id
    }
}

/// What a cell holds.
/// <https://nbformat.readthedocs.io/en/latest/format_description.html#cell-types>
#[derive(Clone, Copy, Debug, PartialEq, Eq, Structural)]
pub enum CellType {
    Raw,
    Markdown,
    Code,
    /// A turn of a conversation with a language model.
    Chat,
}

impl Default for CellType {
    fn default() -> (cell_type: CellType)
        ensures
            cell_type == CellType::Code,
    {
        CellType::Code
    }
}

impl CellType {
    /// The cell type of that name in a document, if there is one.
    pub open spec fn named(name: Seq<char>) -> Option<CellType> {
        if name == "raw"@ {
            Some(CellType::Raw)
        } else if name == "markdown"@ {
            Some(CellType::Markdown)
        } else if name == "code"@ {
            Some(CellType::Code)
        } else {
            None
        }
    }

    /// The name under which a cell of this type is shown.
    pub open spec fn label(self) -> Seq<char> {
        match self {
            CellType::Raw => "Raw"@,
            CellType::Markdown => "Markdown"@,
            CellType::Code => "Code"@,
            CellType::Chat => "Chat"@,
        }
    }

    /// Reads the name of a cell type.
    pub fn visit_str(cell_type: &str) -> (result: Result<CellType, ParseError>)
        ensures
            result == match CellType::named(cell_type@) {
                Some(cell_type) => Ok(cell_type),
                None => Err(ParseError),
            },
    {
        if crate::text::same_text(cell_type, "raw") {
            Ok(CellType::Raw)
        } else if crate::text::same_text(cell_type, "markdown") {
            Ok(CellType::Markdown)
        } else if crate::text::same_text(cell_type, "code") {
            Ok(CellType::Code)
        } else {
            Err(ParseError)
        }
    }

    /// The name under which a cell of this type is shown.
    pub fn name(&self) -> (name: &'static str)
        ensures
            name@ == self.label(),
    {
        match self {
            CellType::Raw => "Raw",
            CellType::Markdown => "Markdown",
            CellType::Code => "Code",
            CellType::Chat => "Chat",
        }
    }
}

/// A file that exists only to give an excerpt its title.
#[derive(Debug)]
pub struct PhonyFile {
    pub worktree_id: usize,
    /// The components of the path that is shown as the title.
    pub title: Vec<String>,
    pub cell_idx: CellId,
    pub cell_id: Option<String>,
}

/// What a [`PhonyFile`] stands for.
pub struct PhonyFileView {
    pub worktree_id: usize,
    pub title: Seq<Seq<char>>,
    pub cell_idx: CellId,
    pub cell_id: Option<Seq<char>>,
}

impl View for PhonyFile {
    type V = PhonyFileView;

    open spec fn view(&self) -> PhonyFileView {
        PhonyFileView {
            worktree_id: self.worktree_id,
            title: crate::text::texts(self.title@),
            cell_idx: self.cell_idx,
            cell_id: crate::text::optional_text(self.cell_id),
        }
    }
}

impl PhonyFile {
    /// The components of the path that is shown as the title.
    pub fn path(&self) -> (path: &Vec<String>)
        ensures
            *path == self.title,
    {
        &self.title
    }

    /// The worktree that the file is said to belong to.
    pub fn worktree_id(&self) -> (worktree_id: usize)
        ensures
            worktree_id == self.worktree_id,
    {
        self.worktree_id
    }

    /// A file that does not exist is not deleted.
    pub fn is_deleted(&self) -> (deleted: bool)
        ensures
            !deleted,
    {
        false
    }

    /// A file that does not exist is not created.
    pub fn is_created(&self) -> (created: bool)
        ensures
            !created,
    {
        false
    }

    /// A file that does not exist is not private.
    pub fn is_private(&self) -> (private: bool)
        ensures
            !private,
    {
        false
    }
}

/// The path components of the title of an excerpt.
pub open spec fn excerpt_title(idx: u64, cell_type: CellType, for_output: bool) -> Seq<Seq<char>> {
    if for_output {
        seq!["[Output — Cell "@ + crate::text::decimal(idx as nat) + "]"@]
    } else {
        seq![
            "("@ + cell_type.label() + ")  "@,
            "Cell "@ + crate::text::decimal(idx as nat),
        ]
    }
}

/// The file whose path is the title of an excerpt.
pub open spec fn excerpt_file(
    idx: u64,
    cell_id: Option<Seq<char>>,
    cell_type: CellType,
    for_output: bool,
) -> PhonyFileView {
    PhonyFileView {
        worktree_id: 0,
        title: excerpt_title(idx, cell_type, for_output),
        cell_idx: CellId(idx),
        cell_id,
    }
}

/// The file under whose name the source of a cell, or its output, is shown.
pub fn title_for_cell_excerpt(
    idx: u64,
    cell_id: Option<&String>,
    cell_type: &CellType,
    for_output: bool,
) -> (file: PhonyFile)
    ensures
        file@ == excerpt_file(
            idx,
            match cell_id {
                Some(id) => Some(id@),
                None => None,
            },
            *cell_type,
            for_output,
        ),
{
    let number = crate::text::decimal_string(idx);
    let mut title: Vec<String> = Vec::new();
    if for_output {
        let mut component = "[Output — Cell ".to_owned();
        component.append(number.as_str());
        component.append("]");
        title.push(component);
    } else {
        let mut kind = "(".to_owned();
        kind.append(cell_type.name());
        kind.append(")  ");
        title.push(kind);
        let mut component = "Cell ".to_owned();
        component.append(number.as_str());
        title.push(component);
    }
    assert(crate::text::texts(title@) =~= excerpt_title(idx, *cell_type, for_output));
    PhonyFile {
        worktree_id: 0,
        title,
        cell_idx: CellId(idx),
        cell_id: match cell_id {
            Some(id) => Some(id.clone()),
            None => None,
        },
    }
}

/// How far the work on a cell has come, with a note on it.
#[derive(Debug)]
pub enum ExecutionState {
    Running(String),
    Succeeded(String),
    Failed(String),
}

/// What an [`ExecutionState`] stands for.
pub enum ExecutionStateView {
    Running(Seq<char>),
    Succeeded(Seq<char>),
    Failed(Seq<char>),
}

impl View for ExecutionState {
    type V = ExecutionStateView;

    open spec fn view(&self) -> ExecutionStateView {
        match self {
            ExecutionState::Running(note) => ExecutionStateView::Running(note@),
            ExecutionState::Succeeded(note) => ExecutionStateView::Succeeded(note@),
            ExecutionState::Failed(note) => ExecutionStateView::Failed(note@),
        }
    }
}

/// A cell of a notebook.
#[derive(Debug)]
pub struct Cell {
    /// The place of the cell in its notebook.
    pub id: CellId,
    /// The `msg_id` of the latest `execute_request` message sent to request the execution of the
    /// cell.
    pub latest_execution_request_msg_id: Option<String>,
    pub text_summary: TextSummary,
    /// The `cell_id` that the document gives the cell.
    pub cell_id: Option<String>,
    pub cell_type: CellType,
    pub metadata: Vec<(String, Json)>,
    pub source: BufferId,
    pub execution_count: Option<usize>,
    pub outputs: Option<Vec<IpynbCodeOutput>>,
    pub output_content: Option<BufferId>,
    pub state: Option<ExecutionState>,
}

/// What a cell holds.
pub struct CellView {
    pub id: CellId,
    pub latest_execution_request_msg_id: Option<Seq<char>>,
    pub text_summary: TextSummary,
    pub cell_id: Option<Seq<char>>,
    pub cell_type: CellType,
    pub metadata: Seq<(Seq<char>, JsonView)>,
    pub source: BufferId,
    pub execution_count: Option<usize>,
    pub outputs: Option<Seq<IpynbCodeOutputView>>,
    pub output_content: Option<BufferId>,
    pub state: Option<ExecutionStateView>,
}

impl View for Cell {
    type V = CellView;

    open spec fn view(&self) -> CellView {
        CellView {
            id: self.id,
            latest_execution_request_msg_id: crate::text::optional_text(
                self.latest_execution_request_msg_id,
            ),
            text_summary: self.text_summary,
            cell_id: crate::text::optional_text(self.cell_id),
            cell_type: self.cell_type,
            metadata: crate::json::entries_view(self.metadata@),
            source: self.source,
            execution_count: self.execution_count,
            outputs: crate::output_reading::optional_outputs_view(self.outputs),
            output_content: self.output_content,
            state: match self.state {
                Some(state) => Some(state@),
                None => None,
            },
        }
    }
}

/// Whether the extent of the text of a cell with these buffers can be written as a
/// [`TextSummary`].
pub open spec fn measurable(
    source: BufferId,
    output: Option<BufferId>,
    buffers: Seq<BufferView>,
) -> bool {
    let source = buffers[source.index as int].text;
    &&& crate::summary::summarizable(source)
    &&& output matches Some(output) ==> {
        let output = buffers[output.index as int].text;
        let first = crate::summary::summary_of(source);
        let second = crate::summary::summary_of(output);
        &&& crate::summary::summarizable(output)
        &&& first.can_append(second)
        &&& first.appended(second).lines.row < u32::MAX
    }
}

/// The extent of the text of a cell with these buffers: that of its source, or that of its source
/// and its output with a row between them.
pub open spec fn measured(
    source: BufferId,
    output: Option<BufferId>,
    buffers: Seq<BufferView>,
) -> TextSummary {
    let source = crate::summary::summary_of(buffers[source.index as int].text);
    match output {
        Some(output) => {
            let output = crate::summary::summary_of(buffers[output.index as int].text);
            let both = source.appended(output);
            let lines = Point { row: (both.lines.row + 1) as u32, ..both.lines };
            TextSummary { lines, ..both }
        },
        None => source,
    }
}

impl Cell {
    /// The buffers of the cell: its source, and then its output if it has one.
    pub open spec fn handles(self) -> Seq<BufferId> {
        match self.output_content {
            Some(output) => seq![self.source, output],
            None => seq![self.source],
        }
    }

    /// Whether the buffers of the cell are among `buffers`.
    pub open spec fn valid(self, buffers: Seq<BufferView>) -> bool {
        &&& self.source.valid(buffers)
        &&& self.output_content matches Some(output) ==> output.valid(buffers)
    }

    /// `buffers` with the titles of the cell on its buffers.
    pub open spec fn titled(self, buffers: Seq<BufferView>) -> Seq<BufferView> {
        let cell_id = crate::text::optional_text(self.cell_id);
        let with_source = crate::buffer::with_file(
            buffers,
            self.source,
            excerpt_file(self.id.0, cell_id, self.cell_type, false),
        );
        match self.output_content {
            Some(output) => crate::buffer::with_file(
                with_source,
                output,
                excerpt_file(self.id.0, cell_id, self.cell_type, true),
            ),
            None => with_source,
        }
    }

    /// Whether the extent of the text of the cell can be written as a [`TextSummary`].
    pub open spec fn measurable(self, buffers: Seq<BufferView>) -> bool {
        measurable(self.source, self.output_content, buffers)
    }

    /// The extent of the text of the cell.
    pub open spec fn measured(self, buffers: Seq<BufferView>) -> TextSummary {
        measured(self.source, self.output_content, buffers)
    }

    /// Puts the titles of the cell on its buffers.
    pub fn update_titles(&self, cx: &mut Buffers)
        requires
            self.valid(old(cx)@),
        ensures
            final(cx)@ == self.titled(old(cx)@),
    {
        let title = title_for_cell_excerpt(
            self.id.0,
            self.cell_id.as_ref(),
            &self.cell_type,
            false,
        );
        cx.file_updated(self.source, title);
        if let Some(output) = self.output_content {
            let title = title_for_cell_excerpt(
                self.id.0,
                self.cell_id.as_ref(),
                &self.cell_type,
                true,
            );
            cx.file_updated(output, title);
        }
    }

    /// Moves the cell one place on, and puts its new titles on its buffers.
    pub fn increment_id(&mut self, cx: &mut Buffers)
        requires
            old(self).id.0 < u64::MAX,
            old(self).valid(old(cx)@),
        ensures
            *final(self) == (Cell { id: CellId((old(self).id.0 + 1) as u64), ..*old(self) }),
            final(cx)@ == final(self).titled(old(cx)@),
    {
        let mut id = self.id;
        self.id = id.pre_inc();
        self.update_titles(cx);
    }

    /// Measures the text of the cell anew.
    pub fn update_text_summary(&mut self, cx: &Buffers)
        requires
            old(self).valid(cx@),
            old(self).measurable(cx@),
        ensures
            *final(self) == (Cell { text_summary: old(self).measured(cx@), ..*old(self) }),
    {
        self.text_summary = cx.read(self.source).text_summary();
        if let Some(output) = self.output_content {
            self.text_summary.append(&cx.read(output).text_summary());
            self.text_summary.lines.row += 1;
        }
    }

    /// The buffers of the cell: its source, and then its output if it has one.
    pub fn buffer_handles(&self) -> (handles: Vec<BufferId>)
        ensures
            handles@ == self.handles(),
    {
        let mut handles: Vec<BufferId> = Vec::new();
        handles.push(self.source);
        if let Some(output) = self.output_content {
            handles.push(output);
        }
        assert(handles@ =~= self.handles());
        handles
    }
}

/// Collects the parts of a cell.
#[derive(Debug)]
pub struct CellBuilder {
    pub id: u64,
    pub text_summary: Option<TextSummary>,
    pub cell_id: Option<String>,
    pub cell_type: Option<CellType>,
    pub metadata: Option<Vec<(String, Json)>>,
    pub source: Option<BufferId>,
    pub execution_count: Option<usize>,
    pub outputs: Option<Vec<IpynbCodeOutput>>,
    pub output_content: Option<BufferId>,
}

/// The parts that a [`CellBuilder`] has collected.
pub struct CellBuilderView {
    pub id: u64,
    pub text_summary: Option<TextSummary>,
    pub cell_id: Option<Seq<char>>,
    pub cell_type: Option<CellType>,
    pub metadata: Option<Seq<(Seq<char>, JsonView)>>,
    pub source: Option<BufferId>,
    pub execution_count: Option<usize>,
    pub outputs: Option<Seq<IpynbCodeOutputView>>,
    pub output_content: Option<BufferId>,
}

/// A builder and the buffers at one time.
pub struct BuildState {
    pub builder: CellBuilderView,
    pub buffers: Seq<BufferView>,
}

impl View for CellBuilder {
    type V = CellBuilderView;

    open spec fn view(&self) -> CellBuilderView {
        CellBuilderView {
            id: self.id,
            text_summary: self.text_summary,
            cell_id: crate::text::optional_text(self.cell_id),
            cell_type: self.cell_type,
            metadata: crate::json::optional_entries_view(self.metadata),
            source: self.source,
            execution_count: self.execution_count,
            outputs: crate::output_reading::optional_outputs_view(self.outputs),
            output_content: self.output_content,
        }
    }
}

/// The text of the source that a document gives for a cell, if it has the form of one: a string,
/// or an array of lines. The text always ends with a line break.
pub open spec fn source_text(value: JsonView) -> Option<Seq<char>> {
    match value {
        JsonView::String(text) => Some(text + "\n"@),
        JsonView::Array(_) => match value.as_texts() {
            Ok(lines) => Some(crate::output::lines_text(lines) + "\n"@),
            Err(_) => None,
        },
        _ => None,
    }
}

impl CellBuilderView {
    /// A builder that has collected nothing but the place of the cell.
    pub open spec fn empty(id: u64) -> CellBuilderView {
        CellBuilderView {
            id,
            text_summary: None,
            cell_id: None,
            cell_type: None,
            metadata: None,
            source: None,
            execution_count: None,
            outputs: None,
            output_content: None,
        }
    }

    /// `buffers` with the title of the cell on its source, once both the type of the cell and its
    /// source are known.
    pub open spec fn retitled(self, buffers: Seq<BufferView>) -> Seq<BufferView> {
        match (self.cell_type, self.source) {
            (Some(cell_type), Some(source)) => crate::buffer::with_file(
                buffers,
                source,
                excerpt_file(self.id, self.cell_id, cell_type, false),
            ),
            _ => buffers,
        }
    }
}

impl CellBuilderView {
    /// The cell that is put together: what was not given is left empty, the type is
    /// [`CellType::Code`] unless given, and the text is measured as it is in `buffers`.
    pub open spec fn built(self, buffers: Seq<BufferView>) -> CellView {
        CellView {
            id: CellId(self.id),
            latest_execution_request_msg_id: None,
            text_summary: measured(self.source->0, self.output_content, buffers),
            cell_id: self.cell_id,
            cell_type: match self.cell_type {
                Some(cell_type) => cell_type,
                None => CellType::Code,
            },
            metadata: match self.metadata {
                Some(metadata) => metadata,
                None => Seq::empty(),
            },
            source: self.source->0,
            execution_count: self.execution_count,
            outputs: self.outputs,
            output_content: self.output_content,
            state: None,
        }
    }
}

impl BuildState {
    /// After the parts were collected: the title of the source follows them.
    pub open spec fn settled(self) -> BuildState {
        BuildState { buffers: self.builder.retitled(self.buffers), ..self }
    }

    /// After the entry `value` under `key`. A new source needs an open project.
    pub open spec fn entry(
        self,
        key: Seq<char>,
        value: JsonView,
        project_open: bool,
    ) -> BuildState {
        let builder = self.builder;
        if key == "cell_id"@ {
            let cell_id = match value {
                JsonView::String(text) => Some(text),
                _ => None,
            };
            BuildState { builder: CellBuilderView { cell_id, ..builder }, ..self }.settled()
        } else if key == "cell_type"@ {
            let cell_type = match value {
                JsonView::String(text) => CellType::named(text),
                _ => None,
            };
            BuildState { builder: CellBuilderView { cell_type, ..builder }, ..self }.settled()
        } else if key == "metadata"@ {
            let metadata = match value {
                JsonView::Object(entries) => Some(entries),
                _ => None,
            };
            BuildState { builder: CellBuilderView { metadata, ..builder }, ..self }.settled()
        } else if key == "source"@ {
            match source_text(value) {
                Some(text) => {
                    let text_summary = Some(crate::summary::summary_of(text));
                    let measured = CellBuilderView { text_summary, ..builder };
                    if project_open {
                        let source = Some(BufferId { index: self.buffers.len() as usize });
                        BuildState {
                            builder: CellBuilderView { source, ..measured },
                            buffers: self.buffers.push(BufferView::local(text)),
                        }.settled()
                    } else {
                        BuildState { builder: measured, ..self }
                    }
                },
                None => self,
            }
        } else if key == "execution_count"@ {
            let execution_count = match value.as_optional_count() {
                Ok(count) => count,
                Err(_) => None,
            };
            BuildState { builder: CellBuilderView { execution_count, ..builder }, ..self }.settled()
        } else if key == "outputs"@ {
            match IpynbCodeOutputView::read_all(value) {
                Ok(Some(list)) => if list.len() == 0 {
                    BuildState {
                        builder: CellBuilderView {
                            outputs: Some(list),
                            output_content: None,
                            ..builder
                        },
                        ..self
                    }.settled()
                } else {
                    let cell_type = match builder.cell_type {
                        Some(cell_type) => cell_type,
                        None => CellType::Raw,
                    };
                    BuildState {
                        builder: CellBuilderView {
                            outputs: Some(list),
                            output_content: Some(BufferId { index: self.buffers.len() as usize }),
                            ..builder
                        },
                        buffers: self.buffers.push(
                            BufferView {
                                file: Some(
                                    excerpt_file(builder.id, builder.cell_id, cell_type, true),
                                ),
                                ..BufferView::local(crate::output::shown_text(list))
                            },
                        ),
                    }.settled()
                },
                Ok(None) => BuildState {
                    builder: CellBuilderView { outputs: None, output_content: None, ..builder },
                    ..self
                }.settled(),
                Err(_) => self,
            }
        } else {
            self.settled()
        }
    }

    /// After all of `entries`.
    pub open spec fn entries(
        self,
        entries: Seq<(Seq<char>, JsonView)>,
        project_open: bool,
    ) -> BuildState
        decreases entries.len(),
    {
        if entries.len() == 0 {
            self
        } else {
            self.entries(entries.drop_last(), project_open).entry(
                entries.last().0,
                entries.last().1,
                project_open,
            )
        }
    }
}

/// Reads the lines of a source and puts them together.
pub(crate) fn parse_source(value: Json) -> (text: Option<String>)
    ensures
        crate::text::optional_text(text) == source_text(value@),
{
    match value {
        Json::String(src) => {
            let mut text = src;
            text.append("\n");
            Some(text)
        },
        Json::Array(src_lines) => match Json::Array(src_lines).parse_strings() {
            Ok(lines) => {
                let mut text = crate::output::join_lines(&lines);
                text.append("\n");
                Some(text)
            },
            Err(_) => None,
        },
        _ => None,
    }
}

impl CellBuilder {
    /// Whether the buffers of the cell are two different ones, both among `buffers` from the place
    /// `from` on.
    pub open spec fn within(self, from: int, buffers: Seq<BufferView>) -> bool {
        &&& self.source matches Some(source) ==> from <= source.index < buffers.len()
        &&& self.output_content matches Some(output) ==> from <= output.index < buffers.len()
        &&& self.source is Some && self.output_content is Some ==> self.source
            != self.output_content
    }

    /// A builder of the cell at place `id`.
    pub fn new(id: u64) -> (builder: CellBuilder)
        ensures
            builder@ == CellBuilderView::empty(id),
    {
        CellBuilder {
            id,
            text_summary: None,
            cell_id: None,
            cell_type: None,
            metadata: None,
            source: None,
            execution_count: None,
            outputs: None,
            output_content: None,
        }
    }

    /// Sets the source of the cell.
    pub fn source(self, source: BufferId) -> (builder: CellBuilder)
        ensures
            builder@ == (CellBuilderView { source: Some(source), ..self@ }),
    {
        let mut builder = self;
        builder.source = Some(source);
        builder
    }

    /// Sets the type of the cell.
    pub fn cell_type(self, cell_type: CellType) -> (builder: CellBuilder)
        ensures
            builder@ == (CellBuilderView { cell_type: Some(cell_type), ..self@ }),
    {
        let mut builder = self;
        builder.cell_type = Some(cell_type);
        builder
    }

    /// Puts the title of the cell on its source, once both the type of the cell and its source are
    /// known.
    fn update_source_title(&self, cx: &mut Buffers)
        requires
            self@.source matches Some(source) ==> source.valid(old(cx)@),
        ensures
            final(cx)@ == self@.retitled(old(cx)@),
    {
        if let Some(cell_type) = self.cell_type {
            if let Some(source) = self.source {
                let title = title_for_cell_excerpt(
                    self.id,
                    self.cell_id.as_ref(),
                    &cell_type,
                    false,
                );
                cx.file_updated(source, title);
            }
        }
    }

    /// Takes the entry `value` under `key` in. An entry that does not have the form of its key
    /// leaves the parts as they are.
    fn process_entry(
        &mut self,
        key: &str,
        value: Json,
        project_open: bool,
        cx: &mut Buffers,
    )
        requires
            old(self).source matches Some(source) ==> source.valid(old(cx)@),
            key@ == "source"@ ==> (source_text(value@) matches Some(text)
                ==> crate::summary::summarizable(text)),
        ensures
            (BuildState { builder: final(self)@, buffers: final(cx)@ }) == (BuildState {
                builder: old(self)@,
                buffers: old(cx)@,
            }).entry(key@, value@, project_open),
            final(self).source matches Some(source) ==> source.valid(final(cx)@),
            final(self).id == old(self).id,
            old(cx)@.len() <= final(cx)@.len(),
            forall|from: int|
                from <= old(cx)@.len() && #[trigger] old(self).within(from, old(cx)@)
                    ==> final(self).within(from, final(cx)@),
    {
        if crate::text::same_text(key, "cell_id") {
            self.cell_id = match value {
                Json::String(text) => Some(text),
                _ => None,
            };
        } else if crate::text::same_text(key, "cell_type") {
            self.cell_type = match value {
                Json::String(text) => match CellType::visit_str(text.as_str()) {
                    Ok(cell_type) => Some(cell_type),
                    Err(_) => None,
                },
                _ => None,
            };
        } else if crate::text::same_text(key, "metadata") {
            self.metadata = match value.parse_optional_map() {
                Ok(metadata) => metadata,
                Err(_) => None,
            };
        } else if crate::text::same_text(key, "source") {
            let Some(text) = parse_source(value) else {
                return;
            };
            self.text_summary = Some(TextSummary::of(text.as_str()));
            if !project_open {
                return;
            }
            self.source = Some(cx.new_model(Buffer::local(text)));
        } else if crate::text::same_text(key, "execution_count") {
            self.execution_count = match value.parse_optional_count() {
                Ok(count) => count,
                Err(_) => None,
            };
        } else if crate::text::same_text(key, "outputs") {
            let Ok(outputs) = IpynbCodeOutput::list_from_json(&value) else {
                return;
            };
            self.output_content = match &outputs {
                Some(list) => if list.len() == 0 {
                    None
                } else {
                    let cell_type = match self.cell_type {
                        Some(cell_type) => cell_type,
                        None => CellType::Raw,
                    };
                    let title = title_for_cell_excerpt(
                        self.id,
                        self.cell_id.as_ref(),
                        &cell_type,
                        true,
                    );
                    OutputHandler::try_as_buffer(list, title, cx)
                },
                None => None,
            };
            self.outputs = outputs;
        }
        self.update_source_title(cx);
    }

    /// Takes the entries of a cell of a document in. `project_open` says whether the project in
    /// which the source is opened still is.
    pub fn process_map(
        self,
        map: Vec<(String, Json)>,
        project_open: bool,
        cx: &mut Buffers,
    ) -> (builder: CellBuilder)
        requires
            self.source matches Some(source) ==> source.valid(old(cx)@),
            forall|i: int|
                0 <= i < map@.len() && (#[trigger] map@[i]).0@ == "source"@ ==> (source_text(
                    map@[i].1@,
                ) matches Some(text) ==> crate::summary::summarizable(text)),
        ensures
            (BuildState { builder: builder@, buffers: final(cx)@ }) == (BuildState {
                builder: self@,
                buffers: old(cx)@,
            }).entries(crate::json::entries_view(map@), project_open),
            builder.source matches Some(source) ==> source.valid(final(cx)@),
            builder.id == self.id,
            old(cx)@.len() <= final(cx)@.len(),
            forall|from: int|
                from <= old(cx)@.len() && #[trigger] self.within(from, old(cx)@)
                    ==> builder.within(from, final(cx)@),
    {
        let ghost start = BuildState { builder: self@, buffers: cx@ };
        let ghost entries = crate::json::entries_view(map@);
        let mut builder = self;
        for entry in it: map
            invariant
                it.seq() == map@,
                entries == crate::json::entries_view(map@),
                builder.source matches Some(source) ==> source.valid(cx@),
                builder.id == self.id,
                start.buffers.len() <= cx@.len(),
                forall|from: int|
                    from <= start.buffers.len() && #[trigger] self.within(from, start.buffers)
                        ==> builder.within(from, cx@),
                forall|i: int|
                    0 <= i < map@.len() && (#[trigger] map@[i]).0@ == "source"@ ==> (source_text(
                        map@[i].1@,
                    ) matches Some(text) ==> crate::summary::summarizable(text)),
                (BuildState { builder: builder@, buffers: cx@ }) == start.entries(
                    entries.take(it.index() as int),
                    project_open,
                ),
        {
            let ghost i = it.index() as int;
            let (key, value) = entry;
            proof {
                assert(entries.take(i + 1).drop_last() =~= entries.take(i));
                assert(entries.take(i + 1).last() == entries[i]);
                assert(entries[i] == (key@, value@));
            }
            builder.process_entry(key.as_str(), value, project_open, cx);
        }
        proof {
            assert(entries.take(entries.len() as int) =~= entries);
        }
        builder
    }

    /// Puts the cell together.
    pub fn build(self, cx: &Buffers) -> (cell: Cell)
        requires
            self.source matches Some(source) && source.valid(cx@),
            self.output_content matches Some(output) ==> output.valid(cx@),
            measurable(self.source->0, self.output_content, cx@),
        ensures
            cell@ == self@.built(cx@),
    {
        let mut cell = Cell {
            id: CellId(self.id),
            latest_execution_request_msg_id: None,
            text_summary: match self.text_summary {
                Some(text_summary) => text_summary,
                None => TextSummary::zero(),
            },
            cell_id: self.cell_id,
            cell_type: match self.cell_type {
                Some(cell_type) => cell_type,
                None => CellType::default(),
            },
            metadata: match self.metadata {
                Some(metadata) => metadata,
                None => Vec::new(),
            },
            source: self.source.unwrap(),
            execution_count: self.execution_count,
            outputs: self.outputs,
            output_content: self.output_content,
            state: None,
        };
        cell.update_text_summary(cx);
        assert(cell@.metadata =~= self@.built(cx@).metadata);
        cell
    }
}

/// Titles tell excerpts apart: two of them are the same if and only if both are of the source or
/// both of the output, of cells with the same number, and, for sources, of the same type.
pub proof fn lemma_titles_differ(
    idx: u64,
    cell_type: CellType,
    for_output: bool,
    other_idx: u64,
    other_type: CellType,
    other_for_output: bool,
)
    ensures
        excerpt_title(idx, cell_type, for_output) == excerpt_title(
            other_idx,
            other_type,
            other_for_output,
        ) <==> idx == other_idx && for_output == other_for_output && (for_output || cell_type
            == other_type),
{
    let title = excerpt_title(idx, cell_type, for_output);
    let other = excerpt_title(other_idx, other_type, other_for_output);
    if title == other {
        let number = crate::text::decimal(idx as nat);
        let other_number = crate::text::decimal(other_idx as nat);
        assert(title.len() == (if for_output {
            1int
        } else {
            2
        }));
        assert(other.len() == (if other_for_output {
            1int
        } else {
            2
        }));
        if for_output {
            let before = "[Output — Cell "@;
            let after = "]"@;
            assert(title[0] == before + number + after);
            assert(other[0] == before + other_number + after);
            lemma_same_middle(before, number, other_number, after);
        } else {
            let before = "Cell "@;
            assert(title[1] == before + number);
            assert(other[1] == before + other_number);
            lemma_same_middle(before, number, other_number, Seq::empty());
            assert(title[0] == "("@ + cell_type.label() + ")  "@);
            assert(other[0] == "("@ + other_type.label() + ")  "@);
            lemma_same_middle("("@, cell_type.label(), other_type.label(), ")  "@);
            lemma_labels_differ(cell_type, other_type);
        }
        crate::text::lemma_decimal_injective(idx as nat, other_idx as nat);
    }
}

proof fn lemma_labels_differ(cell_type: CellType, other: CellType)
    requires
        cell_type.label() == other.label(),
    ensures
        cell_type == other,
{
    reveal_strlit("Raw");
    reveal_strlit("Markdown");
    reveal_strlit("Code");
    reveal_strlit("Chat");
    assert("Code"@[1] == 'o');
    assert("Chat"@[1] == 'h');
    assert("Raw"@.len() == 3 && "Code"@.len() == 4 && "Chat"@.len() == 4 && "Markdown"@.len() == 8);
}

proof fn lemma_same_middle(
    before: Seq<char>,
    middle: Seq<char>,
    other: Seq<char>,
    after: Seq<char>,
)
    ensures
        before + middle + after == before + other + after ==> middle == other,
        before + middle == before + other ==> middle == other,
{
    let start = before.len() as int;
    if before + middle + after == before + other + after {
        let whole = before + middle + after;
        let same = before + other + after;
        assert(whole.len() == same.len());
        assert(whole.subrange(start, start + middle.len()) =~= middle);
        assert(same.subrange(start, start + other.len()) =~= other);
    }
    if before + middle == before + other {
        assert((before + middle).skip(start) =~= middle);
        assert((before + other).skip(start) =~= other);
    }
}

/// The source of a cell that is read from a document ends with a line break.
pub proof fn lemma_source_ends_with_line_break(value: JsonView)
    ensures
        source_text(value) matches Some(text) ==> text.len() > 0 && text.last() == '\n',
{
    reveal_strlit("\n");
    if let Some(text) = source_text(value) {
        assert(text.last() == "\n"@.last());
    }
}

impl BuildState {
    /// The entries of a cell do not change its place.
    pub proof fn lemma_entries_keep_id(
        self,
        entries: Seq<(Seq<char>, JsonView)>,
        project_open: bool,
    )
        ensures
            self.entries(entries, project_open).builder.id == self.builder.id,
        decreases entries.len(),
    {
        if entries.len() > 0 {
            self.lemma_entries_keep_id(entries.drop_last(), project_open);
        }
    }
}

} // verus!
