//! A plain view of a notebook: its cells one after the other, and nothing to run them with.
use crate::buffer::{Buffer, BufferId, BufferView, Buffers};
use crate::json::{Json, JsonView};
use crate::multi_buffer::{Excerpt, ExcerptId, MultiBuffer};
use crate::notebook::{NotebookFile, ProjectPath};
use vstd::prelude::*;
use vstd::string::*;

verus! {

/// How a notebook is looked at.
#[derive(Clone, Copy, Debug, PartialEq, Eq, Structural)]
pub enum ToggleNotebookView {
    NotebookEditor,
    Raw,
}

/// The number of a cell, which is not zero.
#[derive(Clone, Copy, Debug, Hash, PartialEq, PartialOrd, Ord, Eq, Structural)]
pub struct CellId {
    number: u64,
}

impl CellId {
    #[verifier::type_invariant]
    spec fn positive(self) -> bool {
        self.number > 0
    }

    /// The number itself.
    pub closed spec fn value(self) -> u64 {
        self.number
    }

    /// The cell number `number`, unless that is zero.
    pub fn new(number: u64) -> (id: Option<CellId>)
        ensures
            match id {
                Some(id) => id.value() == number && number > 0,
                None => number == 0,
            },
    {
        if number == 0 {
            None
        } else {
            Some(CellId { number })
        }
    }

    /// The number itself.
    pub fn get(&self) -> (number: u64)
        ensures
            number == self.value(),
            number > 0,
    {
        proof {
            use_type_invariant(self);
        }
        self.number
    }
}

/// What a cell holds.
#[derive(Clone, Copy, Debug, PartialEq, Eq, Structural)]
pub enum CellType {
    Raw,
    Markdown,
    Code,
}

impl Default for CellType {
    fn default() -> (cell_type: CellType)
        ensures
            cell_type is Code,
    {
        CellType::Code
    }
}

impl CellType {
    /// The type of that name, if there is one.
    pub open spec fn named(name: Seq<char>) -> Option<CellType> {
        if name == "Raw"@ {
            Some(CellType::Raw)
        } else if name == "Markdown"@ {
            Some(CellType::Markdown)
        } else if name == "Code"@ {
            Some(CellType::Code)
        } else {
            None
        }
    }

    /// The type that a value stands for, if it does: its name, or an object with nothing but
    /// `null` under its name.
    pub open spec fn of(value: JsonView) -> Option<CellType> {
        match value {
            JsonView::String(name) => CellType::named(name),
            JsonView::Object(entries) => if entries.len() == 1 && entries[0].1 is Null {
                CellType::named(entries[0].0)
            } else {
                None
            },
            _ => None,
        }
    }

    fn from_name(name: &str) -> (cell_type: Option<CellType>)
        ensures
            cell_type == CellType::named(name@),
    {
        if crate::text::same_text(name, "Raw") {
            Some(CellType::Raw)
        } else if crate::text::same_text(name, "Markdown") {
            Some(CellType::Markdown)
        } else if crate::text::same_text(name, "Code") {
            Some(CellType::Code)
        } else {
            None
        }
    }

    /// The type that `value` stands for, if it does.
    pub fn from_json(value: &Json) -> (cell_type: Option<CellType>)
        ensures
            cell_type == CellType::of(value@),
    {
        match value {
            Json::String(name) => CellType::from_name(name.as_str()),
            Json::Object(entries) => {
                proof {
                    crate::json::lemma_object_view(*entries);
                }
                if entries.len() == 1 {
                    match &entries[0].1 {
                        Json::Null => CellType::from_name(entries[0].0.as_str()),
                        _ => None,
                    }
                } else {
                    None
                }
            },
            _ => None,
        }
    }
}

/// A cell of a notebook.
#[derive(Debug)]
pub struct Cell {
    pub idx: CellId,
    pub cell_id: Option<String>,
    pub cell_type: CellType,
    pub metadata: Vec<(String, Json)>,
    pub source: BufferId,
    pub execution_count: Option<usize>,
}

/// A summary of a cell.
#[derive(Clone, Copy, Debug, PartialEq, Eq, Structural)]
pub struct CellSummary {
    pub cell_type: CellType,
}

impl CellSummary {
    /// Adds a summary, which changes nothing.
    pub fn add_summary(&mut self, _summary: &CellSummary)
        ensures
            *final(self) == *old(self),
    {
    }
}

impl Cell {
    /// The summary of the cell.
    pub fn summary(&self) -> (summary: CellSummary)
        ensures
            summary.cell_type == self.cell_type,
    {
        CellSummary { cell_type: self.cell_type }
    }
}

/// Collects the parts of a cell.
#[derive(Debug)]
pub struct CellBuilder {
    pub idx: CellId,
    pub cell_id: Option<String>,
    pub cell_type: Option<CellType>,
    pub metadata: Option<Vec<(String, Json)>>,
    pub source: Option<BufferId>,
    pub execution_count: Option<usize>,
}

/// The parts that a [`CellBuilder`] has collected.
pub struct CellBuilderView {
    pub idx: CellId,
    pub cell_id: Option<Seq<char>>,
    pub cell_type: Option<CellType>,
    pub metadata: Option<Seq<(Seq<char>, JsonView)>>,
    pub source: Option<BufferId>,
    pub execution_count: Option<usize>,
}

impl View for CellBuilder {
    type V = CellBuilderView;

    open spec fn view(&self) -> CellBuilderView {
        CellBuilderView {
            idx: self.idx,
            cell_id: crate::text::optional_text(self.cell_id),
            cell_type: self.cell_type,
            metadata: crate::json::optional_entries_view(self.metadata),
            source: self.source,
            execution_count: self.execution_count,
        }
    }
}

/// A builder of a cell and the buffers at one time.
pub struct CellState {
    pub builder: CellBuilderView,
    pub buffers: Seq<BufferView>,
}

impl CellState {
    /// After the entry `value` under `key`. What does not have the form of its key is left out.
    pub open spec fn entry(self, key: Seq<char>, value: JsonView) -> CellState {
        let builder = self.builder;
        if key == "cell_id"@ {
            let cell_id = match value.as_text() {
                Ok(text) => Some(text),
                Err(_) => None,
            };
            CellState { builder: CellBuilderView { cell_id, ..builder }, ..self }
        } else if key == "cell_type"@ {
            let cell_type = CellType::of(value);
            CellState { builder: CellBuilderView { cell_type, ..builder }, ..self }
        } else if key == "metadata"@ {
            let metadata = match value.as_optional_entries() {
                Ok(metadata) => metadata,
                Err(_) => None,
            };
            CellState { builder: CellBuilderView { metadata, ..builder }, ..self }
        } else if key == "source"@ {
            let text = match value.as_text() {
                Ok(text) => text,
                Err(_) => Seq::empty(),
            };
            let source = Some(BufferId { index: self.buffers.len() as usize });
            CellState {
                builder: CellBuilderView { source, ..builder },
                buffers: self.buffers.push(BufferView::local(text)),
            }
        } else if key == "execution_count"@ {
            let execution_count = match value.as_optional_count() {
                Ok(count) => count,
                Err(_) => None,
            };
            CellState { builder: CellBuilderView { execution_count, ..builder }, ..self }
        } else {
            self
        }
    }

    /// After all of `entries`.
    pub open spec fn entries(self, entries: Seq<(Seq<char>, JsonView)>) -> CellState
        decreases entries.len(),
    {
        if entries.len() == 0 {
            self
        } else {
            self.entries(entries.drop_last()).entry(entries.last().0, entries.last().1)
        }
    }
}

impl CellBuilder {
    /// Takes the entry `value` under `key` in.
    fn process_entry(&mut self, key: &str, value: Json, cx: &mut Buffers)
        ensures
            (CellState { builder: final(self)@, buffers: final(cx)@ }) == (CellState {
                builder: old(self)@,
                buffers: old(cx)@,
            }).entry(key@, value@),
            final(self).idx == old(self).idx,
    {
        if crate::text::same_text(key, "cell_id") {
            self.cell_id = value.parse_string().ok();
        } else if crate::text::same_text(key, "cell_type") {
            self.cell_type = CellType::from_json(&value);
        } else if crate::text::same_text(key, "metadata") {
            self.metadata = match value.parse_optional_map() {
                Ok(metadata) => metadata,
                Err(_) => None,
            };
        } else if crate::text::same_text(key, "source") {
            let text = match value.parse_string() {
                Ok(text) => text,
                Err(_) => String::new(),
            };
            self.source = Some(cx.new_model(Buffer::local(text)));
        } else if crate::text::same_text(key, "execution_count") {
            self.execution_count = match value.parse_optional_count() {
                Ok(count) => count,
                Err(_) => None,
            };
        }
    }

    /// A builder of the cell `idx` that has taken the entries of `map` in.
    pub fn new(idx: CellId, map: Vec<(String, Json)>, cx: &mut Buffers) -> (builder: CellBuilder)
        ensures
            (CellState { builder: builder@, buffers: final(cx)@ }) == (CellState {
                builder: CellBuilderView {
                    idx,
                    cell_id: None,
                    cell_type: None,
                    metadata: None,
                    source: None,
                    execution_count: None,
                },
                buffers: old(cx)@,
            }).entries(crate::json::entries_view(map@)),
    {
        let mut this = CellBuilder {
            idx,
            cell_id: None,
            cell_type: None,
            metadata: None,
            source: None,
            execution_count: None,
        };
        let ghost start = CellState { builder: this@, buffers: cx@ };
        let ghost entries = crate::json::entries_view(map@);
        for entry in it: map
            invariant
                it.seq() == map@,
                entries == crate::json::entries_view(map@),
                (CellState { builder: this@, buffers: cx@ }) == start.entries(
                    entries.take(it.index() as int),
                ),
        {
            let ghost i = it.index() as int;
            let (key, value) = entry;
            proof {
                assert(entries.take(i + 1).drop_last() =~= entries.take(i));
                assert(entries.take(i + 1).last() == entries[i]);
                assert(entries[i] == (key@, value@));
            }
            this.process_entry(key.as_str(), value, cx);
        }
        assert(entries.take(entries.len() as int) =~= entries);
        this
    }

    /// Puts the cell together.
    pub fn build(self) -> (cell: Cell)
        requires
            self.cell_type is Some,
            self.metadata is Some,
            self.source is Some,
        ensures
            cell == (Cell {
                idx: self.idx,
                cell_id: self.cell_id,
                cell_type: self.cell_type->0,
                metadata: self.metadata->0,
                source: self.source->0,
                execution_count: self.execution_count,
            }),
    {
        Cell {
            idx: self.idx,
            cell_id: self.cell_id,
            cell_type: self.cell_type.unwrap(),
            metadata: self.metadata.unwrap(),
            source: self.source.unwrap(),
            execution_count: self.execution_count,
        }
    }
}

/// A notebook.
#[derive(Debug)]
pub struct Notebook {
    pub file: Option<NotebookFile>,
    pub metadata: Option<Vec<(String, String)>>,
    pub nbformat: usize,
    pub nbformat_minor: usize,
    pub cells: Vec<Cell>,
}

impl Default for Notebook {
    fn default() -> (notebook: Notebook)
        ensures
            notebook.file is None,
            notebook.metadata is None,
            notebook.nbformat == 0,
            notebook.nbformat_minor == 0,
            notebook.cells@.len() == 0,
    {
        Notebook {
            file: None,
            metadata: None,
            nbformat: 0,
            nbformat_minor: 0,
            cells: Vec::new(),
        }
    }
}

/// Why a document is not a notebook.
#[derive(Clone, Copy, Debug, PartialEq, Eq, Structural)]
pub enum ViewError {
    /// An entry does not have the form of its key.
    Form,
    /// A cell has no number.
    Number,
}

impl ViewError {
    /// What is said of a cell without a number.
    pub fn message(&self) -> (message: Option<&'static str>)
        ensures
            match self {
                ViewError::Form => message is None,
                ViewError::Number => message matches Some(text) && text@ == "Nope"@,
            },
    {
        match self {
            ViewError::Form => None,
            ViewError::Number => Some("Nope"),
        }
    }
}

/// Collects the parts of a notebook.
#[derive(Debug)]
pub struct NotebookBuilder {
    pub file: Option<NotebookFile>,
    pub metadata: Option<Vec<(String, String)>>,
    pub nbformat: Option<usize>,
    pub nbformat_minor: Option<usize>,
    pub cells: Vec<Cell>,
}

/// The parts that a [`NotebookBuilder`] has collected.
pub struct NotebookBuilderView {
    pub file: Option<NotebookFile>,
    pub metadata: Option<Seq<(Seq<char>, Seq<char>)>>,
    pub nbformat: Option<usize>,
    pub nbformat_minor: Option<usize>,
    pub cells: Seq<Cell>,
}

impl View for NotebookBuilder {
    type V = NotebookBuilderView;

    open spec fn view(&self) -> NotebookBuilderView {
        NotebookBuilderView {
            file: self.file,
            metadata: match self.metadata {
                Some(metadata) => Some(crate::kernel_spec::pairs_view(metadata@)),
                None => None,
            },
            nbformat: self.nbformat,
            nbformat_minor: self.nbformat_minor,
            cells: self.cells@,
        }
    }
}

impl NotebookBuilderView {
    /// After the entry `value` under `key`. The first cell of a document has the number 0, which
    /// is no number of a cell, so that a document with cells is refused.
    pub open spec fn entry(self, key: Seq<char>, value: JsonView) -> Result<
        NotebookBuilderView,
        ViewError,
    > {
        if key == "metadata"@ {
            match crate::kernel_spec::allowed_pairs(Some(value)) {
                Ok(metadata) => Ok(NotebookBuilderView { metadata, ..self }),
                Err(_) => Err(ViewError::Form),
            }
        } else if key == "nbformat"@ {
            match value.as_optional_count() {
                Ok(nbformat) => Ok(NotebookBuilderView { nbformat, ..self }),
                Err(_) => Err(ViewError::Form),
            }
        } else if key == "nbformat_minor"@ {
            match value.as_optional_count() {
                Ok(nbformat_minor) => Ok(NotebookBuilderView { nbformat_minor, ..self }),
                Err(_) => Err(ViewError::Form),
            }
        } else if key == "cells"@ {
            match value.as_objects() {
                Ok(items) => if items.len() == 0 {
                    Ok(self)
                } else {
                    Err(ViewError::Number)
                },
                Err(_) => Err(ViewError::Form),
            }
        } else {
            Ok(self)
        }
    }

    /// After all of `entries`, of which the first that is refused decides.
    pub open spec fn entries(self, entries: Seq<(Seq<char>, JsonView)>) -> Result<
        NotebookBuilderView,
        ViewError,
    >
        decreases entries.len(),
    {
        if entries.len() == 0 {
            Ok(self)
        } else {
            match self.entries(entries.drop_last()) {
                Ok(before) => before.entry(entries.last().0, entries.last().1),
                Err(error) => Err(error),
            }
        }
    }
}

impl NotebookBuilder {
    /// A builder of the notebook that is kept in `file`.
    pub fn new(file: Option<NotebookFile>) -> (builder: NotebookBuilder)
        ensures
            builder@ == (NotebookBuilderView {
                file,
                metadata: None,
                nbformat: None,
                nbformat_minor: None,
                cells: Seq::empty(),
            }),
    {
        NotebookBuilder {
            file,
            metadata: None,
            nbformat: None,
            nbformat_minor: None,
            cells: Vec::new(),
        }
    }

    /// Takes the entry `value` under `key` in.
    fn visit_entry(&mut self, key: &str, value: Json, cx: &mut Buffers) -> (result: Result<
        (),
        ViewError,
    >)
        ensures
            match old(self)@.entry(key@, value@) {
                Ok(after) => result is Ok && final(self)@ == after,
                Err(error) => result == Err::<(), ViewError>(error),
            },
            final(cx)@ == old(cx)@,
    {
        if crate::text::same_text(key, "metadata") {
            match crate::kernel_spec::read_pairs(Some(&value)) {
                Ok(metadata) => {
                    self.metadata = metadata;
                    Ok(())
                },
                Err(_) => Err(ViewError::Form),
            }
        } else if crate::text::same_text(key, "nbformat") {
            match value.parse_optional_count() {
                Ok(nbformat) => {
                    self.nbformat = nbformat;
                    Ok(())
                },
                Err(_) => Err(ViewError::Form),
            }
        } else if crate::text::same_text(key, "nbformat_minor") {
            match value.parse_optional_count() {
                Ok(nbformat_minor) => {
                    self.nbformat_minor = nbformat_minor;
                    Ok(())
                },
                Err(_) => Err(ViewError::Form),
            }
        } else if crate::text::same_text(key, "cells") {
            match value.parse_maps() {
                Ok(items) => {
                    // The first cell would have the number 0, which no cell has.
                    let mut number: u64 = 0;
                    for item in it: items
                        invariant
                            it.seq() == items@,
                            it.index() == 0,
                            number == 0,
                            *self == *old(self),
                            cx@ == old(cx)@,
                            old(self)@.entry(key@, value@) == (if items@.len() == 0 {
                                Ok::<NotebookBuilderView, ViewError>(old(self)@)
                            } else {
                                Err(ViewError::Number)
                            }),
                    {
                        let Some(idx) = CellId::new(number) else {
                            return Err(ViewError::Number);
                        };
                        let builder = CellBuilder::new(idx, item, cx);
                        self.cells.push(builder.build());
                        number += 1;
                    }
                    Ok(())
                },
                Err(_) => Err(ViewError::Form),
            }
        } else {
            Ok(())
        }
    }

    /// Takes the entries of a document in, in order. The first that is refused decides.
    pub fn visit_map(self, map: Vec<(String, Json)>, cx: &mut Buffers) -> (builder: Result<
        NotebookBuilder,
        ViewError,
    >)
        ensures
            match self@.entries(crate::json::entries_view(map@)) {
                Ok(after) => builder matches Ok(builder) && builder@ == after,
                Err(error) => builder matches Err(refusal) && refusal == error,
            },
            final(cx)@ == old(cx)@,
    {
        let ghost entries = crate::json::entries_view(map@);
        let mut builder = self;
        for entry in it: map
            invariant
                it.seq() == map@,
                entries == crate::json::entries_view(map@),
                self@.entries(entries.take(it.index() as int)) == Ok::<
                    NotebookBuilderView,
                    ViewError,
                >(builder@),
                cx@ == old(cx)@,
        {
            let ghost i = it.index() as int;
            let (key, value) = entry;
            proof {
                assert(entries.take(i + 1).drop_last() =~= entries.take(i));
                assert(entries.take(i + 1).last() == entries[i]);
                assert(entries[i] == (key@, value@));
                lemma_first_refusal(self@, entries, i + 1);
            }
            if let Err(error) = builder.visit_entry(key.as_str(), value, cx) {
                return Err(error);
            }
        }
        assert(entries.take(entries.len() as int) =~= entries);
        Ok(builder)
    }

    /// Puts the notebook together.
    pub fn build(self) -> (notebook: Notebook)
        requires
            self.nbformat is Some,
            self.nbformat_minor is Some,
        ensures
            notebook == (Notebook {
                file: self.file,
                metadata: self.metadata,
                nbformat: self.nbformat->0,
                nbformat_minor: self.nbformat_minor->0,
                cells: self.cells,
            }),
    {
        Notebook {
            file: self.file,
            metadata: self.metadata,
            nbformat: self.nbformat.unwrap(),
            nbformat_minor: self.nbformat_minor.unwrap(),
            cells: self.cells,
        }
    }
}

pub(crate) proof fn lemma_first_refusal(
    builder: NotebookBuilderView,
    entries: Seq<(Seq<char>, JsonView)>,
    count: int,
)
    requires
        0 <= count <= entries.len(),
    ensures
        builder.entries(entries.take(count)) matches Err(error) ==> builder.entries(entries)
            == Err::<NotebookBuilderView, ViewError>(error),
    decreases entries.len() - count,
{
    if count == entries.len() {
        assert(entries.take(count) =~= entries);
    } else {
        lemma_first_refusal(builder, entries, count + 1);
        assert(entries.take(count + 1).drop_last() =~= entries.take(count));
    }
}

/// A document with cells is refused, whatever else stands in it.
pub proof fn lemma_cells_are_refused(
    builder: NotebookBuilderView,
    entries: Seq<(Seq<char>, JsonView)>,
    i: int,
)
    requires
        0 <= i < entries.len(),
        entries[i].0 == "cells"@,
        entries[i].1.as_objects() matches Ok(items) && items.len() > 0,
    ensures
        builder.entries(entries) is Err,
{
    reveal_strlit("metadata");
    reveal_strlit("nbformat");
    reveal_strlit("nbformat_minor");
    reveal_strlit("cells");
    assert("cells"@.len() == 5 && "metadata"@.len() == 8 && "nbformat"@.len() == 8
        && "nbformat_minor"@.len() == 14);
    assert(entries.take(i + 1).drop_last() =~= entries.take(i));
    assert(entries.take(i + 1).last() == entries[i]);
    assert(builder.entries(entries.take(i + 1)) is Err);
    lemma_first_refusal(builder, entries, i + 1);
}

impl Notebook {
    /// The notebook that a document holds, or an empty one if it holds none. `map` is `None` where
    /// the document could not be read.
    pub fn from_document(
        file: Option<NotebookFile>,
        map: Option<Vec<(String, Json)>>,
        cx: &mut Buffers,
    ) -> (notebook: Notebook)
        requires
            map matches Some(map) ==> (read_document(
                file,
                crate::json::entries_view(map@),
            ) matches Ok(parts) ==> parts.nbformat is Some && parts.nbformat_minor is Some),
        ensures
            ({
                let parts = match map {
                    Some(map) => read_document(file, crate::json::entries_view(map@)),
                    None => Err(ViewError::Form),
                };
                match parts {
                    Ok(parts) => {
                        &&& notebook.file == parts.file
                        &&& notebook.nbformat == parts.nbformat->0
                        &&& notebook.nbformat_minor == parts.nbformat_minor->0
                        &&& notebook.cells@ == parts.cells
                        &&& match notebook.metadata {
                            Some(metadata) => parts.metadata == Some(
                                crate::kernel_spec::pairs_view(metadata@),
                            ),
                            None => parts.metadata is None,
                        }
                    },
                    Err(_) => {
                        &&& notebook.file is None
                        &&& notebook.metadata is None
                        &&& notebook.nbformat == 0
                        &&& notebook.nbformat_minor == 0
                        &&& notebook.cells@.len() == 0
                    },
                }
            }),
            final(cx)@ == old(cx)@,
    {
        match map {
            Some(map) => match NotebookBuilder::new(file).visit_map(map, cx) {
                Ok(builder) => {
                    assert(builder@.nbformat is Some && builder@.nbformat_minor is Some);
                    builder.build()
                },
                Err(_) => Notebook::default(),
            },
            None => Notebook::default(),
        }
    }

    /// The entry of the file of the notebook in its project.
    pub fn entry_id(&self) -> (entry_id: Option<usize>)
        ensures
            entry_id == (match self.file {
                Some(NotebookFile::Worktree(file)) => file.entry_id,
                _ => None,
            }),
    {
        match &self.file {
            Some(NotebookFile::Worktree(file)) => file.entry_id,
            _ => None,
        }
    }

    /// Where the file of the notebook lies in its project.
    pub fn project_path(&self) -> (path: Option<ProjectPath>)
        ensures
            match self.file {
                Some(NotebookFile::Worktree(file)) => path matches Some(path) && path.worktree_id
                    == file.worktree_id && path.path@ == file.path@,
                _ => path is None,
            },
    {
        match &self.file {
            Some(NotebookFile::Worktree(file)) => Some(
                ProjectPath { worktree_id: file.worktree_id, path: file.path.clone() },
            ),
            _ => None,
        }
    }
}

/// The parts that the entries of a document give.
pub open spec fn read_document(
    file: Option<NotebookFile>,
    entries: Seq<(Seq<char>, JsonView)>,
) -> Result<NotebookBuilderView, ViewError> {
    (NotebookBuilderView {
        file,
        metadata: None,
        nbformat: None,
        nbformat_minor: None,
        cells: Seq::empty(),
    }).entries(entries)
}

/// An editor of a notebook.
#[derive(Debug)]
pub struct NotebookEditor {
    pub notebook: Notebook,
    /// The excerpts of the sources of the cells.
    pub multi: MultiBuffer,
}

/// The excerpts by which `cells` are shown: of each source the bytes from 0 to the number of its
/// rows.
pub open spec fn shown(cells: Seq<Cell>, buffers: Seq<BufferView>) -> Seq<Excerpt> {
    Seq::new(
        cells.len(),
        |i: int|
            Excerpt {
                id: ExcerptId((i + 1) as u64),
                buffer: cells[i].source,
                start: crate::multi_buffer::anchor_before(0),
                end: crate::multi_buffer::anchor_after(
                    crate::summary::line_breaks(
                        buffers[cells[i].source.index as int].text,
                    ) as int + 1,
                    crate::text::byte_len(
                        buffers[cells[i].source.index as int].text,
                    ) as usize as int,
                ),
            },
    )
}

impl NotebookEditor {
    /// An editor that shows the cells of `notebook` one after the other.
    pub fn new(notebook: Notebook, cx: &Buffers) -> (editor: NotebookEditor)
        requires
            notebook.cells@.len() < u64::MAX,
            forall|i: int|
                #![trigger notebook.cells@[i]]
                0 <= i < notebook.cells@.len() ==> {
                    let text = cx@[notebook.cells@[i].source.index as int].text;
                    &&& notebook.cells@[i].source.valid(cx@)
                    &&& crate::summary::summarizable(text)
                    &&& crate::summary::line_breaks(text) < u32::MAX
                },
        ensures
            editor.notebook == notebook,
            editor.multi.excerpts@ == shown(notebook.cells@, cx@),
            editor.multi.wf(),
    {
        let mut multi = MultiBuffer::new();
        let mut last = ExcerptId::min();
        let ghost all = shown(notebook.cells@, cx@);
        let mut i: usize = 0;
        while i < notebook.cells.len()
            invariant
                i <= notebook.cells.len(),
                all == shown(notebook.cells@, cx@),
                notebook.cells@.len() < u64::MAX,
                multi.wf(),
                multi.next_id == i + 1,
                multi.excerpts@ == all.take(i as int),
                last == ExcerptId(i as u64),
                forall|i: int|
                    #![trigger notebook.cells@[i]]
                    0 <= i < notebook.cells@.len() ==> {
                        let text = cx@[notebook.cells@[i].source.index as int].text;
                        &&& notebook.cells@[i].source.valid(cx@)
                        &&& crate::summary::summarizable(text)
                        &&& crate::summary::line_breaks(text) < u32::MAX
                    },
            decreases notebook.cells.len() - i,
        {
            let source = notebook.cells[i].source;
            let end = cx.read(source).row_count() as usize;
            proof {
                if i > 0 {
                    assert(multi.excerpts@[i - 1].id == last);
                    crate::cells::lemma_excerpt_index(multi.excerpts@, i - 1);
                }
            }
            last = multi.insert_excerpt_after(last, source, 0, end, cx);
            i += 1;
            proof {
                assert(multi.excerpts@ =~= all.take(i as int));
            }
        }
        assert(all.take(i as int) =~= all);
        NotebookEditor { notebook, multi }
    }
}

} // verus!
