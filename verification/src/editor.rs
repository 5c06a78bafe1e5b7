//! What can be done with a notebook in an editor.
use crate::buffer::{BufferId, BufferView, Buffers};
use crate::cell::{Cell, CellId};
use crate::cells::Bias;
use crate::chat::Chat;
use crate::notebook::Notebook;
use crate::summary::Point;
use vstd::prelude::*;

verus! {

/// An editor of a notebook.
#[derive(Debug)]
pub struct NotebookEditor {
    pub notebook: Notebook,
    pub chat: Chat,
}

/// Where the cell at the place `id` starts in the text of all cells, if there is such a cell.
pub open spec fn focus_point(cells: Seq<Cell>, id: CellId) -> Option<Point> {
    let at = crate::cells::cells_before(cells.len(), id, Bias::Left);
    if at < cells.len() {
        Some(
            Point {
                row: crate::cell_summary::total_rows(cells.take(at)) as u32,
                column: 0,
            },
        )
    } else {
        None
    }
}

/// The texts of the buffers behind `handles`, with a line break after each.
pub open spec fn text_of_excerpts(buffers: Seq<BufferView>, handles: Seq<BufferId>) -> Seq<char>
    decreases handles.len(),
{
    if handles.len() == 0 {
        Seq::empty()
    } else {
        text_of_excerpts(buffers, handles.drop_last())
            + buffers[handles.last().index as int].text + seq!['\n']
    }
}

impl NotebookEditor {
    /// Whether the cells are in order, and the extent of their texts can be written as a
    /// [`crate::summary::TextSummary`].
    pub open spec fn measurable(self, buffers: Seq<BufferView>) -> bool {
        &&& self.notebook.wf(buffers)
        &&& crate::cell_update::all_measurable(buffers, self.notebook.cells.tree@)
        &&& crate::cell_summary::summable(
            crate::cell_update::all_measured(buffers, self.notebook.cells.tree@),
        )
    }

    /// An editor of `notebook`, with a chat with the language model of the name `model`.
    pub fn new(notebook: Notebook, model: String, cx: &Buffers) -> (editor: NotebookEditor)
        requires
            crate::cells::all_valid(cx@, notebook.cells.tree@),
        ensures
            editor.notebook == notebook,
            editor.chat.model == model,
            crate::chat::turns_view(editor.chat.messages@) == seq![
                crate::chat::TurnView {
                    role: crate::chat::Role::System,
                    content: crate::chat::system_prompt(notebook.cells.tree@, cx@),
                },
            ],
    {
        let chat = Chat::new(model, &notebook, cx);
        NotebookEditor { notebook, chat }
    }

    /// The kind under which the editor is remembered.
    pub fn serialized_item_kind() -> (kind: Option<&'static str>)
        ensures
            kind matches Some(kind) && kind@ == "NotebookEditor"@,
    {
        Some("NotebookEditor")
    }

    /// The cell whose source is the buffer of the active excerpt, if there is one.
    pub fn active_cell(&self, active: Option<BufferId>) -> (cell: Option<&Cell>)
        ensures
            cell == (match active {
                Some(buffer) => match crate::cells::place_of_source(
                    self.notebook.cells.tree@,
                    buffer,
                ) {
                    Some(at) => Some(&self.notebook.cells.tree@[at]),
                    None => None,
                },
                None => None,
            }),
    {
        match active {
            Some(buffer) => self.notebook.cells.get_cell_by_buffer(buffer),
            None => None,
        }
    }

    /// Measures all cells anew, and returns where the cell at the place `cell_id` starts, which is
    /// what is selected. Nothing is if there is no such cell.
    pub fn focus_cell(&mut self, cell_id: &CellId, cx: &Buffers) -> (point: Option<Point>)
        requires
            old(self).measurable(cx@),
        ensures
            final(self).measurable(cx@),
            final(self).chat == old(self).chat,
            final(self).notebook == (Notebook {
                cells: final(self).notebook.cells,
                ..old(self).notebook
            }),
            final(self).notebook.cells.multi == old(self).notebook.cells.multi,
            final(self).notebook.cells.tree@ == crate::cell_update::all_measured(
                cx@,
                old(self).notebook.cells.tree@,
            ),
            point == focus_point(final(self).notebook.cells.tree@, *cell_id),
    {
        let ghost before = self.notebook.cells.tree@;
        self.notebook.cells.sync(cx);
        let ghost tree = self.notebook.cells.tree@;
        proof {
            lemma_measured_twice(cx@, before);
        }
        let cell = match self.notebook.cells.get_cell_by_id(cell_id) {
            Some(cell) => cell,
            None => {
                return None;
            },
        };
        let ghost at = crate::cells::cells_before(tree.len(), *cell_id, Bias::Left);
        let id = cell.id;
        assert(tree[at].id.0 == at + 1);
        let mut cursor = self.notebook.cells.cursor();
        proof {
            assert(tree.subrange(0, at) =~= tree.take(at));
            crate::cell_summary::lemma_total_prefix(tree, at);
        }
        let mut point = cursor.summary(&id, Bias::Left).text_summary.lines;
        point.column = 0;
        Some(point)
    }
}

proof fn lemma_measured_twice(buffers: Seq<BufferView>, cells: Seq<Cell>)
    ensures
        crate::cell_update::all_measured(
            buffers,
            crate::cell_update::all_measured(buffers, cells),
        ) == crate::cell_update::all_measured(buffers, cells),
        crate::cell_update::all_measurable(buffers, cells) ==> crate::cell_update::all_measurable(
            buffers,
            crate::cell_update::all_measured(buffers, cells),
        ),
{
    let once = crate::cell_update::all_measured(buffers, cells);
    assert(crate::cell_update::all_measured(buffers, once) =~= once);
    if crate::cell_update::all_measurable(buffers, cells) {
        assert forall|i: int| 0 <= i < once.len() implies (#[trigger] once[i]).measurable(
            buffers,
        ) by {
            assert(cells[i].measurable(buffers));
        }
    }
}

/// The row at which a cell starts is the number of lines that the texts of the cells before it
/// take, their sources and their outputs, each in an excerpt of its own.
pub proof fn lemma_rows_before(buffers: Seq<BufferView>, cells: Seq<Cell>)
    requires
        crate::cell_update::all_measurable(buffers, cells),
    ensures
        crate::cell_summary::total_rows(crate::cell_update::all_measured(buffers, cells))
            == crate::summary::line_breaks(
            text_of_excerpts(buffers, crate::cells::all_handles(cells)),
        ),
    decreases cells.len(),
{
    if cells.len() > 0 {
        let rest = cells.drop_last();
        let cell = cells.last();
        assert(cell.measurable(buffers));
        assert(crate::cell_update::all_measurable(buffers, rest)) by {
            assert forall|i: int| 0 <= i < rest.len() implies (#[trigger] rest[i]).measurable(
                buffers,
            ) by {
                assert(cells[i].measurable(buffers));
            }
        }
        lemma_rows_before(buffers, rest);
        let measured = crate::cell_update::all_measured(buffers, cells);
        assert(measured.drop_last() =~= crate::cell_update::all_measured(buffers, rest));
        let handles = crate::cells::all_handles(rest);
        let source = buffers[cell.source.index as int].text;
        let with_source = handles.push(cell.source);
        assert(with_source.drop_last() =~= handles);
        let before = text_of_excerpts(buffers, handles);
        lemma_line_added(before, source);
        match cell.output_content {
            Some(output) => {
                let text = buffers[output.index as int].text;
                let with_output = with_source.push(output);
                assert(with_output.drop_last() =~= with_source);
                assert(crate::cells::all_handles(cells) =~= with_output);
                lemma_line_added(text_of_excerpts(buffers, with_source), text);
            },
            None => {
                assert(crate::cells::all_handles(cells) =~= with_source);
            },
        }
    }
}

proof fn lemma_line_added(before: Seq<char>, text: Seq<char>)
    ensures
        crate::summary::line_breaks(before + text + seq!['\n']) == crate::summary::line_breaks(
            before,
        ) + crate::summary::line_breaks(text) + 1,
{
    crate::summary::lemma_lines_concat(before, text);
    crate::summary::lemma_lines_concat(before + text, seq!['\n']);
    reveal_with_fuel(crate::summary::line_breaks, 2);
    assert(seq!['\n'].drop_last() =~= Seq::<char>::empty());
}

} // verus!
