//! What holds of the extents of texts and cells, and of the room that there is.
use crate::buffer::{BufferId, BufferView, LanguageView};
use crate::cell::{Cell, CellId, PhonyFileView};
use crate::cell_summary::CellSummary;
use crate::cells::{Bias, Cells};
use crate::chat_turn::ChatTurn;
use crate::editor::NotebookEditor;
use crate::json::JsonView;
use crate::jupyter::message::Message;
use crate::notebook_builder::{DocumentEntry, NotebookBuilder};
use vstd::prelude::*;

verus! {

/// The extent of a cell is that of its source, and, where it has an output, that of its source
/// followed by its output, with one row more.
pub proof fn lemma_extent_of_a_cell(cell: Cell, buffers: Seq<BufferView>)
    requires
        cell.measurable(buffers),
    ensures
        ({
            let source = buffers[cell.source.index as int].text;
            let measured = cell.measured(buffers);
            match cell.output_content {
                Some(output) => {
                    let text = source + buffers[output.index as int].text;
                    &&& measured.len == crate::text::byte_len(text)
                    &&& measured.lines.row == text.filter(|c: char| c == '\n').len() + 1
                    &&& measured.lines.column == crate::summary::last_column(text)
                },
                None => {
                    &&& measured.len == crate::text::byte_len(source)
                    &&& measured.lines.row == source.filter(|c: char| c == '\n').len()
                    &&& measured.lines.column == crate::summary::last_column(source)
                },
            }
        }),
{
    let source = buffers[cell.source.index as int].text;
    crate::laws::text::lemma_line_breaks_are_counted(source);
    if let Some(output) = cell.output_content {
        let output = buffers[output.index as int].text;
        crate::laws::text::lemma_line_breaks_are_counted(source + output);
        crate::summary::lemma_lines_concat(source, output);
        crate::text::lemma_encode_concat(source, output);
        crate::text::lemma_encode_concat(crate::summary::last_line(source), output);
    }
}

/// The number of bytes of the texts of `cells`.
pub open spec fn bytes_of_cells(buffers: Seq<BufferView>, cells: Seq<Cell>) -> nat
    decreases cells.len(),
{
    if cells.len() == 0 {
        0
    } else {
        let cell = cells.last();
        bytes_of_cells(buffers, cells.drop_last()) + crate::text::byte_len(
            buffers[cell.source.index as int].text,
        ) + match cell.output_content {
            Some(output) => crate::text::byte_len(buffers[output.index as int].text),
            None => 0,
        }
    }
}

/// The extent of cells that were measured is that of what they look like one after the other: all
/// bytes of their texts, and as many rows as line breaks, one after each text. The column is that
/// of the last cell.
pub proof fn lemma_extent_of_cells(buffers: Seq<BufferView>, cells: Seq<Cell>)
    requires
        crate::cell_update::all_measurable(buffers, cells),
        crate::cell_summary::summable(crate::cell_update::all_measured(buffers, cells)),
    ensures
        ({
            let extent = crate::cell_summary::total_extent(
                crate::cell_update::all_measured(buffers, cells),
            );
            &&& extent.len == bytes_of_cells(buffers, cells)
            &&& extent.lines.row == crate::laws::place::text_of_cells(buffers, cells).filter(
                |c: char| c == '\n',
            ).len()
            &&& cells.len() > 0 ==> extent.lines.column == cells.last().measured(
                buffers,
            ).lines.column
            &&& cells.len() == 0 ==> extent.lines.column == 0
        }),
{
    crate::editor::lemma_rows_before(buffers, cells);
    crate::laws::place::lemma_text_of_cells(buffers, cells);
    crate::laws::text::lemma_line_breaks_are_counted(
        crate::laws::place::text_of_cells(buffers, cells),
    );
    lemma_bytes_of_cells(buffers, cells);
}

proof fn lemma_bytes_of_cells(buffers: Seq<BufferView>, cells: Seq<Cell>)
    requires
        crate::cell_update::all_measurable(buffers, cells),
    ensures
        crate::cell_summary::total_len(crate::cell_update::all_measured(buffers, cells))
            == bytes_of_cells(buffers, cells),
    decreases cells.len(),
{
    if cells.len() > 0 {
        let front = cells.drop_last();
        let cell = cells.last();
        assert(cells[cells.len() - 1].measurable(buffers));
        assert forall|i: int| 0 <= i < front.len() implies (#[trigger] front[i]).measurable(
            buffers,
        ) by {
            assert(cells[i].measurable(buffers));
        }
        lemma_bytes_of_cells(buffers, front);
        let measured = crate::cell_update::all_measured(buffers, cells);
        assert(measured.drop_last() =~= crate::cell_update::all_measured(buffers, front));
        crate::laws::lemma_measure_of_a_cell(cell, buffers);
    }
}

/// The summary of a cell counts that one cell, and a row more than its text. The summary of nothing
/// counts none, and what is added to it stays what it is. Adding adds up the numbers of cells, the
/// bytes and the rows; the column is that of what comes last, unless that has no rows.
pub proof fn lemma_adding_summaries(cell: Cell, first: CellSummary, second: CellSummary)
    requires
        cell.text_summary.lines.row < u32::MAX,
        first.can_add(second),
        first.text_summary.lines.row + second.text_summary.lines.row <= u32::MAX,
    ensures
        cell.summarized().num_cells_inclusive == 1,
        cell.summarized().text_summary.len == cell.text_summary.len,
        cell.summarized().text_summary.lines.row == cell.text_summary.lines.row + 1,
        cell.summarized().text_summary.lines.column == cell.text_summary.lines.column,
        CellSummary::nothing().added(second) == second,
        first.added(CellSummary::nothing()) == first,
        ({
            let sum = first.added(second);
            &&& sum.num_cells_inclusive == first.num_cells_inclusive + second.num_cells_inclusive
            &&& sum.text_summary.len == first.text_summary.len + second.text_summary.len
            &&& sum.text_summary.lines.row == first.text_summary.lines.row
                + second.text_summary.lines.row
            &&& second.text_summary.lines.row > 0 ==> sum.text_summary.lines.column
                == second.text_summary.lines.column
            &&& second.text_summary.lines.row == 0 ==> sum.text_summary.lines.column
                == first.text_summary.lines.column + second.text_summary.lines.column
        }),
{
}

/// A new buffer holds the text that it was made of, with its line endings unified, and has neither
/// a title nor a language.
pub proof fn lemma_new_buffer(text: Seq<char>)
    ensures
        BufferView::local(text).text == crate::text::normalized(text),
        BufferView::local(text).file is None,
        BufferView::local(text).language is None,
{
}

/// Giving a buffer a title, a language or a text changes that of it alone, and no other buffer.
pub proof fn lemma_one_buffer_changes(
    buffers: Seq<BufferView>,
    id: BufferId,
    file: PhonyFileView,
    language: Option<LanguageView>,
    text: Seq<char>,
    k: int,
)
    requires
        id.index < buffers.len(),
        0 <= k < buffers.len(),
    ensures
        ({
            let titled = crate::buffer::with_file(buffers, id, file);
            let spoken = crate::buffer::with_language(buffers, id, language);
            let written = crate::buffer::with_text(buffers, id, text);
            &&& titled.len() == buffers.len()
            &&& spoken.len() == buffers.len()
            &&& written.len() == buffers.len()
            &&& k != id.index ==> titled[k] == buffers[k] && spoken[k] == buffers[k] && written[k]
                == buffers[k]
            &&& k == id.index ==> {
                &&& titled[k].file == Some(file)
                &&& titled[k].text == buffers[k].text
                &&& titled[k].language == buffers[k].language
                &&& spoken[k].language == language
                &&& spoken[k].text == buffers[k].text
                &&& spoken[k].file == buffers[k].file
                &&& written[k].text == text
                &&& written[k].file == buffers[k].file
                &&& written[k].language == buffers[k].language
            }
        }),
{
}

/// A piece can be put into an answer wherever that splits, as long as both are not huge.
pub proof fn lemma_room_for_a_piece(
    turn: ChatTurn,
    content: Seq<char>,
    buffers: Seq<BufferView>,
    before: Seq<char>,
    after: Seq<char>,
)
    requires
        buffers[turn.output.index as int].text == before + after,
        turn.offset == crate::text::byte_len(before),
        crate::text::byte_len(before + after) + crate::text::byte_len(content) < u32::MAX,
    ensures
        crate::chat_turn::receivable(turn, content, buffers),
{
    crate::laws::text::lemma_parts_of_a_text(before, Seq::empty(), after);
    assert(before + Seq::<char>::empty() + after =~= before + after);
    crate::summary::lemma_extent_is_bounded(before + after);
    crate::text::lemma_encode_concat(before, after);
}

/// A text that is not huge can be split at the ends of any of its parts.
pub proof fn lemma_room_for_a_split(head: Seq<char>, middle: Seq<char>, tail: Seq<char>)
    requires
        crate::text::byte_len(head + middle + tail) <= u32::MAX,
    ensures
        crate::selection::splittable(
            head + middle + tail,
            crate::text::byte_len(head) as int,
            (crate::text::byte_len(head) + crate::text::byte_len(middle)) as int,
        ),
{
    crate::laws::text::lemma_parts_of_a_text(head, middle, tail);
    crate::summary::lemma_extent_is_bounded(head);
    crate::summary::lemma_extent_is_bounded(tail);
}

/// Cells whose texts are not huge altogether can be measured, and so can all of them together.
pub proof fn lemma_room_for_measuring(buffers: Seq<BufferView>, cells: Seq<Cell>)
    requires
        bytes_of_cells(buffers, cells) + 2 * cells.len() <= u32::MAX,
    ensures
        crate::cell_update::all_measurable(buffers, cells),
        crate::cell_summary::summable(crate::cell_update::all_measured(buffers, cells)),
        crate::cell_summary::total_rows(crate::cell_update::all_measured(buffers, cells))
            <= bytes_of_cells(buffers, cells) + 2 * cells.len(),
    decreases cells.len(),
{
    if cells.len() > 0 {
        let front = cells.drop_last();
        let cell = cells.last();
        lemma_room_for_measuring(buffers, front);
        let source = buffers[cell.source.index as int].text;
        crate::summary::lemma_extent_is_bounded(source);
        if let Some(output) = cell.output_content {
            crate::summary::lemma_extent_is_bounded(buffers[output.index as int].text);
        }
        assert(cell.measurable(buffers));
        assert forall|i: int| 0 <= i < cells.len() implies (#[trigger] cells[i]).measurable(
            buffers,
        ) by {
            if i < front.len() {
                assert(front[i].measurable(buffers));
            }
        }
        lemma_bytes_of_cells(buffers, cells);
        crate::laws::lemma_measure_of_a_cell(cell, buffers);
        let measured = crate::cell_update::all_measured(buffers, cells);
        assert(measured.drop_last() =~= crate::cell_update::all_measured(buffers, front));
    }
}

/// There is room for a new cell in a notebook in order whose texts are not huge altogether, as long
/// as numbers for its excerpts are left.
pub proof fn lemma_room_for_a_cell(editor: NotebookEditor, buffers: Seq<BufferView>)
    requires
        editor.notebook.cells.wf(buffers),
        bytes_of_cells(buffers, editor.notebook.cells.tree@) + 2 * (
        editor.notebook.cells.tree@.len() + 1) <= u32::MAX,
        editor.notebook.cells.multi.next_id <= u32::MAX,
    ensures
        editor.measurable(buffers),
        editor.has_room(buffers, 1),
{
    let tree = editor.notebook.cells.tree@;
    lemma_room_for_measuring(buffers, tree);
    lemma_bytes_of_cells(buffers, tree);
    lemma_number_of_handles(tree);
}

proof fn lemma_number_of_handles(cells: Seq<Cell>)
    ensures
        cells.len() <= crate::cells::all_handles(cells).len() <= 2 * cells.len(),
    decreases cells.len(),
{
    if cells.len() > 0 {
        lemma_number_of_handles(cells.drop_last());
    }
}

/// A message can be printed in a notebook in order as long as the texts of the cell are not huge
/// and a number for an excerpt is left.
pub proof fn lemma_room_for_a_message(
    cells: Cells,
    buffers: Seq<BufferView>,
    id: CellId,
    msg: Message,
)
    requires
        cells.wf(buffers),
        cells.multi.next_id < u64::MAX,
        buffers.len() < usize::MAX,
        1 <= id.0 <= cells.tree@.len() ==> bytes_of_cells(buffers, seq![cells.tree@[id.0 - 1]])
            < u32::MAX,
        id.0 >= 1,
    ensures
        crate::cell_update::printable(cells, buffers, id, msg),
{
    if id.0 <= cells.tree@.len() {
        let at = id.0 - 1;
        let cell = cells.tree@[at];
        assert(crate::cells::cells_before(cells.tree@.len(), id, Bias::Left) == at);
        assert(cell.valid(buffers));
        let one = seq![cell];
        assert(one.drop_last() =~= Seq::<Cell>::empty());
        assert(bytes_of_cells(buffers, one.drop_last()) == 0);
        assert(one.last() == cell);
        let source = buffers[cell.source.index as int].text;
        let with_buffer = crate::cell_update::with_output_buffer(buffers, cell);
        let updated = crate::cell_update::with_output(buffers, cell);
        let output = with_buffer[(updated.output_content->0).index as int].text;
        assert(with_buffer[cell.source.index as int].text == source);
        if cell.output_content is None {
            reveal_strlit("");
            let none = Seq::<char>::empty();
            assert(""@ =~= none);
            crate::text::lemma_plain_stays(none);
            crate::text::lemma_encode_concat(none, none);
            assert(none + none =~= none);
            assert(output == none);
        }
        crate::summary::lemma_extent_is_bounded(source);
        crate::summary::lemma_extent_is_bounded(output);
    }
}

/// A cell of a document can be read as long as its source is not huge.
pub proof fn lemma_room_for_a_document_cell(item: Seq<(Seq<char>, JsonView)>)
    requires
        forall|i: int|
            0 <= i < item.len() && (#[trigger] item[i]).0 == "source"@ ==> (
            crate::cell::source_text(item[i].1) matches Some(text) ==> crate::text::byte_len(text)
                <= u32::MAX),
    ensures
        crate::notebook_builder::cell_readable(item),
{
    assert forall|i: int| 0 <= i < item.len() && (#[trigger] item[i]).0 == "source"@ implies (
    crate::cell::source_text(item[i].1) matches Some(text) ==> crate::summary::summarizable(
        text,
    )) by {
        if let Some(text) = crate::cell::source_text(item[i].1) {
            crate::summary::lemma_extent_is_bounded(text);
        }
    }
}

/// A notebook can be put together where its format is known, each of its cells has a source, and
/// no cell is huge.
pub proof fn lemma_room_for_building(builder: NotebookBuilder, buffers: Seq<BufferView>)
    requires
        builder.nbformat is Some,
        builder.nbformat_minor is Some,
        builder.cell_builders@.len() <= u32::MAX,
        forall|i: int|
            #![trigger builder.cell_builders@[i]]
            0 <= i < builder.cell_builders@.len() ==> {
                let cell = builder.cell_builders@[i];
                &&& cell.source matches Some(source) && source.index < buffers.len()
                &&& cell.output_content matches Some(output) ==> output.index < buffers.len()
                &&& crate::text::byte_len(buffers[(cell.source->0).index as int].text) + (
                match cell.output_content {
                    Some(output) => crate::text::byte_len(buffers[output.index as int].text),
                    None => 0,
                }) < u32::MAX
            },
    ensures
        builder.buildable(buffers),
{
    let builders = builder.cell_builders@;
    assert forall|i: int| 0 <= i < builders.len() implies {
        &&& (#[trigger] builders[i]).source matches Some(source) && source.valid(buffers)
        &&& builders[i].output_content matches Some(output) ==> output.valid(buffers)
        &&& crate::cell::measurable(builders[i].source->0, builders[i].output_content, buffers)
    } by {
        crate::summary::lemma_extent_is_bounded(
            buffers[(builders[i].source->0).index as int].text,
        );
        if let Some(output) = builders[i].output_content {
            crate::summary::lemma_extent_is_bounded(buffers[output.index as int].text);
        }
    }
}

/// A selected part of a cell can be run in a notebook in order, where the part ends between
/// characters, the text is not huge, and numbers for excerpts are left.
pub proof fn lemma_room_for_a_selection(
    editor: NotebookEditor,
    buffers: Seq<BufferView>,
    at: int,
    head: Seq<char>,
    middle: Seq<char>,
    tail: Seq<char>,
    range: (usize, usize),
)
    requires
        editor.notebook.cells.wf(buffers),
        editor.notebook.cells.tree@.len() <= u32::MAX,
        editor.notebook.cells.multi.next_id <= u32::MAX,
        0 <= at < editor.notebook.cells.tree@.len(),
        buffers[editor.notebook.cells.tree@[at].source.index as int].text == head + middle + tail,
        crate::text::byte_len(head + middle + tail) <= u32::MAX,
        range.0 == crate::text::byte_len(head),
        range.1 == crate::text::byte_len(head) + crate::text::byte_len(middle),
    ensures
        editor.splits(Some(editor.notebook.cells.tree@[at].source), seq![range], buffers),
{
    lemma_room_for_a_split(head, middle, tail);
    lemma_number_of_handles(editor.notebook.cells.tree@);
    crate::laws::place::lemma_source_leads_to_its_cell(editor.notebook.cells, buffers, at);
}

/// An entry of a document that does not give its cells can always be read, and so can one that does
/// where none of their sources is huge.
pub proof fn lemma_room_for_an_entry(entry: DocumentEntry)
    requires
        entry.key@ == "cells"@ ==> (entry.value@.as_objects() matches Ok(items) ==> {
            &&& items.len() < u64::MAX
            &&& forall|k: int, i: int|
                #![trigger items[k][i]]
                0 <= k < items.len() && 0 <= i < items[k].len() && items[k][i].0 == "source"@ ==> (
                crate::cell::source_text(items[k][i].1) matches Some(text)
                    ==> crate::text::byte_len(text) <= u32::MAX)
        }),
    ensures
        entry.readable(),
{
    if entry.key@ == "cells"@ {
        if let Ok(items) = entry.value@.as_objects() {
            assert forall|k: int| 0 <= k < items.len() implies
                crate::notebook_builder::cell_readable(#[trigger] items[k]) by {
                assert forall|i: int|
                    0 <= i < items[k].len() && (#[trigger] items[k][i]).0 == "source"@ implies (
                crate::cell::source_text(items[k][i].1) matches Some(text)
                    ==> crate::text::byte_len(text) <= u32::MAX) by {
                }
                lemma_room_for_a_document_cell(items[k]);
            }
        }
    }
}

} // verus!
