//! What holds of notebooks as a whole.
pub mod answer;
pub mod document;
pub mod editing;
pub mod extent;
pub mod kernel;
pub mod message;
pub mod output;
pub mod place;
pub mod prompt;
pub mod text;
pub mod view;
pub mod viewer;

use crate::buffer::BufferView;
use crate::cell::{BuildState, Cell, CellId};
use crate::cell_summary::CellSummary;
use crate::cells::{Bias, Cells};
use crate::common::NotebookError;
use crate::json::{JsonView, ParseError};
use crate::jupyter::message::Message;
use crate::multi_buffer::{Excerpt, MultiBuffer};
use crate::output::IpynbCodeOutputView;
use vstd::prelude::*;

verus! {

/// An array of the strings `texts`.
pub open spec fn array_of(texts: Seq<Seq<char>>) -> JsonView {
    JsonView::Array(texts.map_values(|text: Seq<char>| JsonView::String(text)))
}

/// `lines`, each with a line break at its end.
pub open spec fn with_line_breaks(lines: Seq<Seq<char>>) -> Seq<Seq<char>> {
    lines.map_values(|line: Seq<char>| line + "\n"@)
}

/// It makes no difference whether a document gives the source of a cell as an array of lines with
/// their line breaks, as an array of lines without, or as a single string. The text has one line
/// break more than stand between the lines, at its end.
pub proof fn lemma_form_of_a_source(lines: Seq<Seq<char>>)
    requires
        forall|i: int| 0 <= i < lines.len() ==> !(#[trigger] lines[i]).contains('\n'),
    ensures
        ({
            let text = crate::text::joined(lines, "\n"@);
            &&& crate::cell::source_text(array_of(with_line_breaks(lines))) == Some(text + "\n"@)
            &&& crate::cell::source_text(array_of(lines)) == Some(text + "\n"@)
            &&& crate::cell::source_text(JsonView::String(text)) == Some(text + "\n"@)
        }),
{
    reveal_strlit("\n");
    lemma_texts_of_array(lines);
    lemma_texts_of_array(with_line_breaks(lines));
    assert forall|i: int| 0 <= i < lines.len() implies #[trigger] crate::text::without_line_break(
        lines[i],
    ) == lines[i] by {
        if lines[i].len() > 0 {
            assert(lines[i].contains(lines[i][lines[i].len() - 1]));
        }
    }
    assert(lines.map_values(|line: Seq<char>| crate::text::without_line_break(line)) =~= lines);
    let broken = with_line_breaks(lines);
    assert forall|i: int| 0 <= i < lines.len() implies #[trigger] crate::text::without_line_break(
        broken[i],
    ) == lines[i] by {
        assert(broken[i].drop_last() =~= lines[i]);
    }
    assert(broken.map_values(|line: Seq<char>| crate::text::without_line_break(line)) =~= lines);
}

/// An array of strings is read as the texts of its strings.
pub proof fn lemma_texts_of_array(texts: Seq<Seq<char>>)
    ensures
        array_of(texts).as_texts() == Ok::<Seq<Seq<char>>, ParseError>(texts),
{
    let items = texts.map_values(|text: Seq<char>| JsonView::String(text));
    assert(crate::json::all_strings(items));
    assert(items.map_values(|item: JsonView| item->String_0) =~= texts);
}

/// Sources that give the same text give the same cell.
pub proof fn lemma_only_the_text_of_a_source_counts(
    state: BuildState,
    first: JsonView,
    second: JsonView,
    project_open: bool,
)
    requires
        crate::cell::source_text(first) == crate::cell::source_text(second),
    ensures
        state.entry("source"@, first, project_open) == state.entry(
            "source"@,
            second,
            project_open,
        ),
{
    reveal_strlit("source");
    reveal_strlit("cell_id");
    reveal_strlit("cell_type");
    reveal_strlit("metadata");
    assert("source"@.len() != "cell_id"@.len());
    assert("source"@.len() != "cell_type"@.len());
    assert("source"@.len() != "metadata"@.len());
}

/// Of two messages for the same cell that have something to say, the second replaces what the
/// first printed. The output is the one that the first was printed in, and the second adds neither
/// buffers nor excerpts.
pub proof fn lemma_second_message_replaces_first(
    cells: Cells,
    buffers: Seq<BufferView>,
    id: CellId,
    first: Message,
    between: Cells,
    buffers_between: Seq<BufferView>,
    first_result: Result<(), NotebookError>,
    second: Message,
    after: Cells,
    buffers_after: Seq<BufferView>,
    second_result: Result<(), NotebookError>,
)
    requires
        cells.wf(buffers),
        buffers.len() < usize::MAX,
        crate::cells::cells_before(cells.tree@.len(), id, Bias::Left) < cells.tree@.len(),
        message_text(first) is Some,
        message_text(second) is Some,
        crate::cell_update::printed(
            cells,
            buffers,
            id,
            first,
            between,
            buffers_between,
            first_result,
        ),
        crate::cell_update::printed(
            between,
            buffers_between,
            id,
            second,
            after,
            buffers_after,
            second_result,
        ),
    ensures
        first_result is Ok,
        second_result is Ok,
        ({
            let at = crate::cells::cells_before(cells.tree@.len(), id, Bias::Left);
            let output = between.tree@[at].output_content->0;
            &&& between.tree@[at].output_content is Some
            &&& after.tree@[at].output_content == Some(output)
            &&& buffers_between[output.index as int].text == crate::text::normalized(
                message_text(first)->0,
            )
            &&& buffers_after[output.index as int].text == crate::text::normalized(
                message_text(second)->0,
            )
            &&& buffers_after.len() == buffers_between.len()
            &&& after.multi == between.multi
        }),
{
    let at = crate::cells::cells_before(cells.tree@.len(), id, Bias::Left);
    let cell = cells.tree@[at];
    assert(cell.valid(buffers));
    let with_buffer = crate::cell_update::with_output_buffer(buffers, cell);
    let updated = crate::cell_update::with_output(buffers, cell);
    let output = updated.output_content->0;
    assert(output.index < with_buffer.len());
    assert(updated.titled(with_buffer).len() == with_buffer.len());
    assert(between.tree@[at].output_content == Some(output));
    assert(between.tree@[at].titled(buffers_between).len() == buffers_between.len());
}

/// What `msg` has to say, if anything.
pub open spec fn message_text(msg: Message) -> Option<Seq<char>> {
    crate::jupyter::message::output_text(msg.msg_type, crate::json::entries_view(msg.content@))
}

/// Cells that have a place in a notebook whose cells are numbered leave them numbered: the number
/// of each is its place, counted from 1, without gaps, and no cell is lost.
pub proof fn lemma_numbers_after_insertion(tree: Seq<Cell>, cells: Seq<Cell>)
    requires
        crate::cells::numbered(tree),
        crate::cells::placeable(tree, cells),
    ensures
        ({
            let after = crate::cells::inserted_tree(tree, cells);
            &&& after.len() == tree.len() + cells.len()
            &&& forall|i: int| 0 <= i < after.len() ==> (#[trigger] after[i]).id == CellId(
                (i + 1) as u64,
            )
        }),
{
    crate::cells::lemma_inserted_tree(tree, cells);
    let after = crate::cells::inserted_tree(tree, cells);
    assert forall|i: int| 0 <= i < after.len() implies (#[trigger] after[i]).id == CellId(
        (i + 1) as u64,
    ) by {
        assert(after[i].id.0 == i + 1);
    }
}

/// Where the excerpts show the buffers of the cells in order, each source before the output of the
/// same cell, and nothing else, they do so again after an insertion, each buffer once. Every
/// excerpt spans the whole text of its buffer, however long that is.
pub proof fn lemma_excerpts_after_insertion(multi: MultiBuffer, tree: Seq<Cell>, cells: Seq<Cell>)
    requires
        multi.wf(),
        crate::cells::numbered(tree),
        crate::cells::shows(multi.excerpts@, tree),
        crate::cells::placeable(tree, cells),
        crate::cells::fresh_handles(tree, cells),
        multi.next_id + crate::cells::all_handles(cells).len() + crate::cells::all_handles(
            tree.skip(cells[0].id.0 - 1),
        ).len() <= u64::MAX,
    ensures
        ({
            let after = crate::cells::inserted_tree(tree, cells);
            let excerpts = crate::cells::inserted_excerpts(
                multi.excerpts@,
                multi.next_id,
                tree,
                cells,
            );
            &&& excerpts.map_values(|excerpt: Excerpt| excerpt.buffer)
                == crate::cells::all_handles(after)
            &&& crate::cells::all_handles(after).no_duplicates()
            &&& forall|i: int, len: int|
                #![trigger excerpts[i].end.resolved(len)]
                0 <= i < excerpts.len() ==> excerpts[i].start.resolved(len) == 0
                    && excerpts[i].end.resolved(len) == len
        }),
{
    crate::cells::lemma_inserted_excerpts(multi, tree, cells);
    let excerpts = crate::cells::inserted_excerpts(multi.excerpts@, multi.next_id, tree, cells);
    assert forall|i: int, len: int|
        #![trigger excerpts[i].end.resolved(len)]
        0 <= i < excerpts.len() implies excerpts[i].start.resolved(len) == 0
        && excerpts[i].end.resolved(len) == len by {
        assert(excerpts[i].whole());
    }
}

/// A cell without an output is as long as its source. One with an output is as long as both, and
/// has a row more than both. What was measured before plays no part, so a second measurement
/// changes nothing.
pub proof fn lemma_measure_of_a_cell(cell: Cell, buffers: Seq<BufferView>)
    requires
        cell.measurable(buffers),
    ensures
        ({
            let source = buffers[cell.source.index as int].text;
            let measured = cell.measured(buffers);
            &&& match cell.output_content {
                Some(output) => {
                    let output = buffers[output.index as int].text;
                    &&& measured.len == crate::text::byte_len(source) + crate::text::byte_len(
                        output,
                    )
                    &&& measured.lines.row == crate::summary::line_breaks(source)
                        + crate::summary::line_breaks(output) + 1
                },
                None => measured == crate::summary::summary_of(source),
            }
            &&& (Cell { text_summary: measured, ..cell }).measured(buffers) == measured
        }),
{
}

/// The summary of what `summaries` summarise, one after the other.
pub open spec fn summed(summaries: Seq<CellSummary>) -> CellSummary
    decreases summaries.len(),
{
    if summaries.len() == 0 {
        CellSummary::nothing()
    } else {
        summed(summaries.drop_last()).added(summaries.last())
    }
}

/// Whether `summaries` can be added up, one after the other.
pub open spec fn can_sum(summaries: Seq<CellSummary>) -> bool
    decreases summaries.len(),
{
    summaries.len() > 0 ==> can_sum(summaries.drop_last()) && summed(
        summaries.drop_last(),
    ).can_add(summaries.last())
}

/// Summaries add up to the same, however they are grouped.
pub proof fn lemma_grouping_of_summaries(first: Seq<CellSummary>, second: Seq<CellSummary>)
    requires
        can_sum(first + second),
    ensures
        can_sum(first),
        can_sum(second),
        summed(first).can_add(summed(second)),
        summed(first + second) == summed(first).added(summed(second)),
    decreases second.len(),
{
    if second.len() == 0 {
        assert(first + second =~= first);
    } else {
        assert((first + second).drop_last() =~= first + second.drop_last());
        assert((first + second).last() == second.last());
        lemma_grouping_of_summaries(first, second.drop_last());
    }
}

/// The summaries of cells add up to one that counts them.
pub proof fn lemma_summaries_count_cells(cells: Seq<Cell>)
    requires
        can_sum(cells.map_values(|cell: Cell| cell.summarized())),
    ensures
        summed(cells.map_values(|cell: Cell| cell.summarized())).num_cells_inclusive
            == cells.len(),
    decreases cells.len(),
{
    let summaries = cells.map_values(|cell: Cell| cell.summarized());
    if cells.len() > 0 {
        assert(summaries.drop_last() =~= cells.drop_last().map_values(
            |cell: Cell| cell.summarized(),
        ));
        lemma_summaries_count_cells(cells.drop_last());
    }
}

/// What is shown for two lists of outputs, one after the other, is what is shown for the first and
/// then what is shown for the second.
pub proof fn lemma_shown_text_of_two_lists(
    first: Seq<IpynbCodeOutputView>,
    second: Seq<IpynbCodeOutputView>,
)
    ensures
        crate::output::shown_text(first + second) == crate::output::shown_text(first)
            + crate::output::shown_text(second),
    decreases second.len(),
{
    let shown = crate::output::shown_text(first);
    if second.len() == 0 {
        assert(first + second =~= first);
        assert(shown + crate::output::shown_text(second) =~= shown);
    } else {
        let rest = second.drop_last();
        lemma_shown_text_of_two_lists(first, rest);
        assert((first + second).drop_last() =~= first + rest);
        assert((first + second).last() == second.last());
        if let Some(text) = second.last().shown() {
            assert(shown + crate::output::shown_text(rest) + text + "\n"@ =~= shown + (
            crate::output::shown_text(rest) + text + "\n"@));
        }
    }
}

} // verus!
