//! What holds of the places of cells: where they are shown, and where new ones go.
use crate::buffer::{BufferId, BufferView};
use crate::cell::{Cell, CellId, CellType};
use crate::cells::Cells;
use crate::multi_buffer::{Anchor, Excerpt, ExcerptId, MultiBuffer};
use crate::summary::Point;
use vstd::prelude::*;

verus! {

/// What `cells` look like one after the other: the source of each and then its output, if it has
/// one, with a line break after each.
pub open spec fn text_of_cells(buffers: Seq<BufferView>, cells: Seq<Cell>) -> Seq<char>
    decreases cells.len(),
{
    if cells.len() == 0 {
        Seq::empty()
    } else {
        let cell = cells.last();
        let with_source = text_of_cells(buffers, cells.drop_last())
            + buffers[cell.source.index as int].text + seq!['\n'];
        match cell.output_content {
            Some(output) => with_source + buffers[output.index as int].text + seq!['\n'],
            None => with_source,
        }
    }
}

/// The excerpts of cells look like the cells one after the other.
pub proof fn lemma_text_of_cells(buffers: Seq<BufferView>, cells: Seq<Cell>)
    ensures
        text_of_cells(buffers, cells) == crate::editor::text_of_excerpts(
            buffers,
            crate::cells::all_handles(cells),
        ),
    decreases cells.len(),
{
    if cells.len() > 0 {
        let front = cells.drop_last();
        let cell = cells.last();
        lemma_text_of_cells(buffers, front);
        let handles = crate::cells::all_handles(front);
        let with_source = handles.push(cell.source);
        assert(with_source.drop_last() =~= handles);
        assert(crate::editor::text_of_excerpts(buffers, with_source) == text_of_cells(
            buffers,
            front,
        ) + buffers[cell.source.index as int].text + seq!['\n']);
        match cell.output_content {
            Some(output) => {
                let with_output = with_source.push(output);
                assert(with_output.drop_last() =~= with_source);
                assert(crate::cells::all_handles(cells) =~= with_output);
            },
            None => {
                assert(crate::cells::all_handles(cells) =~= with_source);
            },
        }
    }
}

/// Whether `point` is where the cell with number `id` starts in what `cells` look like: in the
/// first column, after as many line breaks as the cells before it take, outputs and all.
pub open spec fn starts_at(
    buffers: Seq<BufferView>,
    cells: Seq<Cell>,
    id: CellId,
    point: Option<Point>,
) -> bool {
    &&& point matches Some(point)
    &&& point.row == text_of_cells(buffers, cells.take(id.0 - 1)).filter(
        |c: char| c == '\n',
    ).len()
    &&& point.column == 0
}

/// The place that is focused for a cell is where the cell starts: the number of line breaks in the
/// texts of the cells before it, each source and each output with a line break after it, and the
/// first column. Where there is no cell with the number, none is.
pub proof fn lemma_focus_is_the_start_of_the_cell(
    buffers: Seq<BufferView>,
    cells: Seq<Cell>,
    id: CellId,
)
    requires
        crate::cells::numbered(cells),
        crate::cell_update::all_measurable(buffers, cells),
        crate::cell_summary::summable(crate::cell_update::all_measured(buffers, cells)),
        id.0 >= 1,
    ensures
        ({
            let point = crate::editor::focus_point(
                crate::cell_update::all_measured(buffers, cells),
                id,
            );
            if id.0 <= cells.len() {
                &&& starts_at(buffers, cells, id, point)
                &&& (point->0).row == crate::summary::line_breaks(
                    crate::editor::text_of_excerpts(
                        buffers,
                        crate::cells::all_handles(cells.take(id.0 - 1)),
                    ),
                )
            } else {
                point is None
            }
        }),
{
    let measured = crate::cell_update::all_measured(buffers, cells);
    if id.0 <= cells.len() {
        let at = id.0 - 1;
        let front = cells.take(at);
        assert(measured.take(at) =~= crate::cell_update::all_measured(buffers, front));
        assert forall|i: int| 0 <= i < front.len() implies (#[trigger] front[i]).measurable(
            buffers,
        ) by {
            assert(cells[i].measurable(buffers));
        }
        crate::editor::lemma_rows_before(buffers, front);
        lemma_text_of_cells(buffers, front);
        crate::laws::text::lemma_line_breaks_are_counted(text_of_cells(buffers, front));
        crate::cell_summary::lemma_total_prefix(measured, at);
    }
}

/// The buffers of a cell are its source and then its output, if it has one. Those of cells one
/// after the other follow each other.
pub proof fn lemma_buffers_of_cells(first: Seq<Cell>, cell: Cell)
    ensures
        crate::cells::all_handles(first.push(cell)) == crate::cells::all_handles(first) + (
        match cell.output_content {
            Some(output) => seq![cell.source, output],
            None => seq![cell.source],
        }),
        crate::cells::all_handles(Seq::empty()).len() == 0,
{
    assert(first.push(cell).drop_last() =~= first);
}

/// In a notebook in order, the number of each cell is its place, its buffers are there, and the
/// excerpts show the buffers of the cells in order, each as a whole and none twice.
pub proof fn lemma_notebook_in_order(cells: Cells, buffers: Seq<BufferView>)
    requires
        cells.wf(buffers),
    ensures
        forall|i: int|
            0 <= i < cells.tree@.len() ==> {
                &&& (#[trigger] cells.tree@[i]).id.0 == i + 1
                &&& cells.tree@[i].source.index < buffers.len()
                &&& cells.tree@[i].output_content matches Some(output) ==> output.index
                    < buffers.len()
            },
        cells.multi.excerpts@.len() == crate::cells::all_handles(cells.tree@).len(),
        forall|i: int|
            0 <= i < cells.multi.excerpts@.len() ==> {
                &&& (#[trigger] cells.multi.excerpts@[i]).buffer == crate::cells::all_handles(
                    cells.tree@,
                )[i]
                &&& cells.multi.excerpts@[i].start == Anchor::Min
                &&& cells.multi.excerpts@[i].end == Anchor::Max
            },
        forall|i: int, j: int|
            0 <= i < j < cells.multi.excerpts@.len() ==> (
            #[trigger] cells.multi.excerpts@[i]).buffer != (
            #[trigger] cells.multi.excerpts@[j]).buffer && cells.multi.excerpts@[i].id
                != cells.multi.excerpts@[j].id,
{
    let excerpts = cells.multi.excerpts@;
    let shown = excerpts.map_values(|excerpt: Excerpt| excerpt.buffer);
    assert forall|i: int| 0 <= i < excerpts.len() implies (#[trigger] excerpts[i]).buffer
        == crate::cells::all_handles(cells.tree@)[i] by {
        assert(shown[i] == excerpts[i].buffer);
    }
    assert forall|i: int| 0 <= i < cells.tree@.len() implies (#[trigger] cells.tree@[i]).valid(
        buffers,
    ) && cells.tree@[i].id.0 == i + 1 by {
    }
    assert forall|i: int| 0 <= i < excerpts.len() implies (#[trigger] excerpts[i]).whole() by {
    }
}

proof fn lemma_handles_of_each(cells: Seq<Cell>, i: int)
    requires
        0 <= i < cells.len(),
    ensures
        crate::cells::all_handles(cells).contains(cells[i].source),
        cells[i].output_content matches Some(output) ==> crate::cells::all_handles(cells).contains(
            output,
        ),
    decreases cells.len(),
{
    let front = crate::cells::all_handles(cells.drop_last());
    let all = crate::cells::all_handles(cells);
    if i == cells.len() - 1 {
        assert(all[front.len() as int] == cells[i].source);
        if let Some(output) = cells[i].output_content {
            assert(all[front.len() as int + 1] == output);
        }
    } else {
        lemma_handles_of_each(cells.drop_last(), i);
        let at = front.index_of(cells[i].source);
        assert(all[at] == front[at]);
        if let Some(output) = cells[i].output_content {
            let at = front.index_of(output);
            assert(all[at] == front[at]);
        }
    }
}

/// Cells whose buffers all differ are titled each by its own number: a source by the type of its
/// cell too. Neither texts nor languages change, and no buffer that is not one of theirs.
pub proof fn lemma_titles_of_cells(buffers: Seq<BufferView>, cells: Seq<Cell>)
    requires
        crate::cells::all_valid(buffers, cells),
        crate::cells::all_handles(cells).no_duplicates(),
    ensures
        ({
            let after = crate::cells::all_titled(buffers, cells);
            &&& after.len() == buffers.len()
            &&& crate::laws::document::keeps_buffers(buffers, after)
            &&& forall|k: int|
                0 <= k < buffers.len() && !crate::cells::all_handles(cells).contains(
                    BufferId { index: k as usize },
                ) ==> #[trigger] after[k] == buffers[k]
            &&& forall|i: int| 0 <= i < cells.len() ==> has_titles(after, #[trigger] cells[i])
        }),
    decreases cells.len(),
{
    if cells.len() > 0 {
        let front = cells.drop_last();
        let cell = cells.last();
        let before = crate::cells::all_titled(buffers, front);
        let after = crate::cells::all_titled(buffers, cells);
        let handles = crate::cells::all_handles(front);
        let all = crate::cells::all_handles(cells);
        assert(crate::cells::all_valid(buffers, front)) by {
            assert forall|i: int| 0 <= i < front.len() implies (#[trigger] front[i]).valid(
                buffers,
            ) by {
                assert(cells[i].valid(buffers));
            }
        }
        assert(all == handles + cell.handles());
        assert(handles.no_duplicates()) by {
            assert forall|i: int, j: int| 0 <= i < j < handles.len() implies handles[i]
                != handles[j] by {
                assert(all[i] == handles[i] && all[j] == handles[j]);
            }
        }
        assert(cells[cells.len() - 1].valid(buffers));
        lemma_titles_of_cells(buffers, front);
        lemma_handles_of_each(cells, cells.len() - 1);
        crate::laws::document::lemma_titles_of_excerpts(
            cell.id.0,
            crate::text::optional_text(cell.cell_id),
            cell.cell_type,
        );
        let start = handles.len() as int;
        assert(all[start] == cell.source);
        if let Some(output) = cell.output_content {
            assert(all[start + 1] == output);
            assert(output != cell.source);
        }
        assert(has_titles(after, cell));
        assert forall|i: int| 0 <= i < cells.len() implies has_titles(
            after,
            #[trigger] cells[i],
        ) by {
            if i < front.len() {
                assert(front[i] == cells[i]);
                assert(cells[i].valid(buffers));
                assert(has_titles(before, front[i]));
                lemma_handles_of_each(front, i);
                let at = handles.index_of(cells[i].source);
                assert(all[at] == cells[i].source && at < start);
                if let Some(output) = cells[i].output_content {
                    let at = handles.index_of(output);
                    assert(all[at] == output && at < start);
                }
            }
        }
        assert forall|k: int|
            0 <= k < buffers.len() && !all.contains(BufferId { index: k as usize }) implies
            #[trigger] after[k] == buffers[k] by {
            let handle = BufferId { index: k as usize };
            if handles.contains(handle) {
                let at = handles.index_of(handle);
                assert(all[at] == handle);
            }
            assert(all[start] != handle);
            if let Some(output) = cell.output_content {
                assert(all[start + 1] != handle);
            }
            assert(before[k] == buffers[k]);
        }
    }
}

/// Whether the buffers of `cell` are titled by its number, and its source by its type too.
pub open spec fn has_titles(buffers: Seq<BufferView>, cell: Cell) -> bool {
    let cell_id = crate::text::optional_text(cell.cell_id);
    &&& buffers[cell.source.index as int].file matches Some(file)
        && crate::laws::document::source_title(file, cell.id.0, cell_id, cell.cell_type)
    &&& cell.output_content matches Some(output) ==> {
        &&& buffers[output.index as int].file matches Some(file)
        &&& crate::laws::document::output_title(file, cell.id.0, cell_id)
    }
}

/// Measuring cells changes nothing of them but their extents, which are then those of their texts.
pub proof fn lemma_measuring_changes_extents(buffers: Seq<BufferView>, cells: Seq<Cell>)
    ensures
        ({
            let measured = crate::cell_update::all_measured(buffers, cells);
            &&& measured.len() == cells.len()
            &&& forall|i: int|
                0 <= i < cells.len() ==> same_but_extent(cells[i], #[trigger] measured[i])
            &&& forall|i: int|
                0 <= i < cells.len() && cells[i].measurable(buffers) ==> is_measured(
                    buffers,
                    #[trigger] measured[i],
                )
        }),
{
}

/// Whether the extent of `cell` is that of its texts.
pub open spec fn is_measured(buffers: Seq<BufferView>, cell: Cell) -> bool {
    crate::laws::document::has_extent(
        cell.text_summary,
        buffers[cell.source.index as int].text,
        match cell.output_content {
            Some(output) => Some(buffers[output.index as int].text),
            None => None,
        },
    )
}

/// Whether `cell` and `after` differ in nothing but their extents.
pub open spec fn same_but_extent(cell: Cell, after: Cell) -> bool {
    same_but_place(cell, after) && after.id == cell.id
}

/// Whether `cell` and `after` differ in nothing but their numbers and their extents.
pub open spec fn same_but_place(cell: Cell, after: Cell) -> bool {
    &&& after.latest_execution_request_msg_id == cell.latest_execution_request_msg_id
    &&& after.cell_id == cell.cell_id
    &&& after.cell_type == cell.cell_type
    &&& after.metadata == cell.metadata
    &&& after.source == cell.source
    &&& after.execution_count == cell.execution_count
    &&& after.outputs == cell.outputs
    &&& after.output_content == cell.output_content
    &&& after.state == cell.state
}

/// Whether `cell` is a new cell with nothing but its number, its type and its source.
pub open spec fn is_new(cell: Cell, id: CellId, cell_type: CellType, source: BufferId) -> bool {
    &&& cell@.id == id
    &&& cell@.cell_type == cell_type
    &&& cell@.source == source
    &&& cell@.latest_execution_request_msg_id is None
    &&& cell@.cell_id is None
    &&& cell@.metadata.len() == 0
    &&& cell@.execution_count is None
    &&& cell@.outputs is None
    &&& cell@.output_content is None
    &&& cell@.state is None
}

/// In a notebook in order, the cell that is found by its source is the one cell with that source.
pub proof fn lemma_source_leads_to_its_cell(cells: Cells, buffers: Seq<BufferView>, at: int)
    requires
        cells.wf(buffers),
        0 <= at < cells.tree@.len(),
    ensures
        crate::editing::active_place(cells.tree@, Some(cells.tree@[at].source)) == Some(at),
        crate::editing::active_place(cells.tree@, None) is None,
{
    let tree = cells.tree@;
    let source = tree[at].source;
    crate::cells::lemma_place_of_source(tree, source);
    let found = crate::cells::place_of_source(tree, source)->0;
    if found > at {
        let front = tree.take(found);
        assert(tree.take(found + 1).drop_last() =~= front);
        assert(tree.take(found + 1).last() == tree[found]);
        assert(tree.take(found + 1) + tree.skip(found + 1) =~= tree);
        crate::cells::lemma_all_handles_concat(tree.take(found + 1), tree.skip(found + 1));
        lemma_handles_of_each(front, at);
        let handles = crate::cells::all_handles(front);
        let all = crate::cells::all_handles(tree);
        let i = handles.index_of(source);
        assert(all[i] == source);
        assert(all[handles.len() as int] == source);
    }
}

/// The excerpts of a buffer are those that show it, in order, and the ones that stay when some are
/// taken out are all others, in order.
pub proof fn lemma_choice_of_excerpts(
    excerpts: Seq<Excerpt>,
    excerpt: Excerpt,
    buffer: BufferId,
    ids: Seq<ExcerptId>,
)
    ensures
        crate::multi_buffer::excerpts_of(Seq::empty(), buffer).len() == 0,
        crate::multi_buffer::excerpts_of(excerpts.push(excerpt), buffer) == (if excerpt.buffer
            == buffer {
            crate::multi_buffer::excerpts_of(excerpts, buffer).push(excerpt)
        } else {
            crate::multi_buffer::excerpts_of(excerpts, buffer)
        }),
        crate::multi_buffer::without_excerpts(Seq::empty(), ids).len() == 0,
        crate::multi_buffer::without_excerpts(excerpts.push(excerpt), ids) == (if ids.contains(
            excerpt.id,
        ) {
            crate::multi_buffer::without_excerpts(excerpts, ids)
        } else {
            crate::multi_buffer::without_excerpts(excerpts, ids).push(excerpt)
        }),
        crate::multi_buffer::excerpt_ids(excerpts).len() == excerpts.len(),
        forall|i: int|
            0 <= i < excerpts.len() ==> #[trigger] crate::multi_buffer::excerpt_ids(excerpts)[i]
                == excerpts[i].id,
{
    let is_of = |excerpt: Excerpt| excerpt.buffer == buffer;
    let stays = |excerpt: Excerpt| !ids.contains(excerpt.id);
    excerpts.lemma_filter_push(excerpt, is_of);
    excerpts.lemma_filter_push(excerpt, stays);
    crate::cells::lemma_filter_none(Seq::empty(), is_of);
    crate::cells::lemma_filter_none(Seq::empty(), stays);
}

/// What goes after an excerpt goes right behind it, and what goes after the least identity goes to
/// the front.
pub proof fn lemma_place_after_an_excerpt(excerpts: Seq<Excerpt>, i: int)
    requires
        crate::multi_buffer::distinct_ids(excerpts),
        0 <= i < excerpts.len(),
        excerpts[i].id.0 >= 1,
    ensures
        crate::multi_buffer::place_after(excerpts, excerpts[i].id) == i + 1,
        crate::multi_buffer::place_after(excerpts, ExcerptId(0)) == 0,
{
    crate::cells::lemma_excerpt_index(excerpts, i);
}

/// New excerpts show the buffers in order, each as a whole, and have identities of their own, one
/// after the other.
pub proof fn lemma_new_excerpts(handles: Seq<BufferId>, first: int, i: int)
    requires
        0 <= i < handles.len(),
        0 <= first,
        first + handles.len() <= u64::MAX,
    ensures
        ({
            let excerpts = crate::cells::new_excerpts(handles, first);
            &&& excerpts.len() == handles.len()
            &&& excerpts[i].id.0 == first + i
            &&& excerpts[i].buffer == handles[i]
            &&& excerpts[i].start == Anchor::Min
            &&& excerpts[i].end == Anchor::Max
        }),
{
}

/// In a notebook in order, the excerpts of a cell are the one that shows its source and then the
/// one that shows its output, if it has one.
pub proof fn lemma_excerpts_of_a_cell(cells: Cells, buffers: Seq<BufferView>, at: int)
    requires
        cells.wf(buffers),
        0 <= at < cells.tree@.len(),
    ensures
        ({
            let excerpts = cells.multi.excerpts@;
            let cell = cells.tree@[at];
            let ids = crate::cells::cell_excerpt_ids(excerpts, cell);
            let place = crate::cells::all_handles(cells.tree@.take(at)).len() as int;
            &&& 0 <= place < excerpts.len()
            &&& excerpts[place].buffer == cell.source
            &&& ids[0] == excerpts[place].id
            &&& cell.output_content is None ==> ids.len() == 1
            &&& cell.output_content matches Some(output) ==> {
                &&& ids.len() == 2
                &&& place + 1 < excerpts.len()
                &&& excerpts[place + 1].buffer == output
                &&& ids[1] == excerpts[place + 1].id
            }
        }),
{
    let tree = cells.tree@;
    let excerpts = cells.multi.excerpts@;
    let cell = tree[at];
    let front = tree.take(at + 1);
    assert(front + tree.skip(at + 1) =~= tree);
    crate::cells::lemma_all_handles_concat(front, tree.skip(at + 1));
    assert(front.drop_last() =~= tree.take(at));
    assert(front.last() == cell);
    let before = crate::cells::all_handles(tree.take(at));
    let place = before.len() as int;
    let shown = excerpts.map_values(|excerpt: Excerpt| excerpt.buffer);
    let own = cell.handles();
    assert(crate::cells::all_handles(front) == before + own);
    assert(own[0] == cell.source);
    assert(place < shown.len() && shown.len() == excerpts.len());
    assert(shown[place] == cell.source);
    assert(excerpts[place].buffer == cell.source);
    crate::cells::lemma_single_excerpt(excerpts, place);
    if let Some(output) = cell.output_content {
        assert(own[1] == output);
        assert(shown[place + 1] == output);
        assert(excerpts[place + 1].buffer == output);
        crate::cells::lemma_single_excerpt(excerpts, place + 1);
    }
}

/// The titles of a cell stand on its own buffers, and name its number: that of its source its type
/// too. Nothing else changes.
pub proof fn lemma_titles_of_a_cell(buffers: Seq<BufferView>, cell: Cell)
    requires
        cell.valid(buffers),
        cell.output_content != Some(cell.source),
    ensures
        ({
            let after = cell.titled(buffers);
            &&& after.len() == buffers.len()
            &&& has_titles(after, cell)
            &&& crate::laws::document::keeps_buffers(buffers, after)
            &&& forall|k: int|
                0 <= k < buffers.len() && k != cell.source.index && cell.output_content != Some(
                    BufferId { index: k as usize },
                ) ==> #[trigger] after[k] == buffers[k]
        }),
{
    crate::laws::document::lemma_titles_of_excerpts(
        cell.id.0,
        crate::text::optional_text(cell.cell_id),
        cell.cell_type,
    );
}

/// Giving a cell another output shows that in place of the one it had, right after its source, and
/// leaves all other excerpts as they are.
pub proof fn lemma_output_takes_its_place(
    cells: Cells,
    buffers: Seq<BufferView>,
    at: int,
    block: Seq<Excerpt>,
)
    requires
        cells.wf(buffers),
        0 <= at < cells.tree@.len(),
    ensures
        ({
            let excerpts = cells.multi.excerpts@;
            let cell = cells.tree@[at];
            let place = crate::cells::all_handles(cells.tree@.take(at)).len() as int;
            let after = crate::cell_update::with_output_excerpts(
                excerpts,
                cells.tree@,
                at,
                block,
            );
            &&& excerpts[place].buffer == cell.source
            &&& after == excerpts.take(place + 1) + block + excerpts.skip(
                if cell.output_content is Some {
                    place + 2
                } else {
                    place + 1
                },
            )
        }),
{
    lemma_excerpts_of_a_cell(cells, buffers, at);
}

/// An insertion leaves the excerpts of what stands before it as they are. All that follow are new,
/// with identities that were not given out before: one for each buffer of the new cells and of the
/// cells behind them, in order.
pub proof fn lemma_excerpts_before_an_insertion_stay(
    multi: MultiBuffer,
    tree: Seq<Cell>,
    cells: Seq<Cell>,
)
    requires
        multi.wf(),
        crate::cells::shows(multi.excerpts@, tree),
        cells.len() > 0,
        1 <= cells[0].id.0 <= tree.len() + 1,
        multi.next_id + crate::cells::all_handles(cells).len() + crate::cells::all_handles(
            tree.skip(cells[0].id.0 - 1),
        ).len() <= u64::MAX,
    ensures
        ({
            let after = crate::cells::inserted_excerpts(
                multi.excerpts@,
                multi.next_id,
                tree,
                cells,
            );
            let kept = crate::cells::all_handles(tree.take(cells[0].id.0 - 1)).len() as int;
            let added = crate::cells::all_handles(cells) + crate::cells::all_handles(
                tree.skip(cells[0].id.0 - 1),
            );
            &&& kept <= multi.excerpts@.len()
            &&& after.len() == kept + added.len()
            &&& forall|i: int| 0 <= i < kept ==> #[trigger] after[i] == multi.excerpts@[i]
            &&& forall|i: int|
                #![trigger added[i]]
                0 <= i < added.len() ==> after[kept + i].buffer == added[i] && after[kept + i].id.0
                    == multi.next_id + i
        }),
{
    crate::cells::lemma_inserted_form(multi, tree, cells);
    let at = cells[0].id.0 - 1;
    assert(tree.take(at) + tree.skip(at) =~= tree);
    crate::cells::lemma_all_handles_concat(tree.take(at), tree.skip(at));
    let shown = multi.excerpts@.map_values(|excerpt: Excerpt| excerpt.buffer);
    assert(shown.len() == multi.excerpts@.len());
}

/// A notebook whose cells are numbered by their places, whose buffers are there, and whose excerpts
/// show them in order, each once and as a whole, under identities that were given out and that
/// differ, is in order.
pub proof fn lemma_what_order_takes(cells: Cells, buffers: Seq<BufferView>)
    requires
        cells.tree@.len() < u64::MAX,
        forall|i: int|
            0 <= i < cells.tree@.len() ==> (#[trigger] cells.tree@[i]).id.0 == i + 1
                && cells.tree@[i].source.index < buffers.len() && (
            cells.tree@[i].output_content matches Some(output) ==> output.index < buffers.len()),
        cells.multi.excerpts@.len() == crate::cells::all_handles(cells.tree@).len(),
        cells.multi.next_id >= 1,
        forall|i: int|
            0 <= i < cells.multi.excerpts@.len() ==> {
                let excerpt = #[trigger] cells.multi.excerpts@[i];
                &&& excerpt.buffer == crate::cells::all_handles(cells.tree@)[i]
                &&& excerpt.start == Anchor::Min
                &&& excerpt.end == Anchor::Max
                &&& 1 <= excerpt.id.0 < cells.multi.next_id
            },
        forall|i: int, j: int|
            0 <= i < j < cells.multi.excerpts@.len() ==> (
            #[trigger] cells.multi.excerpts@[i]).buffer != (
            #[trigger] cells.multi.excerpts@[j]).buffer && cells.multi.excerpts@[i].id
                != cells.multi.excerpts@[j].id,
    ensures
        cells.wf(buffers),
{
    let excerpts = cells.multi.excerpts@;
    let handles = crate::cells::all_handles(cells.tree@);
    assert(excerpts.map_values(|excerpt: Excerpt| excerpt.buffer) =~= handles);
    assert forall|i: int, j: int| 0 <= i < j < handles.len() implies handles[i] != handles[j] by {
        assert(excerpts[i].buffer != excerpts[j].buffer);
    }
    assert forall|i: int| 0 <= i < excerpts.len() implies (#[trigger] excerpts[i]).whole() by {
        assert(excerpts[i].start == Anchor::Min);
    }
    assert forall|i: int, j: int| 0 <= i < j < excerpts.len() implies (#[trigger] excerpts[i]).id
        != (#[trigger] excerpts[j]).id by {
        assert(excerpts[i].buffer != excerpts[j].buffer);
    }
    assert forall|i: int| 0 <= i < cells.tree@.len() implies (#[trigger] cells.tree@[i]).valid(
        buffers,
    ) by {
        assert(cells.tree@[i].id.0 == i + 1);
    }
}

/// Excerpts that are put in stand together at their place. What stood before that place and what
/// stood after it still do.
pub proof fn lemma_block_is_put_in(excerpts: Seq<Excerpt>, place: int, block: Seq<Excerpt>)
    requires
        0 <= place <= excerpts.len(),
    ensures
        ({
            let after = crate::cells::spliced(excerpts, place, block);
            &&& after.len() == excerpts.len() + block.len()
            &&& forall|i: int| 0 <= i < place ==> #[trigger] after[i] == excerpts[i]
            &&& forall|i: int| 0 <= i < block.len() ==> after[place + i] == #[trigger] block[i]
            &&& forall|i: int|
                place <= i < excerpts.len() ==> after[i + block.len()] == #[trigger] excerpts[i]
        }),
{
}

/// A buffer that is there and is neither the source nor the output of a cell can become the output
/// of one, and so can none.
pub proof fn lemma_unused_buffer(tree: Seq<Cell>, buffer: BufferId, buffers: Seq<BufferView>)
    requires
        buffer.index < buffers.len(),
        forall|i: int|
            0 <= i < tree.len() ==> (#[trigger] tree[i]).source != buffer && tree[i].output_content
                != Some(buffer),
    ensures
        crate::cell_update::unused(tree, Some(buffer), buffers),
        crate::cell_update::unused(tree, None, buffers),
{
    lemma_not_among_buffers(tree, buffer);
}

proof fn lemma_not_among_buffers(tree: Seq<Cell>, buffer: BufferId)
    requires
        forall|i: int|
            0 <= i < tree.len() ==> (#[trigger] tree[i]).source != buffer && tree[i].output_content
                != Some(buffer),
    ensures
        !crate::cells::all_handles(tree).contains(buffer),
    decreases tree.len(),
{
    if tree.len() > 0 {
        let front = tree.drop_last();
        assert forall|i: int| 0 <= i < front.len() implies (#[trigger] front[i]).source != buffer
            && front[i].output_content != Some(buffer) by {
            assert(tree[i].source != buffer);
        }
        lemma_not_among_buffers(front, buffer);
        assert(tree[tree.len() - 1].source != buffer);
        let before = crate::cells::all_handles(front);
        let all = crate::cells::all_handles(tree);
        assert forall|k: int| 0 <= k < all.len() implies all[k] != buffer by {
            if k < before.len() {
                assert(before[k] == all[k]);
            } else {
                assert(all[k] == tree.last().handles()[k - before.len()]);
            }
        }
    }
}

} // verus!
