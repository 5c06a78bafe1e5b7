//! What holds of the cells that an editor adds.
use crate::buffer::{BufferId, BufferView};
use crate::cell::{Cell, CellId, CellType};
use crate::cells::{Bias, Cells};
use crate::editor::NotebookEditor;
use crate::summary::Point;
use vstd::prelude::*;

verus! {

/// In a notebook whose cells are numbered, the cells before a place are those with lower numbers,
/// and on its right side the one with the same number too.
pub proof fn lemma_cells_before_a_place(tree: Seq<Cell>, id: CellId, bias: Bias)
    requires
        crate::cells::numbered(tree),
    ensures
        ({
            let count = crate::cells::cells_before(tree.len(), id, bias);
            &&& 0 <= count <= tree.len()
            &&& forall|i: int|
                0 <= i < tree.len() ==> (i < count <==> (#[trigger] tree[i]).id.0 < id.0 || (bias
                    is Right && tree[i].id.0 == id.0))
        }),
{
}

/// Whether `after` is `tree` with `added` at the places from `at` on: the cells before them stay as
/// they are, and those that follow them get higher numbers, and nothing else of them changes.
pub open spec fn makes_room(
    tree: Seq<Cell>,
    at: int,
    added: Seq<Cell>,
    after: Seq<Cell>,
) -> bool {
    &&& after.len() == tree.len() + added.len()
    &&& forall|i: int| 0 <= i < at ==> #[trigger] after[i] == tree[i]
    &&& forall|i: int| 0 <= i < added.len() ==> after[at + i] == #[trigger] added[i]
    &&& forall|i: int|
        #![trigger tree[i]]
        at <= i < tree.len() ==> {
            let moved = after[i + added.len()];
            &&& moved.id.0 == i + added.len() + 1
            &&& crate::laws::place::same_but_place(tree[i], moved)
            &&& moved.text_summary == tree[i].text_summary
        }
}

/// Cells that are put into a notebook stand at their place, in their order. What stood before them
/// stays as it is, and of what follows them nothing changes but the number.
pub proof fn lemma_insertion_makes_room(tree: Seq<Cell>, cells: Seq<Cell>)
    requires
        crate::cells::numbered(tree),
        crate::cells::placeable(tree, cells),
    ensures
        makes_room(
            tree,
            cells[0].id.0 - 1,
            cells,
            crate::cells::inserted_tree(tree, cells),
        ),
{
    crate::cells::lemma_inserted_tree(tree, cells);
    let at = cells[0].id.0 - 1;
    let moved = crate::cells::moved_on(tree.skip(at));
    let after = crate::cells::inserted_tree(tree, cells);
    assert forall|i: int| 0 <= i < cells.len() implies after[at + i] == #[trigger] cells[i] by {
    }
    assert forall|i: int| at <= i < tree.len() implies {
        let now = after[i + cells.len()];
        &&& now.id.0 == i + cells.len() + 1
        &&& crate::laws::place::same_but_place(#[trigger] tree[i], now)
        &&& now.text_summary == tree[i].text_summary
    } by {
        assert(after[i + cells.len()] == moved[i - at]);
        assert(tree[i].id.0 == i + 1);
    }
}

/// The place of the new cell beside the one at `current`: its own on the left, the next one on the
/// right.
pub open spec fn new_place(current: int, bias: Bias) -> int {
    match bias {
        Bias::Left => current,
        Bias::Right => current + 1,
    }
}

/// A cell that is added beside the active one goes before it or after it. It holds a line break and
/// nothing else, in the language of the notebook if it holds code, and code unless another type was
/// asked for. It is focused where it starts. The other cells keep all they have: those that follow
/// get the next number, and the text of none changes.
pub proof fn lemma_cell_is_added_beside(
    before: NotebookEditor,
    buffers: Seq<BufferView>,
    current: int,
    bias: Bias,
    cell_type: Option<CellType>,
    after: NotebookEditor,
    buffers_after: Seq<BufferView>,
    placed: Option<(CellId, Option<Point>)>,
)
    requires
        before.has_room(buffers, 1),
        buffers.len() < usize::MAX,
        0 <= current < before.notebook.cells.tree@.len(),
        crate::editing::inserted_beside(
            before,
            buffers,
            Some(before.notebook.cells.tree@[current].source),
            bias,
            cell_type,
            after,
            buffers_after,
            placed,
        ),
        after.measurable(buffers_after),
    ensures
        ({
            let tree = before.notebook.cells.tree@;
            let now = after.notebook.cells.tree@;
            let at = new_place(current, bias);
            let new_type = match cell_type {
                Some(cell_type) => cell_type,
                None => CellType::Code,
            };
            let source = BufferId { index: buffers.len() as usize };
            &&& now.len() == tree.len() + 1
            &&& crate::laws::place::is_new(now[at], CellId((at + 1) as u64), new_type, source)
            &&& forall|i: int|
                0 <= i < at ==> crate::laws::place::same_but_extent(tree[i], #[trigger] now[i])
            &&& forall|i: int|
                #![trigger tree[i]]
                at <= i < tree.len() ==> crate::laws::place::same_but_place(tree[i], now[i + 1])
                    && now[i + 1].id.0 == i + 2
            &&& buffers_after.len() == buffers.len() + 1
            &&& crate::laws::document::keeps_buffers(buffers, buffers_after)
            &&& buffers_after[buffers.len() as int].text == seq!['\n']
            &&& buffers_after[buffers.len() as int].language == (match (
                new_type,
                before.notebook.language,
            ) {
                (CellType::Code, Some(language)) => Some(language@),
                _ => None,
            })
            &&& forall|i: int|
                at <= i < now.len() ==> crate::laws::place::has_titles(
                    buffers_after,
                    #[trigger] now[i],
                )
            &&& forall|i: int|
                0 <= i < now.len() ==> crate::laws::place::is_measured(
                    buffers_after,
                    #[trigger] now[i],
                )
            &&& placed matches Some((id, point))
            &&& id.0 == at + 1
            &&& crate::laws::place::starts_at(buffers_after, now, id, point)
            &&& after.chat == before.chat
            &&& after.notebook.file == before.notebook.file
            &&& after.notebook.language == before.notebook.language
            &&& after.notebook.metadata == before.notebook.metadata
            &&& after.notebook.nbformat == before.notebook.nbformat
            &&& after.notebook.nbformat_minor == before.notebook.nbformat_minor
            &&& after.notebook.client_handle == before.notebook.client_handle
        }),
{
    let cells = before.notebook.cells;
    let tree = cells.tree@;
    let now = after.notebook.cells.tree@;
    let at = new_place(current, bias);
    crate::laws::place::lemma_source_leads_to_its_cell(cells, buffers, current);
    assert(tree[current].id.0 == current + 1);
    let id = CellId((at + 1) as u64);
    assert(crate::editing::place_beside(tree[current].id, bias) == id);
    let cell = now[at];
    let moved = crate::cells::moved_on(tree.skip(at));
    let all = tree.take(at) + seq![cell] + moved;
    assert(now == crate::cell_update::all_measured(buffers_after, all));
    assert forall|i: int| 0 <= i < at implies crate::laws::place::same_but_extent(
        tree[i],
        #[trigger] now[i],
    ) by {
        assert(all[i] == tree[i]);
    }
    assert forall|i: int| at <= i < tree.len() implies crate::laws::place::same_but_place(
        #[trigger] tree[i],
        now[i + 1],
    ) && now[i + 1].id.0 == i + 2 by {
        assert(all[i + 1] == moved[i - at]);
        assert(tree[i].id.0 == i + 1);
    }
    reveal_strlit("\n");
    assert("\n"@ =~= seq!['\n']);
    crate::text::lemma_plain_stays("\n"@);
    let titled = seq![cell] + moved;
    let new_type = cell@.cell_type;
    let with_source = crate::editing::with_new_source(
        buffers,
        new_type,
        crate::buffer::optional_language_view(before.notebook.language),
    );
    assert forall|i: int| 0 <= i < titled.len() implies (#[trigger] titled[i]).valid(
        with_source,
    ) by {
        if i > 0 {
            assert(tree[at + i - 1].valid(buffers));
        } else {
            assert(cell@.output_content is None);
        }
    }
    crate::cells::lemma_titles_keep_texts(with_source, titled);
    assert(now.skip(at).len() == titled.len());
    assert forall|i: int| 0 <= i < titled.len() implies crate::laws::place::same_but_extent(
        titled[i],
        #[trigger] now.skip(at)[i],
    ) by {
        assert(all[at + i] == titled[i]);
    }
    lemma_titles_from(with_source, titled, now, at);
    assert forall|i: int| at <= i < now.len() implies crate::laws::place::has_titles(
        buffers_after,
        #[trigger] now[i],
    ) by {
        assert(now[i] == now.skip(at)[i - at]);
    }
    assert(crate::cell_update::all_measured(buffers_after, now) =~= now);
    assert forall|i: int| 0 <= i < now.len() implies crate::laws::place::is_measured(
        buffers_after,
        #[trigger] now[i],
    ) by {
        assert(now[i].measurable(buffers_after));
        assert(crate::cell_update::all_measured(buffers_after, now)[i] == now[i]);
        crate::laws::place::lemma_measuring_changes_extents(buffers_after, now);
    }
    crate::laws::place::lemma_focus_is_the_start_of_the_cell(buffers_after, now, id);
}

proof fn lemma_titles_from(
    buffers: Seq<BufferView>,
    titled: Seq<Cell>,
    tree: Seq<Cell>,
    at: int,
)
    requires
        0 <= at <= tree.len(),
        crate::cells::all_handles(tree).no_duplicates(),
        crate::cells::all_valid(buffers, titled),
        tree.skip(at).len() == titled.len(),
        forall|i: int|
            0 <= i < titled.len() ==> crate::laws::place::same_but_extent(
                titled[i],
                #[trigger] tree.skip(at)[i],
            ),
    ensures
        forall|i: int|
            0 <= i < titled.len() ==> crate::laws::place::has_titles(
                crate::cells::all_titled(buffers, titled),
                #[trigger] tree.skip(at)[i],
            ),
{
    let back = tree.skip(at);
    let front = crate::cells::all_handles(tree.take(at));
    let all = crate::cells::all_handles(tree);
    assert(tree.take(at) + back =~= tree);
    crate::cells::lemma_all_handles_concat(tree.take(at), back);
    let handles = crate::cells::all_handles(back);
    assert forall|i: int, j: int| 0 <= i < j < handles.len() implies handles[i] != handles[j] by {
        assert(all[front.len() + i] == handles[i] && all[front.len() + j] == handles[j]);
    }
    lemma_same_buffers(titled, back);
    crate::laws::place::lemma_titles_of_cells(buffers, titled);
    assert forall|i: int| 0 <= i < titled.len() implies crate::laws::place::has_titles(
        crate::cells::all_titled(buffers, titled),
        #[trigger] back[i],
    ) by {
        assert(crate::laws::place::has_titles(
            crate::cells::all_titled(buffers, titled),
            titled[i],
        ));
    }
}

proof fn lemma_same_buffers(cells: Seq<Cell>, others: Seq<Cell>)
    requires
        cells.len() == others.len(),
        forall|i: int|
            0 <= i < cells.len() ==> crate::laws::place::same_but_extent(
                cells[i],
                #[trigger] others[i],
            ),
    ensures
        crate::cells::all_handles(cells) == crate::cells::all_handles(others),
    decreases cells.len(),
{
    if cells.len() > 0 {
        let front = others.drop_last();
        assert forall|i: int| 0 <= i < front.len() implies crate::laws::place::same_but_extent(
            cells.drop_last()[i],
            #[trigger] front[i],
        ) by {
            assert(front[i] == others[i]);
        }
        lemma_same_buffers(cells.drop_last(), front);
        assert(crate::laws::place::same_but_extent(cells[cells.len() - 1], others[cells.len()
            - 1]));
        assert(cells.last().handles() =~= others.last().handles());
    } else {
        assert(cells =~= others);
    }
}

/// Where no cell is active, none is added, and nothing changes.
pub proof fn lemma_no_cell_is_added(
    before: NotebookEditor,
    buffers: Seq<BufferView>,
    active: Option<BufferId>,
    bias: Bias,
    cell_type: Option<CellType>,
    after: NotebookEditor,
    buffers_after: Seq<BufferView>,
    placed: Option<(CellId, Option<Point>)>,
)
    requires
        active matches Some(buffer) ==> forall|i: int|
            0 <= i < before.notebook.cells.tree@.len() ==> (
            #[trigger] before.notebook.cells.tree@[i]).source != buffer,
        crate::editing::inserted_beside(
            before,
            buffers,
            active,
            bias,
            cell_type,
            after,
            buffers_after,
            placed,
        ),
    ensures
        placed is None,
        after == before,
        buffers_after == buffers,
{
    if let Some(buffer) = active {
        crate::cells::lemma_place_of_source(before.notebook.cells.tree@, buffer);
    }
}

/// After a selected part of a cell was run, the text before it, the part itself and the text after
/// it are the sources of three cells, in this order and without a loss. The first and the last of
/// them are new and hold code in the language of the notebook; the middle one is the cell that was
/// there. The cells before them stay as they are, and those after them move two places on; the
/// texts of all other cells stay as they are.
pub proof fn lemma_selection_splits_a_cell(
    before: NotebookEditor,
    buffers: Seq<BufferView>,
    at: int,
    head: Seq<char>,
    middle: Seq<char>,
    tail: Seq<char>,
    after: NotebookEditor,
    buffers_after: Seq<BufferView>,
)
    requires
        before.notebook.wf(buffers),
        buffers.len() + 1 < usize::MAX,
        before.notebook.cells.tree@.len() + 2 < u64::MAX,
        0 <= at < before.notebook.cells.tree@.len(),
        buffers[before.notebook.cells.tree@[at].source.index as int].text == head + middle + tail,
        crate::selection::split_at(
            before,
            buffers,
            at,
            crate::text::byte_len(head) as int,
            (crate::text::byte_len(head) + crate::text::byte_len(middle)) as int,
            after,
            buffers_after,
        ),
    ensures
        ({
            let tree = before.notebook.cells.tree@;
            let now = after.notebook.cells.tree@;
            let first = BufferId { index: buffers.len() as usize };
            let last = BufferId { index: (buffers.len() + 1) as usize };
            let language = match before.notebook.language {
                Some(language) => Some(language@),
                None => None,
            };
            &&& now.len() == tree.len() + 2
            &&& forall|i: int| 0 <= i < at ==> #[trigger] now[i] == tree[i]
            &&& crate::laws::place::is_new(
                now[at],
                CellId((at + 1) as u64),
                CellType::Code,
                first,
            )
            &&& crate::laws::place::same_but_place(tree[at], now[at + 1])
            &&& now[at + 1].text_summary == tree[at].text_summary
            &&& now[at + 1].id.0 == at + 2
            &&& crate::summary::summarizable(head) ==> crate::laws::document::has_extent(
                now[at].text_summary,
                head,
                None,
            )
            &&& crate::summary::summarizable(tail) ==> crate::laws::document::has_extent(
                now[at + 2].text_summary,
                tail,
                None,
            )
            &&& crate::laws::place::is_new(
                now[at + 2],
                CellId((at + 3) as u64),
                CellType::Code,
                last,
            )
            &&& forall|i: int|
                #![trigger tree[i]]
                at < i < tree.len() ==> crate::laws::place::same_but_place(tree[i], now[i + 2])
                    && now[i + 2].text_summary == tree[i].text_summary && now[i + 2].id.0 == i + 3
            &&& buffers_after.len() == buffers.len() + 2
            &&& buffers_after[first.index as int].text == head
            &&& buffers_after[tree[at].source.index as int].text == middle
            &&& buffers_after[last.index as int].text == tail
            &&& buffers_after[first.index as int].language == language
            &&& buffers_after[last.index as int].language == language
            &&& forall|k: int|
                #![trigger buffers_after[k]]
                0 <= k < buffers.len() ==> buffers_after[k].language == buffers[k].language && (k
                    != tree[at].source.index ==> buffers_after[k].text == buffers[k].text)
            &&& after.chat == before.chat
            &&& after.notebook.file == before.notebook.file
            &&& after.notebook.language == before.notebook.language
            &&& after.notebook.metadata == before.notebook.metadata
            &&& after.notebook.nbformat == before.notebook.nbformat
            &&& after.notebook.nbformat_minor == before.notebook.nbformat_minor
            &&& after.notebook.client_handle == before.notebook.client_handle
        }),
{
    let tree = before.notebook.cells.tree@;
    let now = after.notebook.cells.tree@;
    let current = tree[at];
    let start = crate::text::byte_len(head) as int;
    let end = crate::text::byte_len(head) + crate::text::byte_len(middle);
    assert(current.valid(buffers));
    assert(current.id.0 == at + 1);
    crate::laws::text::lemma_parts_of_a_text(head, middle, tail);
    let split = crate::selection::split_buffers(
        buffers,
        current.source,
        start,
        end as int,
        crate::buffer::optional_language_view(before.notebook.language),
    );
    let first = now[at];
    let second = now[at + 2];
    let moved = crate::cells::moved_on(tree.skip(at));
    let rest = crate::cells::moved_on(crate::cells::moved_on(tree.skip(at + 1)));
    let titled = crate::cells::all_titled(split, seq![first] + moved);
    assert(split.len() == buffers.len() + 2);
    assert forall|i: int| 0 <= i < (seq![first] + moved).len() implies (
    #[trigger] (seq![first] + moved)[i]).valid(split) by {
        if i > 0 {
            assert(tree[at + i - 1].valid(buffers));
        } else {
            assert(first@.output_content is None);
        }
    }
    crate::cells::lemma_titles_keep_texts(split, seq![first] + moved);
    assert forall|i: int| 0 <= i < (seq![second] + rest).len() implies (
    #[trigger] (seq![second] + rest)[i]).valid(titled) by {
        if i > 0 {
            assert(tree[at + i].valid(buffers));
        } else {
            assert(second@.output_content is None);
        }
    }
    crate::cells::lemma_titles_keep_texts(titled, seq![second] + rest);
    assert forall|i: int| at < i < tree.len() implies crate::laws::place::same_but_place(
        #[trigger] tree[i],
        now[i + 2],
    ) && now[i + 2].text_summary == tree[i].text_summary && now[i + 2].id.0 == i + 3 by {
        assert(now[i + 2] == rest[i - at - 1]);
        assert(tree[i].id.0 == i + 1);
    }
    assert forall|k: int| 0 <= k < split.len() implies #[trigger] buffers_after[k].text
        == split[k].text && buffers_after[k].language == split[k].language by {
        assert(titled[k].text == split[k].text);
    }
    assert(now[at + 1].id.0 == at + 2);
}

/// What is selected is run only where a cell is active and exactly one range is selected: then it
/// is that range of that cell.
pub proof fn lemma_one_range_is_selected(
    cells: Cells,
    buffers: Seq<BufferView>,
    at: int,
    ranges: Seq<(usize, usize)>,
)
    requires
        cells.wf(buffers),
        0 <= at < cells.tree@.len(),
    ensures
        crate::selection::selected(cells.tree@, None, ranges) is None,
        crate::selection::selected(cells.tree@, Some(cells.tree@[at].source), ranges) == (
        if ranges.len() == 1 {
            Some((at, ranges[0].0 as int, ranges[0].1 as int))
        } else {
            None
        }),
{
    crate::laws::place::lemma_source_leads_to_its_cell(cells, buffers, at);
}

/// Where a cell is only measured, nothing changes but extents: neither the parts of the cells, nor
/// what is shown, nor the chat.
pub proof fn lemma_measuring_keeps_the_editor(
    before: NotebookEditor,
    buffers: Seq<BufferView>,
    after: NotebookEditor,
)
    requires
        crate::run::only_measured(
            before,
            crate::cell_update::all_measured(buffers, before.notebook.cells.tree@),
            after,
        ),
    ensures
        after.chat == before.chat,
        after.notebook.cells.multi == before.notebook.cells.multi,
        after.notebook.file == before.notebook.file,
        after.notebook.language == before.notebook.language,
        after.notebook.metadata == before.notebook.metadata,
        after.notebook.nbformat == before.notebook.nbformat,
        after.notebook.nbformat_minor == before.notebook.nbformat_minor,
        after.notebook.client_handle == before.notebook.client_handle,
        after.notebook.cells.tree@.len() == before.notebook.cells.tree@.len(),
        forall|i: int|
            0 <= i < before.notebook.cells.tree@.len() ==> crate::laws::place::same_but_extent(
                before.notebook.cells.tree@[i],
                #[trigger] after.notebook.cells.tree@[i],
            ),
{
}

/// A cell goes to the place of its number, or to the end where that is past it: it replaces the
/// cell there, if that has the same number, and else goes in front of it. All other cells stay as
/// they are, and several cells go one after the other.
pub proof fn lemma_cell_goes_to_its_place(tree: Seq<Cell>, cells: Seq<Cell>, cell: Cell)
    requires
        cell.id.0 >= 1,
    ensures
        ({
            let at = if cell.id.0 - 1 < tree.len() {
                cell.id.0 - 1
            } else {
                tree.len() as int
            };
            let after = crate::cells::with_cell(tree, cell);
            let replaced = at < tree.len() && tree[at].id == cell.id;
            &&& after[at] == cell
            &&& forall|i: int| 0 <= i < at ==> #[trigger] after[i] == tree[i]
            &&& replaced ==> after.len() == tree.len() && forall|i: int|
                at < i < tree.len() ==> #[trigger] after[i] == tree[i]
            &&& !replaced ==> after.len() == tree.len() + 1 && forall|i: int|
                at <= i < tree.len() ==> after[i + 1] == #[trigger] tree[i]
        }),
        crate::cells::with_cells(tree, Seq::empty()) == tree,
        crate::cells::with_cells(tree, cells.push(cell)) == crate::cells::with_cell(
            crate::cells::with_cells(tree, cells),
            cell,
        ),
{
    assert(cells.push(cell).drop_last() =~= cells);
}

} // verus!
