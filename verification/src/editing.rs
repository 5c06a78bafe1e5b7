//! How cells are added to a notebook in an editor.
use crate::buffer::{Buffer, BufferId, BufferView, Buffers, LanguageView};
use crate::cell::{Cell, CellBuilder, CellBuilderView, CellId, CellType, CellView};
use crate::cells::{Bias, Cells};
use crate::editor::NotebookEditor;
use crate::notebook::Notebook;
use crate::summary::{Point, TextSummary};
use vstd::prelude::*;
use vstd::string::*;

verus! {

/// Whether the buffers of `before` are still there in `after`, with their texts.
pub open spec fn keeps_texts(before: Seq<BufferView>, after: Seq<BufferView>) -> bool {
    &&& before.len() <= after.len()
    &&& forall|i: int| 0 <= i < before.len() ==> (#[trigger] after[i]).text == before[i].text
}

/// A new cell of the type `cell_type` at the place `id`, with the source `source`.
pub open spec fn new_cell(
    id: CellId,
    source: BufferId,
    cell_type: Option<CellType>,
    buffers: Seq<BufferView>,
) -> CellView {
    (CellBuilderView {
        source: Some(source),
        cell_type,
        ..CellBuilderView::empty(id.0)
    }).built(buffers)
}

/// The handle on the buffer that comes after all of `buffers`.
pub open spec fn next_handle(buffers: Seq<BufferView>) -> BufferId {
    BufferId { index: buffers.len() as usize }
}

proof fn lemma_same_measure(before: Seq<BufferView>, after: Seq<BufferView>, cells: Seq<Cell>)
    requires
        keeps_texts(before, after),
        crate::cells::all_valid(before, cells),
        crate::cell_update::all_measurable(before, cells),
    ensures
        crate::cell_update::all_measurable(after, cells),
        crate::cell_update::all_measured(after, cells) == crate::cell_update::all_measured(
            before,
            cells,
        ),
{
    assert forall|i: int| 0 <= i < cells.len() implies (#[trigger] cells[i]).measurable(after)
        && cells[i].measured(after) == cells[i].measured(before) by {
        assert(cells[i].valid(before));
        assert(cells[i].measurable(before));
        assert(after[cells[i].source.index as int].text
            == before[cells[i].source.index as int].text);
        if let Some(output) = cells[i].output_content {
            assert(after[output.index as int].text == before[output.index as int].text);
        }
    }
    assert(crate::cell_update::all_measured(after, cells) =~= crate::cell_update::all_measured(
        before,
        cells,
    ));
}

proof fn lemma_total_concat(first: Seq<Cell>, second: Seq<Cell>)
    ensures
        crate::cell_summary::total_len(first + second) == crate::cell_summary::total_len(first)
            + crate::cell_summary::total_len(second),
        crate::cell_summary::total_rows(first + second) == crate::cell_summary::total_rows(first)
            + crate::cell_summary::total_rows(second),
    decreases second.len(),
{
    if second.len() == 0 {
        assert(first + second =~= first);
    } else {
        lemma_total_concat(first, second.drop_last());
        assert((first + second).drop_last() =~= first + second.drop_last());
        assert((first + second).last() == second.last());
    }
}

proof fn lemma_moved_on_total(buffers: Seq<BufferView>, cells: Seq<Cell>)
    ensures
        crate::cell_summary::total_rows(
            crate::cell_update::all_measured(buffers, crate::cells::moved_on(cells)),
        ) == crate::cell_summary::total_rows(crate::cell_update::all_measured(buffers, cells)),
        crate::cell_summary::total_len(
            crate::cell_update::all_measured(buffers, crate::cells::moved_on(cells)),
        ) == crate::cell_summary::total_len(crate::cell_update::all_measured(buffers, cells)),
    decreases cells.len(),
{
    if cells.len() > 0 {
        lemma_moved_on_total(buffers, cells.drop_last());
        let moved = crate::cells::moved_on(cells);
        assert(moved.drop_last() =~= crate::cells::moved_on(cells.drop_last()));
        assert(crate::cell_update::all_measured(buffers, moved).drop_last()
            =~= crate::cell_update::all_measured(buffers, moved.drop_last()));
        assert(crate::cell_update::all_measured(buffers, cells).drop_last()
            =~= crate::cell_update::all_measured(buffers, cells.drop_last()));
        assert(moved.last().measured(buffers) == cells.last().measured(buffers));
    }
}

/// A cell that is put in adds its own rows and its own length.
proof fn lemma_total_with_cell(buffers: Seq<BufferView>, tree: Seq<Cell>, at: int, cell: Cell)
    requires
        0 <= at <= tree.len(),
        crate::cell_update::all_measurable(buffers, tree),
        cell.measurable(buffers),
    ensures
        ({
            let after = tree.take(at) + seq![cell] + crate::cells::moved_on(tree.skip(at));
            &&& crate::cell_update::all_measurable(buffers, after)
            &&& crate::cell_summary::total_rows(crate::cell_update::all_measured(buffers, after))
                == crate::cell_summary::total_rows(crate::cell_update::all_measured(buffers, tree))
                + cell.measured(buffers).lines.row + 1
            &&& crate::cell_summary::total_len(crate::cell_update::all_measured(buffers, after))
                == crate::cell_summary::total_len(crate::cell_update::all_measured(buffers, tree))
                + cell.measured(buffers).len
        }),
{
    let front = tree.take(at);
    let back = tree.skip(at);
    let moved = crate::cells::moved_on(back);
    let after = front + seq![cell] + moved;
    assert forall|i: int| 0 <= i < after.len() implies (#[trigger] after[i]).measurable(
        buffers,
    ) by {
        if i < at {
            assert(tree[i].measurable(buffers));
        } else if i > at {
            assert(tree[i - 1].measurable(buffers));
        }
    }
    let one = crate::cell_update::all_measured(buffers, seq![cell]);
    let measured_front = crate::cell_update::all_measured(buffers, front);
    let measured_back = crate::cell_update::all_measured(buffers, back);
    let measured_moved = crate::cell_update::all_measured(buffers, moved);
    assert(crate::cell_update::all_measured(buffers, after) =~= measured_front + one
        + measured_moved);
    assert(crate::cell_update::all_measured(buffers, tree) =~= measured_front + measured_back);
    lemma_total_concat(measured_front + one, measured_moved);
    lemma_total_concat(measured_front, one);
    lemma_total_concat(measured_front, measured_back);
    lemma_moved_on_total(buffers, back);
    assert(one.drop_last() =~= Seq::<Cell>::empty());
    assert(one.last() == one[0]);
    assert(crate::cell_summary::total_rows(one.drop_last()) == 0);
    assert(crate::cell_summary::total_rows(one) == cell.measured(buffers).lines.row + 1);
    assert(crate::cell_summary::total_len(one.drop_last()) == 0);
    assert(crate::cell_summary::total_len(one) == cell.measured(buffers).len);
}

/// The cells of a notebook have as many buffers as those before a place and those after it.
pub proof fn lemma_handles_of_part(tree: Seq<Cell>, at: int)
    requires
        0 <= at <= tree.len(),
    ensures
        crate::cells::all_handles(tree).len() == crate::cells::all_handles(tree.take(at)).len()
            + crate::cells::all_handles(tree.skip(at)).len(),
{
    assert(tree =~= tree.take(at) + tree.skip(at));
    crate::cells::lemma_all_handles_concat(tree.take(at), tree.skip(at));
}

impl NotebookEditor {
    /// Whether there is room for `added` new cells.
    pub open spec fn has_room(self, buffers: Seq<BufferView>, added: int) -> bool {
        let cells = self.notebook.cells;
        &&& self.measurable(buffers)
        &&& crate::cell_summary::total_rows(
            crate::cell_update::all_measured(buffers, cells.tree@),
        ) + 2 * added <= u32::MAX
        &&& crate::cell_summary::total_len(
            crate::cell_update::all_measured(buffers, cells.tree@),
        ) + added <= usize::MAX
        &&& cells.tree@.len() + added < u64::MAX
        &&& cells.multi.next_id + added * (crate::cells::all_handles(cells.tree@).len() + added)
            <= u64::MAX
    }
}

impl Cells {
    /// Puts `cell` into the notebook at its place. What follows that place moves one place on.
    pub fn insert_one(&mut self, cell: Cell, cx: &mut Buffers)
        requires
            old(self).wf(old(cx)@),
            1 <= cell.id.0 <= old(self).tree@.len() + 1,
            old(self).tree@.len() + 1 < u64::MAX,
            cell.valid(old(cx)@),
            cell.output_content is None,
            !crate::cells::all_handles(old(self).tree@).contains(cell.source),
            old(self).multi.next_id + crate::cells::all_handles(old(self).tree@).len() + 1
                <= u64::MAX,
        ensures
            final(self).wf(final(cx)@),
            ({
                let tree = old(self).tree@;
                let at = cell.id.0 - 1;
                let moved = crate::cells::moved_on(tree.skip(at));
                &&& final(self).tree@ == tree.take(at) + seq![cell] + moved
                &&& final(self).multi.excerpts@ == crate::cells::inserted_excerpts(
                    old(self).multi.excerpts@,
                    old(self).multi.next_id,
                    tree,
                    seq![cell],
                )
                &&& final(self).multi.next_id == old(self).multi.next_id + 1
                    + crate::cells::all_handles(tree.skip(at)).len()
                &&& final(cx)@ == crate::cells::all_titled(old(cx)@, seq![cell] + moved)
            }),
            final(cx)@.len() == old(cx)@.len(),
            keeps_texts(old(cx)@, final(cx)@),
    {
        let ghost tree = self.tree@;
        let ghost start = cx@;
        let ghost at = cell.id.0 - 1;
        let ghost moved = crate::cells::moved_on(tree.skip(at));
        let ghost one = seq![cell];
        let mut cells: Vec<Cell> = Vec::new();
        cells.push(cell);
        proof {
            assert(cells@ =~= one);
            crate::cells::lemma_inserted_tree(tree, one);
            lemma_handles_of_part(tree, at);
            lemma_one_handles(cell);
            crate::cells::lemma_moved_on_handles(tree.skip(at));
            crate::cells::lemma_all_handles_concat(one, moved);
            assert forall|i: int| at <= i < tree.len() implies (#[trigger] tree[i]).id.0
                < u64::MAX by {
                assert(tree[i].id.0 == i + 1);
            }
            assert(crate::cells::all_valid(start, one));
            assert(crate::cells::fresh_handles(tree, one)) by {
                let all = crate::cells::all_handles(tree) + crate::cells::all_handles(one);
                assert forall|i: int, j: int| 0 <= i < j < all.len() implies all[i] != all[j] by {
                    if j == all.len() - 1 {
                        assert(all[j] == cell.source);
                        assert(crate::cells::all_handles(tree)[i] == all[i]);
                    }
                }
            }
        }
        self.insert(cells, cx);
        proof {
            assert forall|i: int| 0 <= i < (one + moved).len() implies (
            #[trigger] (one + moved)[i]).valid(start) by {
                if i > 0 {
                    assert(tree[at + i - 1].valid(start));
                }
            }
            crate::cells::lemma_titles_keep_texts(start, one + moved);
        }
    }
}

/// A single cell has its own buffers.
pub proof fn lemma_one_handles(cell: Cell)
    ensures
        crate::cells::all_handles(seq![cell]) == cell.handles(),
{
    assert(seq![cell].drop_last() =~= Seq::<Cell>::empty());
    assert(crate::cells::all_handles(seq![cell].drop_last()) =~= Seq::<BufferId>::empty());
    assert(crate::cells::all_handles(seq![cell]) =~= cell.handles());
}

/// `buffers` with the source of a new cell: a line break, in the language of the notebook if that
/// has one and the cell holds code.
pub open spec fn with_new_source(
    buffers: Seq<BufferView>,
    cell_type: CellType,
    language: Option<LanguageView>,
) -> Seq<BufferView> {
    let with_source = buffers.push(BufferView::local("\n"@));
    if cell_type is Code && language is Some {
        crate::buffer::with_language(with_source, next_handle(buffers), language)
    } else {
        with_source
    }
}

/// Whether `after` and `buffers_after` are what `before` and `buffers` become when a new cell is put
/// before or after the cell whose source is the buffer of the active excerpt, and `placed` is the
/// place of the new cell and where it starts. Nothing changes if there is no such excerpt or cell.
pub open spec fn inserted_beside(
    before: NotebookEditor,
    buffers: Seq<BufferView>,
    active: Option<BufferId>,
    bias: Bias,
    cell_type: Option<CellType>,
    after: NotebookEditor,
    buffers_after: Seq<BufferView>,
    placed: Option<(CellId, Option<Point>)>,
) -> bool {
    let tree = before.notebook.cells.tree@;
    match active_place(tree, active) {
        Some(current) => {
            let id = place_beside(tree[current].id, bias);
            let cell_type = match cell_type {
                Some(cell_type) => cell_type,
                None => CellType::Code,
            };
            let source = next_handle(buffers);
            let with_source = with_new_source(
                buffers,
                cell_type,
                crate::buffer::optional_language_view(before.notebook.language),
            );
            let cell = after.notebook.cells.tree@[id.0 - 1];
            let moved = crate::cells::moved_on(tree.skip(id.0 - 1));
            &&& cell@ == new_cell(id, source, Some(cell_type), with_source)
            &&& after.notebook.cells.tree@ == crate::cell_update::all_measured(
                buffers_after,
                tree.take(id.0 - 1) + seq![cell] + moved,
            )
            &&& buffers_after == crate::cells::all_titled(with_source, seq![cell] + moved)
            &&& after.notebook.cells.multi.excerpts@ == crate::cells::inserted_excerpts(
                before.notebook.cells.multi.excerpts@,
                before.notebook.cells.multi.next_id,
                tree,
                seq![cell],
            )
            &&& after.notebook.cells.multi.next_id == before.notebook.cells.multi.next_id + 1
                + crate::cells::all_handles(tree.skip(id.0 - 1)).len()
            &&& after.notebook == (Notebook { cells: after.notebook.cells, ..before.notebook })
            &&& after.chat == before.chat
            &&& placed == Some((id, crate::editor::focus_point(after.notebook.cells.tree@, id)))
        },
        None => {
            &&& placed is None
            &&& after == before
            &&& buffers_after == buffers
        },
    }
}

/// The place at which a cell next to `current` is put in.
pub open spec fn place_beside(current: CellId, bias: Bias) -> CellId {
    match bias {
        Bias::Left => current,
        Bias::Right => CellId((current.0 + 1) as u64),
    }
}

impl NotebookEditor {
    /// Puts a new cell before or after the cell whose source is the buffer of the active excerpt,
    /// and focuses it. Returns its place and where it starts; does nothing if there is no such
    /// excerpt or no such cell.
    pub fn insert_cell(
        &mut self,
        active: Option<BufferId>,
        bias: Bias,
        cell_type: Option<CellType>,
        cx: &mut Buffers,
    ) -> (placed: Option<(CellId, Option<Point>)>)
        requires
            old(self).has_room(old(cx)@, 1),
        ensures
            final(self).measurable(final(cx)@),
            inserted_beside(
                *old(self),
                old(cx)@,
                active,
                bias,
                cell_type,
                *final(self),
                final(cx)@,
                placed,
            ),
    {
        let ghost start = cx@;
        let ghost tree = self.notebook.cells.tree@;
        let Some(buffer) = active else {
            return None;
        };
        let Some(index) = self.notebook.cells.index_by_buffer(buffer) else {
            return None;
        };
        proof {
            crate::cells::lemma_place_of_source(tree, buffer);
            assert(tree[index as int].id.0 == index + 1);
        }
        let mut current = self.notebook.cells.tree[index].id;
        let new_cell_id = match bias {
            Bias::Left => current,
            Bias::Right => current.pre_inc(),
        };
        let source = cx.new_model(Buffer::local("\n".to_owned()));
        let ghost with_source = cx@;
        proof {
            lemma_line_break_measure(source, with_source);
        }
        let new_type = match cell_type {
            Some(cell_type) => cell_type,
            None => CellType::default(),
        };
        let builder = CellBuilder::new(new_cell_id.0).source(source).cell_type(new_type);
        assert(builder@.source == Some(source) && builder@.output_content is None);
        let cell = builder.build(cx);
        let ghost built = cell;
        assert(built@ == new_cell(new_cell_id, source, Some(new_type), with_source));
        if cell.cell_type == CellType::Code {
            let mut only: Vec<&Cell> = Vec::new();
            only.push(&cell);
            proof {
                assert(crate::notebook::referents(only@) =~= seq![built]);
                assert(built.valid(cx@)) by {
                    assert(built@.source == source && built@.output_content is None);
                }
            }
            let _ = self.notebook.try_set_source_languages(cx, Some(only));
            proof {
                if self.notebook.language is Some {
                    assert(seq![built].drop_last() =~= Seq::<Cell>::empty());
                    assert(crate::notebook::sources_in_language(
                        with_source,
                        seq![built].drop_last(),
                        self.notebook.language->0@,
                    ) == with_source);
                    assert(seq![built].last() == built);
                    assert(built@.source == source);
                }
            }
        }
        let ghost buffers = cx@;
        proof {
            assert(built@.source == source && built@.output_content is None);
            assert(buffers == with_new_source(
                start,
                new_type,
                crate::buffer::optional_language_view(self.notebook.language),
            ));
            assert(keeps_texts(start, buffers));
            crate::cell_update::lemma_new_buffer_unused(self.notebook.cells, start, source);
            crate::cell_update::lemma_wf_with_more_buffers(self.notebook.cells, start, buffers);
        }
        self.notebook.cells.insert_one(cell, cx);
        proof {
            let after = self.notebook.cells.tree@;
            assert(keeps_texts(start, cx@)) by {
                assert forall|i: int| 0 <= i < start.len() implies (#[trigger] cx@[i]).text
                    == start[i].text by {
                    assert(buffers[i].text == start[i].text);
                }
            }
            lemma_same_measure(start, cx@, tree);
            assert(cx@[source.index as int].text == buffers[source.index as int].text);
            assert(cx@[source.index as int].text == with_source[source.index as int].text);
            lemma_line_break_measure(source, cx@);
            assert(built.measurable(cx@) && built.measured(cx@) == built.text_summary) by {
                assert(built@.text_summary == built.text_summary);
            }
            lemma_total_with_cell(cx@, tree, new_cell_id.0 - 1, built);
            assert(crate::cell_update::all_measured(cx@, after)[new_cell_id.0 - 1] == built);
        }
        let point = self.focus_cell(&new_cell_id, cx);
        Some((new_cell_id, point))
    }

    /// Puts a new cell that holds code before the active one.
    pub fn insert_cell_above(&mut self, active: Option<BufferId>, cx: &mut Buffers) -> (placed:
        Option<(CellId, Option<Point>)>)
        requires
            old(self).has_room(old(cx)@, 1),
        ensures
            final(self).measurable(final(cx)@),
            inserted_beside(
                *old(self),
                old(cx)@,
                active,
                Bias::Left,
                None,
                *final(self),
                final(cx)@,
                placed,
            ),
    {
        self.insert_cell(active, Bias::Left, None, cx)
    }

    /// Puts a new cell that holds code after the active one.
    pub fn insert_cell_below(&mut self, active: Option<BufferId>, cx: &mut Buffers) -> (placed:
        Option<(CellId, Option<Point>)>)
        requires
            old(self).has_room(old(cx)@, 1),
        ensures
            final(self).measurable(final(cx)@),
            inserted_beside(
                *old(self),
                old(cx)@,
                active,
                Bias::Right,
                None,
                *final(self),
                final(cx)@,
                placed,
            ),
    {
        self.insert_cell(active, Bias::Right, None, cx)
    }

    /// Puts a new cell for a turn of the chat after the active one.
    pub fn new_chat_cell(&mut self, active: Option<BufferId>, cx: &mut Buffers) -> (placed: Option<
        (CellId, Option<Point>),
    >)
        requires
            old(self).has_room(old(cx)@, 1),
        ensures
            final(self).measurable(final(cx)@),
            inserted_beside(
                *old(self),
                old(cx)@,
                active,
                Bias::Right,
                Some(CellType::Chat),
                *final(self),
                final(cx)@,
                placed,
            ),
    {
        self.insert_cell(active, Bias::Right, Some(CellType::Chat), cx)
    }
}

/// The place of the cell whose source is the buffer of the active excerpt, if there is one.
pub open spec fn active_place(tree: Seq<Cell>, active: Option<BufferId>) -> Option<int> {
    match active {
        Some(buffer) => crate::cells::place_of_source(tree, buffer),
        None => None,
    }
}

proof fn lemma_line_break_measure(source: BufferId, buffers: Seq<BufferView>)
    requires
        buffers[source.index as int].text == crate::text::normalized("\n"@),
    ensures
        crate::cell::measurable(source, None, buffers),
        crate::cell::measured(source, None, buffers) == (TextSummary {
            len: 1,
            lines: Point { row: 1, column: 0 },
        }),
{
    reveal_strlit("\n");
    crate::text::lemma_plain_stays("\n"@);
    crate::summary::lemma_line_break();
}

} // verus!
