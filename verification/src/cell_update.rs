//! Changes to single cells of a notebook.
use crate::buffer::{Buffer, BufferId, BufferView, Buffers};
use crate::cell::{Cell, CellBuilder, CellId};
use crate::cells::{count_before, insert_as_excerpts_into_multibuffer, Bias, Cells};
use crate::common::NotebookError;
use crate::jupyter::message::Message;
use crate::multi_buffer::{Excerpt, ExcerptId};
use vstd::prelude::*;
use vstd::string::*;

verus! {

/// The number of excerpts in front of those of the output of the cell at `at`: those of the cells
/// before it, and that of its source.
pub open spec fn output_place(tree: Seq<Cell>, at: int) -> int {
    crate::cells::all_handles(tree.take(at)).len() as int + 1
}

/// `excerpts` with `block` instead of what shows the output of the cell at `at`.
pub open spec fn with_output_excerpts(
    excerpts: Seq<Excerpt>,
    tree: Seq<Cell>,
    at: int,
    block: Seq<Excerpt>,
) -> Seq<Excerpt> {
    let place = output_place(tree, at);
    excerpts.take(place) + block + excerpts.skip(place - 1 + tree[at].handles().len())
}

/// The buffers of an optional output.
pub open spec fn output_handles(output: Option<BufferId>) -> Seq<BufferId> {
    match output {
        Some(output) => seq![output],
        None => Seq::empty(),
    }
}

/// Whether `output` is among `buffers` and no cell of `tree` uses it yet.
pub open spec fn unused(
    tree: Seq<Cell>,
    output: Option<BufferId>,
    buffers: Seq<BufferView>,
) -> bool {
    output matches Some(output) ==> output.valid(buffers) && !crate::cells::all_handles(
        tree,
    ).contains(output)
}

proof fn lemma_handles_around(tree: Seq<Cell>, at: int)
    requires
        0 <= at < tree.len(),
    ensures
        crate::cells::all_handles(tree) == crate::cells::all_handles(tree.take(at))
            + tree[at].handles() + crate::cells::all_handles(tree.skip(at + 1)),
{
    let one = seq![tree[at]];
    assert(tree =~= tree.take(at) + one + tree.skip(at + 1));
    crate::cells::lemma_all_handles_concat(tree.take(at) + one, tree.skip(at + 1));
    crate::cells::lemma_all_handles_concat(tree.take(at), one);
    assert(one.drop_last() =~= Seq::<Cell>::empty());
    assert(crate::cells::all_handles(one.drop_last()) =~= Seq::<BufferId>::empty());
    assert(crate::cells::all_handles(one) =~= tree[at].handles());
}

/// What the excerpts of a cell and those around it show after its output has changed.
proof fn lemma_output_changed(
    excerpts: Seq<Excerpt>,
    tree: Seq<Cell>,
    at: int,
    output: Option<BufferId>,
    buffers: Seq<BufferView>,
    first: int,
)
    requires
        crate::cells::shows(excerpts, tree),
        0 <= at < tree.len(),
        unused(tree, output, buffers),
    ensures
        crate::cells::shows(
            with_output_excerpts(
                excerpts,
                tree,
                at,
                crate::cells::new_excerpts(output_handles(output), first),
            ),
            tree.update(at, Cell { output_content: output, ..tree[at] }),
        ),
{
    let changed = Cell { output_content: output, ..tree[at] };
    let after = tree.update(at, changed);
    lemma_handles_around(tree, at);
    lemma_handles_around(after, at);
    assert(after.take(at) =~= tree.take(at));
    assert(after.skip(at + 1) =~= tree.skip(at + 1));
    let front = crate::cells::all_handles(tree.take(at));
    let back = crate::cells::all_handles(tree.skip(at + 1));
    let block = crate::cells::new_excerpts(output_handles(output), first);
    let shown = excerpts.map_values(|excerpt: Excerpt| excerpt.buffer);
    let handles = crate::cells::all_handles(tree);
    assert(shown.len() == excerpts.len());
    let now = with_output_excerpts(excerpts, tree, at, block);
    let all = front + changed.handles() + back;
    let old_len = tree[at].handles().len();
    let new_len = changed.handles().len();
    assert(handles[front.len() as int] == tree[at].source);
    assert forall|i: int| 0 <= i < now.len() implies now[i].buffer == #[trigger] all[i] by {
        if i <= front.len() {
            assert(shown[i] == handles[i]);
        } else if i >= front.len() + new_len {
            assert(shown[i - new_len + old_len] == handles[i - new_len + old_len]);
        }
    }
    assert(now.map_values(|excerpt: Excerpt| excerpt.buffer) =~= all);
    assert forall|i: int| 0 <= i < now.len() implies (#[trigger] now[i]).whole() by {
        if i <= front.len() {
            assert(excerpts[i].whole());
        } else if i >= front.len() + new_len {
            assert(excerpts[i - new_len + old_len].whole());
        }
    }
    assert forall|i: int, j: int| 0 <= i < j < all.len() implies all[i] != all[j] by {
        let place = front.len() as int + 1;
        let is_new_i = output is Some && i == place;
        let is_new_j = output is Some && j == place;
        let gi = if i >= front.len() + new_len {
            i - new_len + old_len
        } else {
            i
        };
        let gj = if j >= front.len() + new_len {
            j - new_len + old_len
        } else {
            j
        };
        if !is_new_i {
            assert(all[i] == handles[gi]);
        }
        if !is_new_j {
            assert(all[j] == handles[gj]);
        }
    }
}

proof fn lemma_one_removed(excerpts: Seq<Excerpt>, place: int, ids: Seq<ExcerptId>)
    requires
        crate::multi_buffer::distinct_ids(excerpts),
        0 <= place < excerpts.len(),
        ids == seq![excerpts[place].id],
    ensures
        crate::multi_buffer::without_excerpts(excerpts, ids) == excerpts.take(place)
            + excerpts.skip(place + 1),
{
    let stays = |excerpt: Excerpt| !ids.contains(excerpt.id);
    let front = excerpts.take(place);
    let middle = seq![excerpts[place]];
    let back = excerpts.skip(place + 1);
    assert(excerpts =~= front + middle + back);
    assert forall|i: int| 0 <= i < front.len() implies stays(#[trigger] front[i]) by {
        assert(excerpts[i].id != excerpts[place].id);
    }
    assert forall|i: int| 0 <= i < back.len() implies stays(#[trigger] back[i]) by {
        assert(excerpts[place].id != excerpts[place + 1 + i].id);
    }
    assert(ids[0] == middle[0].id);
    crate::cells::lemma_filter_all(front, stays);
    crate::cells::lemma_filter_none(middle, stays);
    crate::cells::lemma_filter_all(back, stays);
    Seq::filter_distributes_over_add(front, middle, stays);
    Seq::filter_distributes_over_add(front + middle, back, stays);
    assert(excerpts.filter(stays) =~= front + back);
}

proof fn lemma_output_removed(excerpts: Seq<Excerpt>, tree: Seq<Cell>, at: int)
    requires
        crate::multi_buffer::distinct_ids(excerpts),
        crate::cells::shows(excerpts, tree),
        0 <= at < tree.len(),
        tree[at].output_content is Some,
    ensures
        crate::multi_buffer::without_excerpts(
            excerpts,
            crate::multi_buffer::excerpt_ids(
                crate::multi_buffer::excerpts_of(excerpts, tree[at].output_content->0),
            ),
        ) == with_output_excerpts(excerpts, tree, at, Seq::empty()),
{
    let output = tree[at].output_content->0;
    let place = output_place(tree, at);
    lemma_handles_around(tree, at);
    let shown = excerpts.map_values(|excerpt: Excerpt| excerpt.buffer);
    assert(shown.len() == excerpts.len());
    assert(shown[place] == crate::cells::all_handles(tree)[place]);
    assert(excerpts[place].buffer == output);
    crate::cells::lemma_single_excerpt(excerpts, place);
    let ids = crate::multi_buffer::excerpt_ids(
        crate::multi_buffer::excerpts_of(excerpts, output),
    );
    assert(ids =~= seq![excerpts[place].id]);
    lemma_one_removed(excerpts, place, ids);
    assert(with_output_excerpts(excerpts, tree, at, Seq::empty()) =~= excerpts.take(place)
        + excerpts.skip(place + 1));
}

impl Cells {
    /// Gives the cell at `at` the output `output`, and shows that instead of the one it had.
    pub fn set_output(&mut self, at: usize, output: Option<BufferId>, cx: &Buffers)
        requires
            old(self).wf(cx@),
            at < old(self).tree@.len(),
            old(self).multi.next_id < u64::MAX,
            output == old(self).tree@[at as int].output_content || unused(
                old(self).tree@,
                output,
                cx@,
            ),
        ensures
            final(self).wf(cx@),
            final(self).tree@ == old(self).tree@.update(
                at as int,
                Cell { output_content: output, ..old(self).tree@[at as int] },
            ),
            output == old(self).tree@[at as int].output_content ==> final(self).multi
                == old(self).multi,
            output != old(self).tree@[at as int].output_content ==> {
                &&& final(self).multi.excerpts@ == with_output_excerpts(
                    old(self).multi.excerpts@,
                    old(self).tree@,
                    at as int,
                    crate::cells::new_excerpts(
                        output_handles(output),
                        old(self).multi.next_id as int,
                    ),
                )
                &&& final(self).multi.next_id == old(self).multi.next_id + output_handles(
                    output,
                ).len()
            },
    {
        let ghost tree = self.tree@;
        let ghost excerpts = self.multi.excerpts@;
        let ghost first = self.multi.next_id as int;
        let ghost place = output_place(tree, at as int);
        let source = self.tree[at].source;
        let old_output = self.tree[at].output_content;
        let same = match (output, old_output) {
            (Some(new), Some(old)) => new == old,
            (None, None) => true,
            _ => false,
        };
        if same {
            assert(tree.update(at as int, tree[at as int]) =~= tree);
            assert(self.tree@ =~= tree.update(
                at as int,
                Cell { output_content: output, ..tree[at as int] },
            ));
            return;
        }
        let ids = self.multi.excerpts_for_buffer(source);
        proof {
            lemma_handles_around(tree, at as int);
            let shown = excerpts.map_values(|excerpt: Excerpt| excerpt.buffer);
            assert(shown.len() == excerpts.len());
            assert(shown[place - 1] == crate::cells::all_handles(tree)[place - 1]);
            crate::cells::lemma_single_excerpt(excerpts, place - 1);
            assert(ids@ =~= seq![excerpts[place - 1].id]);
            lemma_output_changed(excerpts, tree, at as int, output, cx@, first);
        }
        let source_excerpt = ids[0];
        if let Some(old_output) = old_output {
            let old_ids = self.multi.excerpts_for_buffer(old_output);
            proof {
                lemma_output_removed(excerpts, tree, at as int);
            }
            self.multi.remove_excerpts(&old_ids);
        }
        assert(self.multi.excerpts@ =~= excerpts.take(place) + excerpts.skip(
            place - 1 + tree[at as int].handles().len(),
        ));
        if let Some(new_output) = output {
            let mut handles: Vec<BufferId> = Vec::new();
            handles.push(new_output);
            proof {
                assert(self.multi.excerpts@[place - 1] == excerpts[place - 1]);
                crate::cells::lemma_excerpt_index(self.multi.excerpts@, place - 1);
                assert(handles@ =~= output_handles(output));
            }
            let _ = insert_as_excerpts_into_multibuffer(
                &handles,
                source_excerpt.to_proto(),
                &mut self.multi,
                cx,
            );
        }
        assert(self.multi.excerpts@ =~= with_output_excerpts(
            excerpts,
            tree,
            at as int,
            crate::cells::new_excerpts(output_handles(output), first),
        ));
        self.tree[at].output_content = output;
        proof {
            let changed = Cell { output_content: output, ..tree[at as int] };
            assert(self.tree@ =~= tree.update(at as int, changed));
            assert forall|i: int| 0 <= i < self.tree@.len() implies (
            #[trigger] self.tree@[i]).valid(cx@) && self.tree@[i].id.0 == i + 1 by {
                assert(tree[i].valid(cx@));
                assert(tree[i].id.0 == i + 1);
            }
        }
    }

    /// Puts `cell` in place of the cell with the same number, and shows its output instead of the
    /// one that cell had.
    pub fn replace(&mut self, cell: Cell, cx: &Buffers)
        requires
            old(self).wf(cx@),
            1 <= cell.id.0 <= old(self).tree@.len(),
            cell.source == old(self).tree@[cell.id.0 - 1].source,
            cell.output_content == old(self).tree@[cell.id.0 - 1].output_content || unused(
                old(self).tree@,
                cell.output_content,
                cx@,
            ),
            old(self).multi.next_id < u64::MAX,
        ensures
            final(self).wf(cx@),
            final(self).tree@ == old(self).tree@.update(cell.id.0 - 1, cell),
            cell.output_content == old(self).tree@[cell.id.0 - 1].output_content
                ==> final(self).multi == old(self).multi,
            cell.output_content != old(self).tree@[cell.id.0 - 1].output_content ==> {
                &&& final(self).multi.excerpts@ == with_output_excerpts(
                    old(self).multi.excerpts@,
                    old(self).tree@,
                    cell.id.0 - 1,
                    crate::cells::new_excerpts(
                        output_handles(cell.output_content),
                        old(self).multi.next_id as int,
                    ),
                )
                &&& final(self).multi.next_id == old(self).multi.next_id + output_handles(
                    cell.output_content,
                ).len()
            },
    {
        let at = count_before(self.tree.len(), cell.id, Bias::Left);
        let ghost tree = self.tree@;
        assert(tree[at as int].id.0 == at + 1);
        self.set_output(at, cell.output_content, cx);
        let ghost shown = self.tree@;
        self.tree.set(at, cell);
        proof {
            assert(self.tree@ =~= tree.update(at as int, cell));
            lemma_same_places(shown, self.tree@, at as int);
            assert forall|i: int| 0 <= i < self.tree@.len() implies (
            #[trigger] self.tree@[i]).valid(cx@) && self.tree@[i].id.0 == i + 1 by {
                assert(shown[i].valid(cx@));
                assert(shown[i].id.0 == i + 1);
            }
        }
    }

    /// Measures the text of each cell anew.
    pub fn sync(&mut self, cx: &Buffers)
        requires
            crate::cells::all_valid(cx@, old(self).tree@),
            all_measurable(cx@, old(self).tree@),
        ensures
            final(self).tree@ == all_measured(cx@, old(self).tree@),
            final(self).multi == old(self).multi,
            old(self).wf(cx@) ==> final(self).wf(cx@),
    {
        let ghost tree = self.tree@;
        let mut i: usize = 0;
        while i < self.tree.len()
            invariant
                i <= self.tree.len(),
                crate::cells::all_valid(cx@, tree),
                all_measurable(cx@, tree),
                self.tree@.len() == tree.len(),
                forall|j: int|
                    0 <= j < i ==> #[trigger] self.tree@[j] == all_measured(cx@, tree)[j],
                forall|j: int| i <= j < tree.len() ==> #[trigger] self.tree@[j] == tree[j],
                self.multi == old(self).multi,
            decreases self.tree.len() - i,
        {
            assert(tree[i as int].valid(cx@) && tree[i as int].measurable(cx@));
            self.tree[i].update_text_summary(cx);
            i += 1;
        }
        proof {
            assert(self.tree@ =~= all_measured(cx@, tree));
            lemma_measured_handles(cx@, tree);
            if old(self).wf(cx@) {
                assert forall|i: int| 0 <= i < self.tree@.len() implies (
                #[trigger] self.tree@[i]).valid(cx@) && self.tree@[i].id.0 == i + 1 by {
                    assert(tree[i].valid(cx@));
                    assert(tree[i].id.0 == i + 1);
                }
            }
        }
    }
}

/// Whether the extent of the text of each of `cells` can be written as a
/// [`crate::summary::TextSummary`].
pub open spec fn all_measurable(buffers: Seq<BufferView>, cells: Seq<Cell>) -> bool {
    forall|i: int| 0 <= i < cells.len() ==> (#[trigger] cells[i]).measurable(buffers)
}

/// `cells`, each with the extent of its text as it is in `buffers`.
pub open spec fn all_measured(buffers: Seq<BufferView>, cells: Seq<Cell>) -> Seq<Cell> {
    cells.map_values(|cell: Cell| Cell { text_summary: cell.measured(buffers), ..cell })
}

proof fn lemma_measured_handles(buffers: Seq<BufferView>, cells: Seq<Cell>)
    ensures
        crate::cells::all_handles(all_measured(buffers, cells)) == crate::cells::all_handles(cells),
    decreases cells.len(),
{
    if cells.len() > 0 {
        lemma_measured_handles(buffers, cells.drop_last());
        assert(all_measured(buffers, cells).drop_last() =~= all_measured(
            buffers,
            cells.drop_last(),
        ));
        assert(all_measured(buffers, cells).last().handles() =~= cells.last().handles());
    }
}

/// A cell that keeps its buffers leaves those of the notebook in order.
pub proof fn lemma_same_places(before: Seq<Cell>, after: Seq<Cell>, at: int)
    requires
        0 <= at < before.len(),
        after == before.update(at, after[at]),
        after[at].handles() == before[at].handles(),
    ensures
        crate::cells::all_handles(after) == crate::cells::all_handles(before),
{
    lemma_handles_around(before, at);
    lemma_handles_around(after, at);
    assert(after.take(at) =~= before.take(at));
    assert(after.skip(at + 1) =~= before.skip(at + 1));
}

proof fn lemma_handles_valid(buffers: Seq<BufferView>, cells: Seq<Cell>)
    requires
        crate::cells::all_valid(buffers, cells),
    ensures
        forall|i: int|
            0 <= i < crate::cells::all_handles(cells).len() ==> (
            #[trigger] crate::cells::all_handles(cells)[i]).valid(buffers),
    decreases cells.len(),
{
    if cells.len() > 0 {
        assert(cells.last().valid(buffers));
        assert(crate::cells::all_valid(buffers, cells.drop_last())) by {
            assert forall|i: int| 0 <= i < cells.drop_last().len() implies (
            #[trigger] cells.drop_last()[i]).valid(buffers) by {
                assert(cells[i].valid(buffers));
            }
        }
        lemma_handles_valid(buffers, cells.drop_last());
        let before = crate::cells::all_handles(cells.drop_last());
        let all = crate::cells::all_handles(cells);
        assert forall|i: int| 0 <= i < all.len() implies (#[trigger] all[i]).valid(buffers) by {
            if i < before.len() {
                assert(all[i] == before[i]);
            } else {
                assert(all[i] == cells.last().handles()[i - before.len()]);
            }
        }
    }
}

/// A notebook keeps its form when buffers change or are added.
pub proof fn lemma_wf_with_more_buffers(
    cells: Cells,
    buffers: Seq<BufferView>,
    more: Seq<BufferView>,
)
    requires
        cells.wf(buffers),
        buffers.len() <= more.len(),
    ensures
        cells.wf(more),
{
    assert forall|i: int| 0 <= i < cells.tree@.len() implies (#[trigger] cells.tree@[i]).valid(
        more,
    ) by {
        assert(cells.tree@[i].valid(buffers));
    }
}

/// No cell of a notebook uses a buffer that is added.
pub proof fn lemma_new_buffer_unused(cells: Cells, buffers: Seq<BufferView>, handle: BufferId)
    requires
        cells.wf(buffers),
        handle.index >= buffers.len(),
    ensures
        !crate::cells::all_handles(cells.tree@).contains(handle),
{
    lemma_handles_valid(buffers, cells.tree@);
}

/// `buffers` with one for the output of `cell`: its own, or a new one without text.
pub open spec fn with_output_buffer(buffers: Seq<BufferView>, cell: Cell) -> Seq<BufferView> {
    if cell.output_content is Some {
        buffers
    } else {
        buffers.push(BufferView::local(""@))
    }
}

/// `cell` with an output: its own, or the buffer that comes after all of `buffers`.
pub open spec fn with_output(buffers: Seq<BufferView>, cell: Cell) -> Cell {
    if cell.output_content is Some {
        cell
    } else {
        Cell { output_content: Some(BufferId { index: buffers.len() as usize }), ..cell }
    }
}

/// Whether what `msg` has to say can be printed in the output of the cell at the place `id`: the
/// notebook is in order, there is room for an excerpt, and the extent of the text of that cell can
/// be written as a [`crate::summary::TextSummary`].
pub open spec fn printable(
    cells: Cells,
    buffers: Seq<BufferView>,
    id: CellId,
    msg: Message,
) -> bool {
    let at = crate::cells::cells_before(cells.tree@.len(), id, Bias::Left);
    let cell = cells.tree@[at];
    let text = crate::jupyter::message::output_text(
        msg.msg_type,
        crate::json::entries_view(msg.content@),
    );
    &&& cells.wf(buffers)
    &&& cells.multi.next_id < u64::MAX
    &&& at < cells.tree@.len() && text is Some ==> with_output(buffers, cell).measurable(
        with_output_buffer(buffers, cell),
    )
}

/// Whether `after`, `buffers_after` and `result` are what comes of `before` and `buffers` when what
/// `msg` has to say is printed in the output of the cell at the place `id`.
pub open spec fn printed(
    before: Cells,
    buffers: Seq<BufferView>,
    id: CellId,
    msg: Message,
    after: Cells,
    buffers_after: Seq<BufferView>,
    result: Result<(), NotebookError>,
) -> bool {
    let at = crate::cells::cells_before(before.tree@.len(), id, Bias::Left);
    let cell = before.tree@[at];
    let text = crate::jupyter::message::output_text(
        msg.msg_type,
        crate::json::entries_view(msg.content@),
    );
    if at == before.tree@.len() {
        &&& result matches Err(error) && error@ == no_such_cell(id)
        &&& after == before
        &&& buffers_after == buffers
    } else if text is None {
        &&& result is Ok
        &&& after == before
        &&& buffers_after == buffers
    } else {
        let with_buffer = with_output_buffer(buffers, cell);
        let updated = with_output(buffers, cell);
        let output = updated.output_content->0;
        &&& result is Ok
        &&& buffers_after == crate::buffer::with_text(
            updated.titled(with_buffer),
            output,
            crate::text::normalized(text->0),
        )
        &&& after.tree@ == before.tree@.update(
            at,
            Cell { text_summary: updated.measured(with_buffer), ..updated },
        )
        &&& cell.output_content is Some ==> after.multi == before.multi
        &&& cell.output_content is None ==> after.multi.excerpts@ == with_output_excerpts(
            before.multi.excerpts@,
            before.tree@,
            at,
            crate::cells::new_excerpts(seq![output], before.multi.next_id as int),
        ) && after.multi.next_id == before.multi.next_id + 1
    }
}

/// What is said of a cell that is not there.
pub open spec fn no_such_cell(id: CellId) -> Seq<char> {
    "No cell with cell ID CellId(\n    "@ + crate::text::decimal(id.0 as nat) + ",\n)"@
}

impl Cells {
    /// Prints what `msg` has to say in the output of the cell at the place `cell_id`. That cell
    /// is measured before the new text is in place.
    pub fn update_cell_from_msg(&mut self, cell_id: &CellId, msg: Message, cx: &mut Buffers) -> (
        result: Result<(), NotebookError>)
        requires
            printable(*old(self), old(cx)@, *cell_id, msg),
        ensures
            final(self).wf(final(cx)@),
            printed(
                *old(self),
                old(cx)@,
                *cell_id,
                msg,
                *final(self),
                final(cx)@,
                result,
            ),
    {
        let at = count_before(self.tree.len(), *cell_id, Bias::Left);
        if at >= self.tree.len() {
            let mut message = "No cell with cell ID CellId(\n    ".to_owned();
            message.append(crate::text::decimal_string(cell_id.0).as_str());
            message.append(",\n)");
            return Err(NotebookError { message });
        }
        let text = match msg.output_text() {
            Some(text) => text,
            None => {
                return Ok(());
            },
        };
        let ghost tree = self.tree@;
        let ghost start = cx@;
        let ghost cell = tree[at as int];
        assert(cell.valid(start));
        let output = match self.tree[at].output_content {
            Some(output) => output,
            None => {
                proof {
                    reveal_strlit("");
                    assert(""@ =~= Seq::<char>::empty());
                }
                let output = cx.new_model(Buffer::local(String::new()));
                assert(cx@ =~= with_output_buffer(start, cell));
                proof {
                    lemma_wf_with_more_buffers(*self, start, cx@);
                    lemma_new_buffer_unused(*self, start, output);
                }
                output
            },
        };
        self.set_output(at, Some(output), cx);
        let ghost updated = with_output(start, cell);
        assert(self.tree@[at as int] == updated);
        let ghost buffers = cx@;
        self.tree[at].update_titles(cx);
        assert(updated.measured(cx@) == updated.measured(buffers));
        self.tree[at].update_text_summary(cx);
        cx.set_text(output, text);
        proof {
            let measured = Cell { text_summary: updated.measured(buffers), ..updated };
            let shown = tree.update(at as int, updated);
            assert(self.tree@ =~= tree.update(at as int, measured));
            assert(self.tree@ =~= shown.update(at as int, measured));
            lemma_same_places(shown, self.tree@, at as int);
            assert forall|i: int| 0 <= i < self.tree@.len() implies (
            #[trigger] self.tree@[i]).valid(cx@) && self.tree@[i].id.0 == i + 1 by {
                assert(shown[i].valid(buffers));
                assert(shown[i].id.0 == i + 1);
            }
        }
        Ok(())
    }
}

/// Whether each of `builders` has a source and what it has is among `buffers`, and the extent of
/// its text can be written as a [`crate::summary::TextSummary`].
pub open spec fn all_buildable(builders: Seq<CellBuilder>, buffers: Seq<BufferView>) -> bool {
    forall|i: int|
        #![trigger builders[i]]
        0 <= i < builders.len() ==> {
            &&& builders[i].source matches Some(source) && source.valid(buffers)
            &&& builders[i].output_content matches Some(output) ==> output.valid(buffers)
            &&& crate::cell::measurable(
                builders[i].source->0,
                builders[i].output_content,
                buffers,
            )
        }
}

/// Whether `cells` are what `builders` put together.
pub open spec fn all_built(
    builders: Seq<CellBuilder>,
    buffers: Seq<BufferView>,
    cells: Seq<Cell>,
) -> bool {
    &&& cells.len() == builders.len()
    &&& forall|i: int|
        0 <= i < cells.len() ==> (#[trigger] cells[i])@ == builders[i]@.built(buffers)
}

/// Whether `builders` have the numbers from 1 on, in order.
pub open spec fn builders_numbered(builders: Seq<CellBuilder>) -> bool {
    forall|i: int| 0 <= i < builders.len() ==> (#[trigger] builders[i]).id == i + 1
}

/// The buffers of what `builders` put together, in order.
pub open spec fn builder_handles(builders: Seq<CellBuilder>) -> Seq<BufferId>
    decreases builders.len(),
{
    if builders.len() == 0 {
        Seq::empty()
    } else {
        builder_handles(builders.drop_last()) + seq![builders.last().source->0] + output_handles(
            builders.last().output_content,
        )
    }
}

/// Whether `cells` are the notebook of what `builders` put together, each at its place, and
/// `after` is `before` with the titles of these cells.
pub open spec fn from_builders(
    builders: Seq<CellBuilder>,
    before: Seq<BufferView>,
    cells: Cells,
    after: Seq<BufferView>,
) -> bool {
    &&& exists|built: Seq<Cell>| #[trigger]
        all_built(builders, before, built) && cells.tree@ == crate::cells::with_cells(
            Seq::empty(),
            built,
        ) && after == crate::cells::all_titled(before, built)
    &&& cells.multi.excerpts@ == crate::cells::new_excerpts(builder_handles(builders), 1)
    &&& cells.multi.next_id == 1 + builder_handles(builders).len()
    &&& builders_numbered(builders) ==> {
        &&& all_built(builders, before, cells.tree@)
        &&& after == crate::cells::all_titled(before, cells.tree@)
    }
}

proof fn lemma_built_handles(
    builders: Seq<CellBuilder>,
    buffers: Seq<BufferView>,
    cells: Seq<Cell>,
)
    requires
        all_built(builders, buffers, cells),
    ensures
        crate::cells::all_handles(cells) == builder_handles(builders),
        crate::cells::all_handles(cells).len() <= 2 * cells.len(),
    decreases cells.len(),
{
    if cells.len() > 0 {
        assert forall|i: int| 0 <= i < cells.drop_last().len() implies (
        #[trigger] cells.drop_last()[i])@ == builders.drop_last()[i]@.built(buffers) by {
            assert(cells[i]@ == builders[i]@.built(buffers));
        }
        lemma_built_handles(builders.drop_last(), buffers, cells.drop_last());
        assert(cells.last()@ == builders.last()@.built(buffers));
        let last = cells.last();
        assert(last.handles() =~= seq![builders.last().source->0] + output_handles(
            builders.last().output_content,
        ));
        assert(crate::cells::all_handles(cells) =~= builder_handles(builders));
    }
}

proof fn lemma_inserted_into_nothing(cells: Seq<Cell>)
    requires
        cells.len() > 0,
    ensures
        crate::cells::inserted_tree(Seq::empty(), cells) == crate::cells::with_cells(
            Seq::empty(),
            cells,
        ),
        crate::cells::inserted_excerpts(Seq::empty(), 1, Seq::empty(), cells)
            == crate::cells::new_excerpts(crate::cells::all_handles(cells), 1),
        cells + crate::cells::moved_on(Seq::<Cell>::empty().skip(0)) == cells,
{
    let none = Seq::<Cell>::empty();
    assert(none.take(0) =~= none);
    assert(none.skip(0) =~= none);
    assert(cells + crate::cells::moved_on(none.skip(0)) =~= cells);
    let block = crate::cells::new_excerpts(crate::cells::all_handles(cells), 1);
    let ids = crate::cells::all_excerpt_ids(Seq::empty(), none.skip(0));
    assert(ids =~= Seq::<ExcerptId>::empty());
    let stays = |excerpt: Excerpt| !ids.contains(excerpt.id);
    crate::cells::lemma_filter_all(block, stays);
    assert(crate::cells::spliced(Seq::empty(), 0, block) =~= block);
}

impl Cells {
    /// A notebook of the cells that `builders` put together, each at its place.
    pub fn from_builders(builders: Vec<CellBuilder>, cx: &mut Buffers) -> (cells: Cells)
        requires
            all_buildable(builders@, old(cx)@),
            2 * builders@.len() < u64::MAX,
        ensures
            from_builders(builders@, old(cx)@, cells, final(cx)@),
            cells.multi.wf(),
            builders_numbered(builders@) && builder_handles(builders@).no_duplicates()
                ==> cells.wf(final(cx)@),
    {
        let ghost start = cx@;
        let ghost given = builders@;
        let mut cells = Cells::new();
        let mut built: Vec<Cell> = Vec::new();
        for builder in it: builders
            invariant
                it.seq() == given,
                all_buildable(given, start),
                cx@ == start,
                built@.len() == it.index(),
                forall|i: int|
                    0 <= i < built@.len() ==> (#[trigger] built@[i])@ == given[i]@.built(start),
        {
            built.push(builder.build(cx));
        }
        let ghost to_insert = built@;
        proof {
            assert(all_built(given, start, to_insert));
            lemma_built_handles(given, start, to_insert);
            assert forall|i: int| 0 <= i < to_insert.len() implies (#[trigger] to_insert[i]).valid(
                start,
            ) by {
                assert(to_insert[i]@ == given[i]@.built(start));
                assert(given[i].source is Some);
            }
            if to_insert.len() > 0 {
                lemma_inserted_into_nothing(to_insert);
            }
        }
        cells.insert(built, cx);
        proof {
            let none = Seq::<Cell>::empty();
            if to_insert.len() == 0 {
                assert(crate::cells::with_cells(none, to_insert) =~= none);
                assert(crate::cells::new_excerpts(builder_handles(given), 1) =~= Seq::<
                    Excerpt,
                >::empty());
            }
            if builders_numbered(given) {
                assert forall|i: int| 0 <= i < to_insert.len() implies (
                #[trigger] to_insert[i]).id.0 == i + 1 by {
                    assert(to_insert[i]@ == given[i]@.built(start));
                    assert(given[i].id == i + 1);
                }
                if to_insert.len() > 0 {
                    crate::cells::lemma_inserted_tree(none, to_insert);
                    assert(none.take(0) + to_insert + crate::cells::moved_on(none.skip(0))
                        =~= to_insert);
                }
                assert(cells.tree@ == to_insert);
                if builder_handles(given).no_duplicates() {
                    assert(crate::cells::all_handles(none) + crate::cells::all_handles(to_insert)
                        =~= builder_handles(given));
                }
            }
        }
        cells
    }
}

} // verus!
