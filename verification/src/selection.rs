//! How a selected part of a cell is run.
use crate::buffer::{Buffer, BufferId, BufferView, Buffers, Language, LanguageView};
use crate::cell::{Cell, CellBuilder, CellId};
use crate::editor::NotebookEditor;
use crate::kernel::KernelCommand;
use crate::notebook::Notebook;
use vstd::prelude::*;

verus! {

/// `buffers` after the text of `source` was split: new buffers for what stands before `start` and
/// for what stands from `end` on, and only what is between them left in `source`.
pub open spec fn split_buffers(
    buffers: Seq<BufferView>,
    source: BufferId,
    start: int,
    end: int,
    language: Option<LanguageView>,
) -> Seq<BufferView> {
    let text = buffers[source.index as int].text;
    let head = BufferView {
        text: crate::text::text_before(text, start),
        file: None,
        language,
    };
    let tail = BufferView { text: crate::text::text_after(text, end), file: None, language };
    crate::buffer::with_text(
        buffers.push(head).push(tail),
        source,
        crate::text::text_between(text, start, end),
    )
}

/// Whether `text` can be split at `start` and `end`, and the extents of what stands before and
/// after can be written as a [`crate::summary::TextSummary`].
pub open spec fn splittable(text: Seq<char>, start: int, end: int) -> bool {
    &&& start <= end
    &&& crate::text::splits_at(text, start)
    &&& crate::text::splits_at(text, end)
    &&& crate::summary::summarizable(crate::text::text_before(text, start))
    &&& crate::summary::summarizable(crate::text::text_after(text, end))
}

/// The place and the range of what is run: the cell whose source is the buffer of the active
/// excerpt, and the one range that is selected. `None` if there is no such cell, or not exactly
/// one range.
pub open spec fn selected(
    tree: Seq<Cell>,
    active: Option<BufferId>,
    ranges: Seq<(usize, usize)>,
) -> Option<(int, int, int)> {
    match crate::editing::active_place(tree, active) {
        Some(at) => if ranges.len() == 1 {
            Some((at, ranges[0].0 as int, ranges[0].1 as int))
        } else {
            None
        },
        None => None,
    }
}

/// `tree` with `first` before the cell at `at` and `second` after it. That cell moves one place on,
/// and what follows it moves two.
pub open spec fn split_tree(tree: Seq<Cell>, at: int, first: Cell, second: Cell) -> Seq<Cell> {
    tree.take(at).push(first).push(
        Cell { id: CellId((tree[at].id.0 + 1) as u64), ..tree[at] },
    ).push(second) + crate::cells::moved_on(crate::cells::moved_on(tree.skip(at + 1)))
}

/// Whether `after` and `buffers_after` are what `before` and `buffers` become when the bytes from
/// `start` to `end` of the cell at `at` are run: the text before them and the text after them
/// become cells of their own.
pub open spec fn split_at(
    before: NotebookEditor,
    buffers: Seq<BufferView>,
    at: int,
    start: int,
    end: int,
    after: NotebookEditor,
    buffers_after: Seq<BufferView>,
) -> bool {
    let tree = before.notebook.cells.tree@;
    let current = tree[at];
    let split = split_buffers(
        buffers,
        current.source,
        start,
        end,
        crate::buffer::optional_language_view(before.notebook.language),
    );
    let first = after.notebook.cells.tree@[at];
    let second = after.notebook.cells.tree@[at + 2];
    let moved = crate::cells::moved_on(tree.skip(at));
    let rest = crate::cells::moved_on(crate::cells::moved_on(tree.skip(at + 1)));
    let between = tree.take(at) + seq![first] + moved;
    let titled = crate::cells::all_titled(split, seq![first] + moved);
    let head = BufferId { index: buffers.len() as usize };
    let tail = BufferId { index: (buffers.len() + 1) as usize };
    let multi = before.notebook.cells.multi;
    &&& first@ == crate::editing::new_cell(current.id, head, None, split)
    &&& second@ == crate::editing::new_cell(CellId((current.id.0 + 2) as u64), tail, None, split)
    &&& after.notebook.cells.tree@ == split_tree(tree, at, first, second)
    &&& buffers_after == crate::cells::all_titled(titled, seq![second] + rest)
    &&& after.notebook.cells.multi.excerpts@ == crate::cells::inserted_excerpts(
        crate::cells::inserted_excerpts(
            multi.excerpts@,
            multi.next_id,
            tree,
            seq![first],
        ),
        (multi.next_id + 1 + crate::cells::all_handles(tree.skip(at)).len()) as u64,
        between,
        seq![second],
    )
    &&& after.notebook.cells.multi.next_id == multi.next_id + 2 + crate::cells::all_handles(
        tree.skip(at),
    ).len() + crate::cells::all_handles(tree.skip(at + 1)).len()
    &&& after.notebook == (Notebook { cells: after.notebook.cells, ..before.notebook })
    &&& after.chat == before.chat
}

fn copy_language(language: &Option<Language>) -> (copy: Option<Language>)
    ensures
        crate::buffer::optional_language_view(copy) == crate::buffer::optional_language_view(
            *language,
        ),
{
    match language {
        Some(language) => Some(language.clone()),
        None => None,
    }
}

/// A new buffer that holds `text` in `language`.
fn new_source(text: String, language: &Option<Language>, cx: &mut Buffers) -> (id: BufferId)
    requires
        crate::text::plain(text@),
    ensures
        final(cx)@ == old(cx)@.push(
            BufferView {
                text: text@,
                file: None,
                language: crate::buffer::optional_language_view(*language),
            },
        ),
        id.index == old(cx)@.len(),
{
    proof {
        crate::text::lemma_plain_stays(text@);
    }
    let mut buffer = Buffer::local(text);
    buffer.set_language(copy_language(language));
    cx.new_model(buffer)
}

impl NotebookEditor {
    /// Whether the cells are in order, there is room for two more, and what is selected can be
    /// split off, if anything is.
    pub open spec fn splits(
        self,
        active: Option<BufferId>,
        ranges: Seq<(usize, usize)>,
        buffers: Seq<BufferView>,
    ) -> bool {
        let cells = self.notebook.cells;
        &&& self.notebook.wf(buffers)
        &&& cells.tree@.len() + 2 < u64::MAX
        &&& cells.multi.next_id + 2 * (crate::cells::all_handles(cells.tree@).len() + 2)
            <= u64::MAX
        &&& selected(cells.tree@, active, ranges) matches Some((at, start, end)) ==> splittable(
            buffers[cells.tree@[at].source.index as int].text,
            start,
            end,
        )
    }

    /// Runs what is selected of the cell whose source is the buffer of the active excerpt. The
    /// text before it and the text after it become cells of their own. Returns what is asked of
    /// the kernel, where there is a client for one: the selected text is run for the place that
    /// the cell had. Does nothing if there is no such cell, or not exactly one range is selected.
    pub fn run_current_selection<S, P>(
        &mut self,
        active: Option<BufferId>,
        ranges: Vec<(usize, usize)>,
        cx: &mut Buffers,
    ) -> (command: Option<KernelCommand<S, P>>)
        requires
            old(self).splits(active, ranges@, old(cx)@),
        ensures
            final(self).notebook.wf(final(cx)@),
            match selected(old(self).notebook.cells.tree@, active, ranges@) {
                Some((at, start, end)) => {
                    let current = old(self).notebook.cells.tree@[at];
                    let text = old(cx)@[current.source.index as int].text;
                    let head = final(self).notebook.cells.tree@[at].source;
                    let tail = final(self).notebook.cells.tree@[at + 2].source;
                    &&& split_at(
                        *old(self),
                        old(cx)@,
                        at,
                        start,
                        end,
                        *final(self),
                        final(cx)@,
                    )
                    &&& final(cx)@[head.index as int].text
                        + final(cx)@[current.source.index as int].text
                        + final(cx)@[tail.index as int].text == text
                    &&& match old(self).notebook.client_handle {
                        Some(_) => command matches Some(KernelCommand::Run { cell_id, code })
                            && cell_id == current.id && code@ == crate::text::text_between(
                            text,
                            start,
                            end,
                        ),
                        None => command is None,
                    }
                },
                None => {
                    &&& command is None
                    &&& *final(self) == *old(self)
                    &&& final(cx)@ == old(cx)@
                },
            },
    {
        let ghost before = *self;
        let ghost start_buffers = cx@;
        let ghost tree = self.notebook.cells.tree@;
        let Some(buffer) = active else {
            return None;
        };
        let Some(index) = self.notebook.cells.index_by_buffer(buffer) else {
            return None;
        };
        if ranges.len() != 1 {
            return None;
        }
        let (start, end) = ranges[0];
        let ghost at = index as int;
        proof {
            crate::cells::lemma_place_of_source(tree, buffer);
            assert(tree[at].id.0 == at + 1);
            assert(tree[at].valid(start_buffers));
        }
        let current_cell_id = self.notebook.cells.tree[index].id;
        let source = self.notebook.cells.tree[index].source;
        let text = cx.read(source).text();
        proof {
            crate::text::lemma_split_in_three(text@, start as int, end as int);
            crate::text::lemma_parts_are_plain(text@, start as int, end as int);
            crate::text::lemma_plain_stays(
                crate::text::text_between(text@, start as int, end as int),
            );
        }
        let (head_text, rest_text) = crate::text::split_text(text.as_str(), start);
        let (selected_text, tail_text) = crate::text::split_text(rest_text.as_str(), end - start);
        let head = new_source(head_text, &self.notebook.language, cx);
        let tail = new_source(tail_text, &self.notebook.language, cx);
        cx.set_text(source, selected_text);
        let ghost split = cx@;
        proof {
            assert(split == split_buffers(
                start_buffers,
                source,
                start as int,
                end as int,
                crate::buffer::optional_language_view(self.notebook.language),
            ));
            crate::cell_update::lemma_new_buffer_unused(self.notebook.cells, start_buffers, head);
            crate::cell_update::lemma_new_buffer_unused(self.notebook.cells, start_buffers, tail);
            crate::cell_update::lemma_wf_with_more_buffers(
                self.notebook.cells,
                start_buffers,
                split,
            );
            crate::editing::lemma_handles_of_part(tree, at);
        }

        let builder = CellBuilder::new(current_cell_id.0).source(head);
        assert(builder@.source == Some(head) && builder@.output_content is None);
        let first = builder.build(cx);
        let ghost first_cell = first;
        proof {
            assert(first_cell@ == crate::editing::new_cell(current_cell_id, head, None, split));
            assert(first_cell@.source == head && first_cell@.output_content is None
                && first_cell@.id == current_cell_id);
        }
        self.notebook.cells.insert_one(first, cx);
        let ghost between = self.notebook.cells.tree@;
        let ghost titled = cx@;
        let ghost moved = crate::cells::moved_on(tree.skip(at));
        proof {
            assert(between == tree.take(at) + seq![first_cell] + moved);
            lemma_handles_with_cell(tree, at, first_cell);
            lemma_unused_beside(tree, at, first_cell, tail);
            assert(titled[tail.index as int].text == split[tail.index as int].text);
        }

        let builder = CellBuilder::new(current_cell_id.0 + 2).source(tail);
        assert(builder@.source == Some(tail) && builder@.output_content is None);
        let second = builder.build(cx);
        let ghost second_cell = second;
        proof {
            let id = CellId((current_cell_id.0 + 2) as u64);
            assert(second_cell@ == crate::editing::new_cell(id, tail, None, titled));
            assert(second_cell@ == crate::editing::new_cell(id, tail, None, split));
            assert(second_cell@.source == tail && second_cell@.output_content is None
                && second_cell@.id == id);
        }
        self.notebook.cells.insert_one(second, cx);
        proof {
            lemma_two_cells(tree, at, first_cell, second_cell);
            assert(cx@[head.index as int].text == split[head.index as int].text) by {
                assert(titled[head.index as int].text == split[head.index as int].text);
            }
            assert(cx@[tail.index as int].text == split[tail.index as int].text);
            assert(cx@[source.index as int].text == split[source.index as int].text) by {
                assert(titled[source.index as int].text == split[source.index as int].text);
            }
            let after = self.notebook.cells.tree@;
            assert(after[at] == first_cell && after[at + 2] == second_cell);
            assert(split_at(
                before,
                start_buffers,
                at,
                start as int,
                end as int,
                *self,
                cx@,
            ));
        }
        match &self.notebook.client_handle {
            Some(_) => Some(KernelCommand::run(current_cell_id, cx.read(source).text())),
            None => None,
        }
    }
}

proof fn lemma_handles_with_cell(tree: Seq<Cell>, at: int, cell: Cell)
    requires
        0 <= at <= tree.len(),
        cell.output_content is None,
    ensures
        crate::cells::all_handles(
            tree.take(at) + seq![cell] + crate::cells::moved_on(tree.skip(at)),
        ) == crate::cells::all_handles(tree.take(at)) + seq![cell.source]
            + crate::cells::all_handles(tree.skip(at)),
        crate::cells::all_handles(tree) == crate::cells::all_handles(tree.take(at))
            + crate::cells::all_handles(tree.skip(at)),
{
    let moved = crate::cells::moved_on(tree.skip(at));
    crate::cells::lemma_all_handles_concat(tree.take(at) + seq![cell], moved);
    crate::cells::lemma_all_handles_concat(tree.take(at), seq![cell]);
    crate::cells::lemma_moved_on_handles(tree.skip(at));
    crate::editing::lemma_one_handles(cell);
    assert(tree =~= tree.take(at) + tree.skip(at));
    crate::cells::lemma_all_handles_concat(tree.take(at), tree.skip(at));
}

proof fn lemma_unused_beside(tree: Seq<Cell>, at: int, cell: Cell, handle: BufferId)
    requires
        0 <= at <= tree.len(),
        cell.output_content is None,
        cell.source != handle,
        !crate::cells::all_handles(tree).contains(handle),
    ensures
        !crate::cells::all_handles(
            tree.take(at) + seq![cell] + crate::cells::moved_on(tree.skip(at)),
        ).contains(handle),
{
    lemma_handles_with_cell(tree, at, cell);
    let front = crate::cells::all_handles(tree.take(at));
    let back = crate::cells::all_handles(tree.skip(at));
    let all = front + seq![cell.source] + back;
    assert forall|i: int| 0 <= i < all.len() implies all[i] != handle by {
        if i < front.len() {
            assert((front + back)[i] == all[i]);
        } else if i > front.len() {
            assert((front + back)[i - 1] == all[i]);
        }
    }
}

proof fn lemma_two_cells(tree: Seq<Cell>, at: int, first: Cell, second: Cell)
    requires
        crate::cells::numbered(tree),
        0 <= at < tree.len(),
        tree.len() + 2 < u64::MAX,
    ensures
        ({
            let between = tree.take(at) + seq![first] + crate::cells::moved_on(tree.skip(at));
            let rest = crate::cells::moved_on(crate::cells::moved_on(tree.skip(at + 1)));
            &&& crate::cells::moved_on(between.skip(at + 2)) == rest
            &&& crate::cells::all_handles(between.skip(at + 2)) == crate::cells::all_handles(
                tree.skip(at + 1),
            )
            &&& between.take(at + 2) + seq![second] + rest == split_tree(tree, at, first, second)
        }),
{
    let moved = crate::cells::moved_on(tree.skip(at));
    let between = tree.take(at) + seq![first] + moved;
    let current = Cell { id: CellId((tree[at].id.0 + 1) as u64), ..tree[at] };
    assert(moved[0] == current);
    assert(between.skip(at + 2) =~= crate::cells::moved_on(tree.skip(at + 1)));
    crate::cells::lemma_moved_on_handles(tree.skip(at + 1));
    let rest = crate::cells::moved_on(crate::cells::moved_on(tree.skip(at + 1)));
    assert(between.take(at + 2) =~= tree.take(at).push(first).push(current));
    assert(between.take(at + 2) + seq![second] + rest =~= split_tree(tree, at, first, second));
}

} // verus!
