//! The cells of a notebook in order, and the excerpts by which they are shown.
use crate::buffer::{BufferId, BufferView, Buffers};
use crate::cell::{Cell, CellId};
use crate::json::ParseError;
use crate::multi_buffer::{Anchor, Excerpt, ExcerptId, MultiBuffer};
use vstd::prelude::*;

verus! {

/// The cells of a notebook.
#[derive(Debug)]
pub struct Cells {
    /// The cells in order.
    pub tree: Vec<Cell>,
    /// The excerpts of the buffers of the cells.
    pub multi: MultiBuffer,
}

/// On which side of a cell a place lies.
#[derive(Clone, Copy, Debug, PartialEq, Eq, Structural)]
pub enum Bias {
    Left,
    Right,
}

/// How many of `len` cells lie before the place `id`: those with lower numbers, and on the right
/// side of the place the one with the same number too.
pub open spec fn cells_before(len: nat, id: CellId, bias: Bias) -> int {
    let count = match bias {
        Bias::Left => id.0 - 1,
        Bias::Right => id.0 as int,
    };
    if count < 0 {
        0
    } else if count > len {
        len as int
    } else {
        count
    }
}

/// `tree` with `cell` at its place: instead of the cell there, if that has the same number, and
/// else in front of it.
pub open spec fn with_cell(tree: Seq<Cell>, cell: Cell) -> Seq<Cell> {
    let at = cells_before(tree.len(), cell.id, Bias::Left);
    if at < tree.len() && tree[at].id == cell.id {
        tree.update(at, cell)
    } else {
        tree.insert(at, cell)
    }
}

/// `tree` with each of `cells` at its place, one after the other.
pub open spec fn with_cells(tree: Seq<Cell>, cells: Seq<Cell>) -> Seq<Cell>
    decreases cells.len(),
{
    if cells.len() == 0 {
        tree
    } else {
        with_cell(with_cells(tree, cells.drop_last()), cells.last())
    }
}

/// `cells`, each moved one place on.
pub open spec fn moved_on(cells: Seq<Cell>) -> Seq<Cell> {
    cells.map_values(|cell: Cell| Cell { id: CellId((cell.id.0 + 1) as u64), ..cell })
}

/// The buffers of `cells`, in order.
pub open spec fn all_handles(cells: Seq<Cell>) -> Seq<BufferId>
    decreases cells.len(),
{
    if cells.len() == 0 {
        Seq::empty()
    } else {
        all_handles(cells.drop_last()) + cells.last().handles()
    }
}

/// `buffers` with the titles of `cells` on their buffers.
pub open spec fn all_titled(buffers: Seq<BufferView>, cells: Seq<Cell>) -> Seq<BufferView>
    decreases cells.len(),
{
    if cells.len() == 0 {
        buffers
    } else {
        cells.last().titled(all_titled(buffers, cells.drop_last()))
    }
}

/// Whether the buffers of `cells` are among `buffers`.
pub open spec fn all_valid(buffers: Seq<BufferView>, cells: Seq<Cell>) -> bool {
    forall|i: int| 0 <= i < cells.len() ==> (#[trigger] cells[i]).valid(buffers)
}

/// The identities of the excerpts of `cell`: those of its source, and then those of its output.
pub open spec fn cell_excerpt_ids(excerpts: Seq<Excerpt>, cell: Cell) -> Seq<ExcerptId> {
    let source = crate::multi_buffer::excerpt_ids(
        crate::multi_buffer::excerpts_of(excerpts, cell.source),
    );
    match cell.output_content {
        Some(output) => source + crate::multi_buffer::excerpt_ids(
            crate::multi_buffer::excerpts_of(excerpts, output),
        ),
        None => source,
    }
}

/// The identities of the excerpts of `cells`.
pub open spec fn all_excerpt_ids(excerpts: Seq<Excerpt>, cells: Seq<Cell>) -> Seq<ExcerptId>
    decreases cells.len(),
{
    if cells.len() == 0 {
        Seq::empty()
    } else {
        all_excerpt_ids(excerpts, cells.drop_last()) + cell_excerpt_ids(excerpts, cells.last())
    }
}

/// Excerpts of all of the text of each buffer behind `handles`, with identities from `first` on.
pub open spec fn new_excerpts(handles: Seq<BufferId>, first: int) -> Seq<Excerpt> {
    Seq::new(
        handles.len(),
        |i: int|
            Excerpt {
                id: ExcerptId((first + i) as u64),
                buffer: handles[i],
                start: Anchor::Min,
                end: Anchor::Max,
            },
    )
}

/// `excerpts` with `block` put in at `place`.
pub open spec fn spliced(excerpts: Seq<Excerpt>, place: int, block: Seq<Excerpt>) -> Seq<Excerpt> {
    excerpts.take(place) + block + excerpts.skip(place)
}

/// The last excerpt of the cell in front of place `at`; the least identity if there is none.
pub open spec fn last_excerpt_before(excerpts: Seq<Excerpt>, tree: Seq<Cell>, at: int) -> ExcerptId {
    if at > 0 && cell_excerpt_ids(excerpts, tree[at - 1]).len() > 0 {
        cell_excerpt_ids(excerpts, tree[at - 1]).last()
    } else {
        ExcerptId(0)
    }
}

/// The cells of `tree` after `cells` were put in: what follows the place of the first of `cells`
/// moves one place on.
pub open spec fn inserted_tree(tree: Seq<Cell>, cells: Seq<Cell>) -> Seq<Cell> {
    let at = cells_before(tree.len(), cells[0].id, Bias::Left);
    with_cells(tree.take(at), cells + moved_on(tree.skip(at)))
}

/// The excerpts after `cells` were put into `tree`: fresh ones for `cells` and for what follows
/// them, right after the cell in front of them, instead of those that showed what follows.
pub open spec fn inserted_excerpts(
    excerpts: Seq<Excerpt>,
    next_id: u64,
    tree: Seq<Cell>,
    cells: Seq<Cell>,
) -> Seq<Excerpt> {
    let at = cells_before(tree.len(), cells[0].id, Bias::Left);
    let place = crate::multi_buffer::place_after(
        excerpts,
        last_excerpt_before(excerpts, tree, at),
    );
    let block = new_excerpts(
        all_handles(cells + moved_on(tree.skip(at))),
        next_id as int,
    );
    crate::multi_buffer::without_excerpts(
        spliced(excerpts, place, block),
        all_excerpt_ids(excerpts, tree.skip(at)),
    )
}

/// How many of `len` cells lie before the place `id`.
pub fn count_before(len: usize, id: CellId, bias: Bias) -> (count: usize)
    ensures
        count == cells_before(len as nat, id, bias),
{
    let count: u64 = match bias {
        Bias::Left => if id.0 == 0 {
            0
        } else {
            id.0 - 1
        },
        Bias::Right => id.0,
    };
    if count >= len as u64 {
        len
    } else {
        count as usize
    }
}

/// Puts all of the text of each buffer behind `handles` into `multi`, after the excerpt with the
/// number `prev_excerpt_id`. Returns the identity of the last excerpt that was added.
pub fn insert_as_excerpts_into_multibuffer(
    handles: &Vec<BufferId>,
    prev_excerpt_id: u64,
    multi: &mut MultiBuffer,
    cx: &Buffers,
) -> (last: Result<Option<ExcerptId>, ParseError>)
    requires
        old(multi).wf(),
        old(multi).next_id + handles.len() <= u64::MAX,
        prev_excerpt_id == 0 || crate::multi_buffer::has_excerpt(
            old(multi).excerpts@,
            ExcerptId(prev_excerpt_id),
        ),
        forall|i: int| 0 <= i < handles@.len() ==> (#[trigger] handles@[i]).valid(cx@),
    ensures
        final(multi).wf(),
        final(multi).next_id == old(multi).next_id + handles.len(),
        final(multi).excerpts@ == spliced(
            old(multi).excerpts@,
            crate::multi_buffer::place_after(old(multi).excerpts@, ExcerptId(prev_excerpt_id)),
            new_excerpts(handles@, old(multi).next_id as int),
        ),
        0 <= crate::multi_buffer::place_after(
            old(multi).excerpts@,
            ExcerptId(prev_excerpt_id),
        ) <= old(multi).excerpts@.len(),
        last == Ok::<Option<ExcerptId>, ParseError>(
            if handles.len() == 0 {
                None
            } else {
                Some(ExcerptId((old(multi).next_id + handles.len() - 1) as u64))
            },
        ),
{
    let ghost start = multi.excerpts@;
    let ghost first = multi.next_id as int;
    let ghost place = crate::multi_buffer::place_after(start, ExcerptId(prev_excerpt_id));
    let mut last: Option<ExcerptId> = None;
    proof {
        if prev_excerpt_id != 0 {
            let at = choose|i: int|
                0 <= i < start.len() && (#[trigger] start[i]).id == ExcerptId(prev_excerpt_id);
        }
        assert(start =~= spliced(start, place, new_excerpts(handles@.take(0), first)));
    }
    let mut i: usize = 0;
    while i < handles.len()
        invariant
            i <= handles.len(),
            multi.wf(),
            multi.next_id == first + i,
            first + handles.len() <= u64::MAX,
            place == crate::multi_buffer::place_after(start, ExcerptId(prev_excerpt_id)),
            0 <= place <= start.len(),
            prev_excerpt_id == 0 || crate::multi_buffer::has_excerpt(
                start,
                ExcerptId(prev_excerpt_id),
            ),
            multi.excerpts@ == spliced(start, place, new_excerpts(handles@.take(i as int), first)),
            last == (if i == 0 {
                None
            } else {
                Some(ExcerptId((first + i - 1) as u64))
            }),
            forall|i: int| 0 <= i < handles@.len() ==> (#[trigger] handles@[i]).valid(cx@),
        decreases handles.len() - i,
    {
        let handle = handles[i];
        let end = cx.read(handle).len();
        let previous = match last {
            Some(id) => id,
            None => ExcerptId::from_proto(prev_excerpt_id),
        };
        let ghost before = multi.excerpts@;
        proof {
            let block = new_excerpts(handles@.take(i as int), first);
            if i == 0 {
                assert(before =~= start);
            } else {
                assert(before[place + i - 1] == block[i - 1]);
                lemma_excerpt_index(before, place + i - 1);
            }
        }
        let added = multi.insert_excerpt_after(previous, handle, 0, end, cx);
        last = Some(added);
        proof {
            let block = new_excerpts(handles@.take(i as int), first);
            let longer = new_excerpts(handles@.take(i + 1), first);
            assert(longer =~= block.push(multi.excerpts@[place + i]));
            assert(multi.excerpts@ =~= spliced(start, place, longer));
        }
        i += 1;
    }
    proof {
        assert(handles@.take(i as int) =~= handles@);
    }
    Ok(last)
}

/// Where no two excerpts have the same identity, each is found by its own.
pub proof fn lemma_excerpt_index(excerpts: Seq<Excerpt>, i: int)
    requires
        crate::multi_buffer::distinct_ids(excerpts),
        0 <= i < excerpts.len(),
    ensures
        crate::multi_buffer::has_excerpt(excerpts, excerpts[i].id),
        crate::multi_buffer::excerpt_index(excerpts, excerpts[i].id) == i,
{
    let j = crate::multi_buffer::excerpt_index(excerpts, excerpts[i].id);
    assert(0 <= i < excerpts.len() && excerpts[i].id == excerpts[i].id);
    if j < i {
        assert(excerpts[j].id != excerpts[i].id);
    } else if i < j {
        assert(excerpts[i].id != excerpts[j].id);
    }
}

proof fn lemma_splice_more(
    excerpts: Seq<Excerpt>,
    place: int,
    done: Seq<BufferId>,
    more: Seq<BufferId>,
    first: int,
)
    requires
        0 <= place <= excerpts.len(),
    ensures
        spliced(
            spliced(excerpts, place, new_excerpts(done, first)),
            place + done.len(),
            new_excerpts(more, first + done.len()),
        ) == spliced(excerpts, place, new_excerpts(done + more, first)),
{
    let block = new_excerpts(done, first);
    let next = new_excerpts(more, first + done.len());
    let longer = new_excerpts(done + more, first);
    assert(longer =~= block + next);
    assert(spliced(spliced(excerpts, place, block), place + done.len(), next) =~= spliced(
        excerpts,
        place,
        block + next,
    ));
}

/// The identities of the excerpts of `cell`: those of its source, and then those of its output.
pub fn excerpt_ids_for_cell(multi: &MultiBuffer, cell: &Cell) -> (ids: Vec<ExcerptId>)
    ensures
        ids@ == cell_excerpt_ids(multi.excerpts@, *cell),
{
    let mut ids = multi.excerpts_for_buffer(cell.source);
    if let Some(output) = cell.output_content {
        let mut more = multi.excerpts_for_buffer(output);
        ids.append(&mut more);
    }
    ids
}

/// Puts `cell` at its place in `tree`: instead of the cell there, if that has the same number, and
/// else in front of it. Returns the cell that was replaced.
fn insert_or_replace(tree: &mut Vec<Cell>, cell: Cell) -> (replaced: Option<Cell>)
    ensures
        final(tree)@ == with_cell(old(tree)@, cell),
        replaced == ({
            let at = cells_before(old(tree)@.len(), cell.id, Bias::Left);
            if at < old(tree)@.len() && old(tree)@[at].id == cell.id {
                Some(old(tree)@[at])
            } else {
                None
            }
        }),
{
    let at = count_before(tree.len(), cell.id, Bias::Left);
    if at < tree.len() && tree[at].id == cell.id {
        let replaced = tree.remove(at);
        tree.insert(at, cell);
        assert(tree@ =~= old(tree)@.update(at as int, cell));
        Some(replaced)
    } else {
        tree.insert(at, cell);
        None
    }
}

/// Puts the titles of `cells` on their buffers.
fn update_all_titles(cells: &Vec<Cell>, cx: &mut Buffers)
    requires
        all_valid(old(cx)@, cells@),
    ensures
        final(cx)@ == all_titled(old(cx)@, cells@),
{
    let ghost start = cx@;
    let mut i: usize = 0;
    while i < cells.len()
        invariant
            i <= cells.len(),
            all_valid(start, cells@),
            cx@ == all_titled(start, cells@.take(i as int)),
        decreases cells.len() - i,
    {
        proof {
            lemma_titles_keep_texts(start, cells@.take(i as int));
            assert(cells@.take(i + 1).drop_last() =~= cells@.take(i as int));
            assert(cells@.take(i + 1).last() == cells@[i as int]);
            assert(cells@[i as int].valid(start));
        }
        cells[i].update_titles(cx);
        i += 1;
    }
    proof {
        assert(cells@.take(i as int) =~= cells@);
    }
}

/// Moves each of `cells` one place on, and puts its new titles on its buffers.
fn increment_ids(cells: Vec<Cell>, cx: &mut Buffers) -> (moved: Vec<Cell>)
    requires
        all_valid(old(cx)@, cells@),
        forall|i: int| 0 <= i < cells@.len() ==> (#[trigger] cells@[i]).id.0 < u64::MAX,
    ensures
        moved@ == moved_on(cells@),
        final(cx)@ == all_titled(old(cx)@, moved_on(cells@)),
{
    let ghost start = cx@;
    let ghost all = moved_on(cells@);
    let mut moved: Vec<Cell> = Vec::new();
    for cell in it: cells
        invariant
            it.seq() == cells@,
            all == moved_on(cells@),
            all_valid(start, cells@),
            forall|i: int| 0 <= i < cells@.len() ==> (#[trigger] cells@[i]).id.0 < u64::MAX,
            moved@ == all.take(it.index() as int),
            cx@ == all_titled(start, all.take(it.index() as int)),
    {
        let ghost i = it.index() as int;
        proof {
            lemma_titles_keep_texts(start, all.take(i));
            assert(all.take(i + 1).drop_last() =~= all.take(i));
            assert(all.take(i + 1).last() == all[i]);
            assert(cells@[i].valid(start));
        }
        let mut cell = cell;
        cell.increment_id(cx);
        moved.push(cell);
        proof {
            assert(moved@ =~= all.take(i + 1));
        }
    }
    proof {
        assert(all.take(all.len() as int) =~= all);
    }
    moved
}

/// New titles leave the texts and the languages of the buffers as they are.
pub proof fn lemma_titles_keep_texts(buffers: Seq<BufferView>, cells: Seq<Cell>)
    requires
        all_valid(buffers, cells),
    ensures
        all_titled(buffers, cells).len() == buffers.len(),
        forall|i: int|
            0 <= i < buffers.len() ==> (#[trigger] all_titled(buffers, cells)[i]).text
                == buffers[i].text,
        forall|i: int|
            0 <= i < buffers.len() ==> (#[trigger] all_titled(buffers, cells)[i]).language
                == buffers[i].language,
    decreases cells.len(),
{
    if cells.len() > 0 {
        lemma_titles_keep_texts(buffers, cells.drop_last());
        assert(cells.last().valid(buffers));
    }
}

proof fn lemma_all_titled_concat(buffers: Seq<BufferView>, first: Seq<Cell>, second: Seq<Cell>)
    ensures
        all_titled(buffers, first + second) == all_titled(all_titled(buffers, first), second),
    decreases second.len(),
{
    if second.len() == 0 {
        assert(first + second =~= first);
    } else {
        lemma_all_titled_concat(buffers, first, second.drop_last());
        assert((first + second).drop_last() =~= first + second.drop_last());
        assert((first + second).last() == second.last());
    }
}

/// The buffers of cells one after the other are those of the first and then those of the second.
pub proof fn lemma_all_handles_concat(first: Seq<Cell>, second: Seq<Cell>)
    ensures
        all_handles(first + second) == all_handles(first) + all_handles(second),
    decreases second.len(),
{
    if second.len() == 0 {
        assert(first + second =~= first);
        assert(all_handles(first) + all_handles(second) =~= all_handles(first));
    } else {
        lemma_all_handles_concat(first, second.drop_last());
        assert((first + second).drop_last() =~= first + second.drop_last());
        assert((first + second).last() == second.last());
        assert(all_handles(first + second) =~= all_handles(first) + all_handles(second));
    }
}

/// Cells that move one place on keep their buffers.
pub proof fn lemma_moved_on_handles(cells: Seq<Cell>)
    ensures
        all_handles(moved_on(cells)) == all_handles(cells),
    decreases cells.len(),
{
    if cells.len() > 0 {
        lemma_moved_on_handles(cells.drop_last());
        assert(moved_on(cells).drop_last() =~= moved_on(cells.drop_last()));
        assert(moved_on(cells).last().handles() =~= cells.last().handles());
    }
}

proof fn lemma_cell_excerpt_ids_present(excerpts: Seq<Excerpt>, cell: Cell)
    ensures
        forall|i: int|
            0 <= i < cell_excerpt_ids(excerpts, cell).len() ==> crate::multi_buffer::has_excerpt(
                excerpts,
                #[trigger] cell_excerpt_ids(excerpts, cell)[i],
            ),
{
    let ids = cell_excerpt_ids(excerpts, cell);
    let first = crate::multi_buffer::excerpts_of(excerpts, cell.source);
    assert forall|i: int| 0 <= i < ids.len() implies crate::multi_buffer::has_excerpt(
        excerpts,
        #[trigger] ids[i],
    ) by {
        if i < first.len() {
            assert(first.contains(first[i]));
            excerpts.lemma_filter_contains_rev(
                |excerpt: Excerpt| excerpt.buffer == cell.source,
                first[i],
            );
            let k = choose|k: int| 0 <= k < excerpts.len() && excerpts[k] == first[i];
            assert(excerpts[k].id == ids[i]);
        } else {
            let output = cell.output_content->0;
            let second = crate::multi_buffer::excerpts_of(excerpts, output);
            assert(second.contains(second[i - first.len()]));
            excerpts.lemma_filter_contains_rev(
                |excerpt: Excerpt| excerpt.buffer == output,
                second[i - first.len()],
            );
            let k = choose|k: int|
                0 <= k < excerpts.len() && excerpts[k] == second[i - first.len()];
            assert(excerpts[k].id == ids[i]);
        }
    }
}

impl Cells {
    /// Puts `cells` into the notebook at the place of the first of them. What follows that place
    /// moves one place on.
    pub fn insert(&mut self, cells: Vec<Cell>, cx: &mut Buffers)
        requires
            old(self).multi.wf(),
            all_valid(old(cx)@, old(self).tree@),
            all_valid(old(cx)@, cells@),
            cells@.len() > 0 ==> forall|i: int|
                cells_before(old(self).tree@.len(), cells@[0].id, Bias::Left) <= i
                    < old(self).tree@.len() ==> (#[trigger] old(self).tree@[i]).id.0 < u64::MAX,
            cells@.len() > 0 ==> old(self).multi.next_id + all_handles(
                cells@ + moved_on(
                    old(self).tree@.skip(
                        cells_before(old(self).tree@.len(), cells@[0].id, Bias::Left),
                    ),
                ),
            ).len() <= u64::MAX,
        ensures
            final(self).multi.wf(),
            cells@.len() == 0 ==> *final(self) == *old(self) && final(cx)@ == old(cx)@,
            cells@.len() > 0 ==> {
                let at = cells_before(old(self).tree@.len(), cells@[0].id, Bias::Left);
                let placed = cells@ + moved_on(old(self).tree@.skip(at));
                &&& final(self).tree@ == inserted_tree(old(self).tree@, cells@)
                &&& final(self).multi.excerpts@ == inserted_excerpts(
                    old(self).multi.excerpts@,
                    old(self).multi.next_id,
                    old(self).tree@,
                    cells@,
                )
                &&& final(self).multi.next_id == old(self).multi.next_id + all_handles(placed).len()
                &&& final(cx)@ == all_titled(old(cx)@, placed)
            },
            old(self).wf(old(cx)@) && placeable(old(self).tree@, cells@) && fresh_handles(
                old(self).tree@,
                cells@,
            ) ==> final(self).wf(final(cx)@),
    {
        if cells.len() == 0 {
            return;
        }
        let ghost buffers = cx@;
        let ghost tree = self.tree@;
        let ghost excerpts = self.multi.excerpts@;
        let ghost first = self.multi.next_id as int;
        update_all_titles(&cells, cx);

        let at = count_before(self.tree.len(), cells[0].id, Bias::Left);
        let mut prev_excerpt_id = ExcerptId::min();
        if at > 0 {
            let ids = excerpt_ids_for_cell(&self.multi, &self.tree[at - 1]);
            proof {
                lemma_cell_excerpt_ids_present(excerpts, tree[at - 1]);
            }
            if ids.len() > 0 {
                prev_excerpt_id = ids[ids.len() - 1];
            }
        }
        let ghost prev = prev_excerpt_id;
        assert(prev == last_excerpt_before(excerpts, tree, at as int));
        let ghost place = crate::multi_buffer::place_after(excerpts, prev);

        let following = self.tree.split_off(at);
        let ids_excerpts_to_remove = all_ids_for_cells(&self.multi, &following);
        proof {
            lemma_titles_keep_texts(buffers, cells@);
            assert(following@ =~= tree.skip(at as int));
            assert(self.tree@ =~= tree.take(at as int));
            assert forall|i: int| 0 <= i < following@.len() implies (
            #[trigger] following@[i]).valid(cx@) && following@[i].id.0 < u64::MAX by {
                assert(following@[i] == tree[at + i]);
            }
        }
        let mut shifted = increment_ids(following, cx);
        let ghost all = cells@ + moved_on(tree.skip(at as int));
        let mut placed = cells;
        placed.append(&mut shifted);
        proof {
            assert(placed@ =~= all);
            lemma_all_titled_concat(buffers, cells@, moved_on(tree.skip(at as int)));
            lemma_titles_keep_texts(buffers, all);
            assert forall|i: int| 0 <= i < all.len() implies (#[trigger] all[i]).valid(
                buffers,
            ) by {
                if i >= cells@.len() {
                    assert(tree[at + i - cells@.len()].valid(buffers));
                }
            }
            assert(excerpts =~= spliced(excerpts, place, new_excerpts(all_handles(all.take(0)), first)));
            assert(all.take(0) =~= Seq::<Cell>::empty());
            if prev.0 != 0 {
                let k = choose|k: int|
                    0 <= k < excerpts.len() && (#[trigger] excerpts[k]).id == prev;
            }
        }

        for cell in it: placed
            invariant
                it.seq() == all,
                all_valid(buffers, all),
                cx@ == all_titled(buffers, all),
                self.multi.wf(),
                first + all_handles(all).len() <= u64::MAX,
                place == crate::multi_buffer::place_after(excerpts, prev),
                0 <= place <= excerpts.len(),
                prev == ExcerptId(0) || crate::multi_buffer::has_excerpt(excerpts, prev),
                self.multi.next_id == first + all_handles(all.take(it.index() as int)).len(),
                self.multi.excerpts@ == spliced(
                    excerpts,
                    place,
                    new_excerpts(all_handles(all.take(it.index() as int)), first),
                ),
                prev_excerpt_id == (if it.index() == 0 {
                    prev
                } else {
                    ExcerptId((self.multi.next_id - 1) as u64)
                }),
                it.index() > 0 ==> all_handles(all.take(it.index() as int)).len() > 0,
                self.tree@ == with_cells(tree.take(at as int), all.take(it.index() as int)),
        {
            let ghost i = it.index() as int;
            let ghost done = all_handles(all.take(i));
            let ghost before = self.multi.excerpts@;
            let handles = cell.buffer_handles();
            proof {
                assert(cell == all[i]);
                assert(all[i].valid(buffers));
                lemma_titles_keep_texts(buffers, all);
                assert(all.take(i + 1).drop_last() =~= all.take(i));
                assert(all.take(i + 1).last() == all[i]);
                lemma_all_handles_concat(all.take(i + 1), all.skip(i + 1));
                assert(all.take(i + 1) + all.skip(i + 1) =~= all);
                if i > 0 {
                    assert(before[place + done.len() - 1] == new_excerpts(
                        done,
                        first,
                    )[done.len() - 1]);
                    lemma_excerpt_index(before, place + done.len() - 1);
                } else {
                    assert(before =~= excerpts);
                }
            }
            let added = insert_as_excerpts_into_multibuffer(
                &handles,
                prev_excerpt_id.to_proto(),
                &mut self.multi,
                cx,
            );
            if let Ok(Some(id)) = added {
                prev_excerpt_id = id;
            }
            insert_or_replace(&mut self.tree, cell);
            proof {
                lemma_splice_more(excerpts, place, done, handles@, first);
            }
        }
        proof {
            assert(all.take(all.len() as int) =~= all);
        }
        self.multi.remove_excerpts(&ids_excerpts_to_remove);
        proof {
            if old(self).wf(buffers) && placeable(tree, cells@) && fresh_handles(tree, cells@) {
                lemma_insert_keeps_wf(*old(self), *self, cells@, buffers, cx@);
            }
        }
    }
}

proof fn lemma_insert_keeps_wf(
    before: Cells,
    after: Cells,
    cells: Seq<Cell>,
    buffers: Seq<BufferView>,
    now: Seq<BufferView>,
)
    requires
        before.wf(buffers),
        placeable(before.tree@, cells),
        fresh_handles(before.tree@, cells),
        all_valid(buffers, cells),
        now.len() == buffers.len(),
        before.multi.next_id + all_handles(
            cells + moved_on(before.tree@.skip(cells[0].id.0 - 1)),
        ).len() <= u64::MAX,
        after.multi.wf(),
        after.tree@ == inserted_tree(before.tree@, cells),
        after.multi.excerpts@ == inserted_excerpts(
            before.multi.excerpts@,
            before.multi.next_id,
            before.tree@,
            cells,
        ),
    ensures
        after.wf(now),
{
    let tree = before.tree@;
    let at = cells[0].id.0 - 1;
    lemma_inserted_tree(tree, cells);
    lemma_moved_on_handles(tree.skip(at));
    lemma_all_handles_concat(cells, moved_on(tree.skip(at)));
    lemma_inserted_excerpts(before.multi, tree, cells);
    assert forall|i: int| 0 <= i < after.tree@.len() implies (#[trigger] after.tree@[i]).valid(
        now,
    ) by {
        if i < at {
            assert(tree[i].valid(buffers));
        } else if i < at + cells.len() {
            assert(cells[i - at].valid(buffers));
        } else {
            assert(tree[i - cells.len()].valid(buffers));
        }
    }
}

/// The identities of the excerpts of `cells`.
fn all_ids_for_cells(multi: &MultiBuffer, cells: &Vec<Cell>) -> (ids: Vec<ExcerptId>)
    ensures
        ids@ == all_excerpt_ids(multi.excerpts@, cells@),
{
    let mut ids: Vec<ExcerptId> = Vec::new();
    let mut i: usize = 0;
    while i < cells.len()
        invariant
            i <= cells.len(),
            ids@ == all_excerpt_ids(multi.excerpts@, cells@.take(i as int)),
        decreases cells.len() - i,
    {
        proof {
            assert(cells@.take(i + 1).drop_last() =~= cells@.take(i as int));
            assert(cells@.take(i + 1).last() == cells@[i as int]);
        }
        let mut more = excerpt_ids_for_cell(multi, &cells[i]);
        ids.append(&mut more);
        i += 1;
    }
    proof {
        assert(cells@.take(i as int) =~= cells@);
    }
    ids
}

/// Whether the cells are numbered from 1 on, in order.
pub open spec fn numbered(tree: Seq<Cell>) -> bool {
    &&& tree.len() < u64::MAX
    &&& forall|i: int| 0 <= i < tree.len() ==> (#[trigger] tree[i]).id.0 == i + 1
}

/// Whether each of `excerpts` shows all of its buffer.
pub open spec fn all_whole(excerpts: Seq<Excerpt>) -> bool {
    forall|i: int| 0 <= i < excerpts.len() ==> (#[trigger] excerpts[i]).whole()
}

/// Whether the excerpts show the buffers of the cells, each once, as a whole, and in order.
pub open spec fn shows(excerpts: Seq<Excerpt>, tree: Seq<Cell>) -> bool {
    &&& all_whole(excerpts)
    &&& excerpts.map_values(|excerpt: Excerpt| excerpt.buffer) == all_handles(tree)
    &&& all_handles(tree).no_duplicates()
}

/// Whether `cells` have a place in `tree`: their numbers follow each other, the first of them is
/// at most one past the last number in use, and something follows that place only where `cells`
/// is a single cell.
pub open spec fn placeable(tree: Seq<Cell>, cells: Seq<Cell>) -> bool {
    &&& cells.len() > 0
    &&& tree.len() + cells.len() < u64::MAX
    &&& 1 <= cells[0].id.0 <= tree.len() + 1
    &&& cells.len() == 1 || cells[0].id.0 == tree.len() + 1
    &&& forall|i: int| 0 <= i < cells.len() ==> (#[trigger] cells[i]).id.0 == cells[0].id.0 + i
}

/// Whether the buffers of `cells` differ from each other and from those of `tree`.
pub open spec fn fresh_handles(tree: Seq<Cell>, cells: Seq<Cell>) -> bool {
    (all_handles(tree) + all_handles(cells)).no_duplicates()
}

proof fn lemma_with_cells_appends(prefix: Seq<Cell>, cells: Seq<Cell>)
    requires
        prefix.len() + cells.len() < u64::MAX,
        forall|i: int| 0 <= i < cells.len() ==> (#[trigger] cells[i]).id.0 == prefix.len() + 1 + i,
    ensures
        with_cells(prefix, cells) == prefix + cells,
    decreases cells.len(),
{
    if cells.len() == 0 {
        assert(prefix + cells =~= prefix);
    } else {
        lemma_with_cells_appends(prefix, cells.drop_last());
        assert(cells.last().id.0 == prefix.len() + cells.len());
        assert((prefix + cells.drop_last()).push(cells.last()) =~= prefix + cells);
        let before = prefix + cells.drop_last();
        assert(before.insert(before.len() as int, cells.last()) =~= before.push(cells.last()));
    }
}

/// Where `cells` have a place in a numbered notebook, putting them in keeps all cells, each in its
/// order, and the notebook stays numbered.
pub proof fn lemma_inserted_tree(tree: Seq<Cell>, cells: Seq<Cell>)
    requires
        numbered(tree),
        placeable(tree, cells),
    ensures
        inserted_tree(tree, cells) == tree.take(cells[0].id.0 - 1) + cells + moved_on(
            tree.skip(cells[0].id.0 - 1),
        ),
        numbered(inserted_tree(tree, cells)),
{
    let at = cells_before(tree.len(), cells[0].id, Bias::Left);
    assert(at == cells[0].id.0 - 1);
    let placed = cells + moved_on(tree.skip(at));
    assert forall|i: int| 0 <= i < placed.len() implies (#[trigger] placed[i]).id.0 == at + 1
        + i by {
        if i >= cells.len() {
            assert(cells.len() == 1);
            assert(placed[i].id.0 == tree[at + i - 1].id.0 + 1);
        }
    }
    lemma_with_cells_appends(tree.take(at), placed);
    assert(tree.take(at) + placed =~= tree.take(at) + cells + moved_on(tree.skip(at)));
    assert forall|i: int| 0 <= i < inserted_tree(tree, cells).len() implies (
    #[trigger] inserted_tree(tree, cells)[i]).id.0 == i + 1 by {
        if i < at {
            assert(tree[i].id.0 == i + 1);
        }
    }
}

/// Where each buffer is shown once, the excerpts of a buffer are the one that shows it.
pub proof fn lemma_single_excerpt(excerpts: Seq<Excerpt>, i: int)
    requires
        0 <= i < excerpts.len(),
        excerpts.map_values(|excerpt: Excerpt| excerpt.buffer).no_duplicates(),
    ensures
        crate::multi_buffer::excerpts_of(excerpts, excerpts[i].buffer) == seq![excerpts[i]],
    decreases excerpts.len(),
{
    let buffer = excerpts[i].buffer;
    let is_of = |excerpt: Excerpt| excerpt.buffer == buffer;
    let buffers = excerpts.map_values(|excerpt: Excerpt| excerpt.buffer);
    let rest = excerpts.drop_last();
    assert(rest.push(excerpts.last()) =~= excerpts);
    rest.lemma_filter_push(excerpts.last(), is_of);
    assert(rest.map_values(|excerpt: Excerpt| excerpt.buffer) =~= buffers.drop_last());
    if i == excerpts.len() - 1 {
        assert forall|k: int| 0 <= k < rest.len() implies !is_of(#[trigger] rest[k]) by {
            assert(buffers[k] != buffers[i]);
        }
        lemma_filter_none(rest, is_of);
        assert(rest.filter(is_of).push(excerpts.last()) =~= seq![excerpts[i]]);
    } else {
        assert(buffers[i] != buffers[excerpts.len() - 1]);
        lemma_single_excerpt(rest, i);
        assert(rest[i] == excerpts[i]);
    }
}

/// A filter that no item passes leaves nothing.
pub proof fn lemma_filter_none<A>(items: Seq<A>, stays: spec_fn(A) -> bool)
    requires
        forall|i: int| 0 <= i < items.len() ==> !stays(#[trigger] items[i]),
    ensures
        items.filter(stays) == Seq::<A>::empty(),
    decreases items.len(),
{
    if items.len() > 0 {
        let rest = items.drop_last();
        assert forall|i: int| 0 <= i < rest.len() implies !stays(#[trigger] rest[i]) by {
            assert(rest[i] == items[i]);
        }
        lemma_filter_none(rest, stays);
        rest.lemma_filter_push(items.last(), stays);
        assert(rest.push(items.last()) =~= items);
        assert(!stays(items[items.len() - 1]));
    }
}

/// A filter that every item passes leaves everything.
pub proof fn lemma_filter_all<A>(items: Seq<A>, stays: spec_fn(A) -> bool)
    requires
        forall|i: int| 0 <= i < items.len() ==> stays(#[trigger] items[i]),
    ensures
        items.filter(stays) == items,
    decreases items.len(),
{
    if items.len() > 0 {
        let rest = items.drop_last();
        assert forall|i: int| 0 <= i < rest.len() implies stays(#[trigger] rest[i]) by {
            assert(rest[i] == items[i]);
        }
        lemma_filter_all(rest, stays);
        rest.lemma_filter_push(items.last(), stays);
        assert(rest.push(items.last()) =~= items);
        assert(stays(items[items.len() - 1]));
    }
}

/// The excerpts of `cells`, where `excerpts` show their buffers from place `from` on.
proof fn lemma_excerpt_ids_of_shown(excerpts: Seq<Excerpt>, cells: Seq<Cell>, from: int)
    requires
        excerpts.map_values(|excerpt: Excerpt| excerpt.buffer).no_duplicates(),
        0 <= from,
        from + all_handles(cells).len() <= excerpts.len(),
        forall|i: int|
            0 <= i < all_handles(cells).len() ==> (#[trigger] all_handles(cells)[i])
                == excerpts[from + i].buffer,
    ensures
        all_excerpt_ids(excerpts, cells) == crate::multi_buffer::excerpt_ids(
            excerpts.subrange(from, from + all_handles(cells).len()),
        ),
        cells.len() > 0 ==> cell_excerpt_ids(excerpts, cells.last()).len() > 0
            && cell_excerpt_ids(excerpts, cells.last()).last() == excerpts[from + all_handles(
            cells,
        ).len() - 1].id,
    decreases cells.len(),
{
    if cells.len() == 0 {
        assert(all_excerpt_ids(excerpts, cells) =~= crate::multi_buffer::excerpt_ids(
            excerpts.subrange(from, from),
        ));
    } else {
        let rest = cells.drop_last();
        let count = all_handles(rest).len() as int;
        let last = cells.last();
        let handles = all_handles(cells);
        assert forall|i: int| 0 <= i < count implies (#[trigger] all_handles(rest)[i])
            == excerpts[from + i].buffer by {
            assert(all_handles(rest)[i] == handles[i]);
        }
        lemma_excerpt_ids_of_shown(excerpts, rest, from);
        assert(handles[count] == last.source);
        lemma_single_excerpt(excerpts, from + count);
        match last.output_content {
            Some(output) => {
                assert(handles[count + 1] == output);
                lemma_single_excerpt(excerpts, from + count + 1);
                assert(cell_excerpt_ids(excerpts, last) =~= seq![
                    excerpts[from + count].id,
                    excerpts[from + count + 1].id,
                ]);
            },
            None => {
                assert(cell_excerpt_ids(excerpts, last) =~= seq![excerpts[from + count].id]);
            },
        }
        assert(all_excerpt_ids(excerpts, cells) =~= crate::multi_buffer::excerpt_ids(
            excerpts.subrange(from, from + handles.len()),
        ));
    }
}

proof fn lemma_place_of_insertion(excerpts: Seq<Excerpt>, tree: Seq<Cell>, at: int)
    requires
        crate::multi_buffer::distinct_ids(excerpts),
        forall|i: int| 0 <= i < excerpts.len() ==> (#[trigger] excerpts[i]).id.0 >= 1,
        shows(excerpts, tree),
        0 <= at <= tree.len(),
    ensures
        all_handles(tree) == all_handles(tree.take(at)) + all_handles(tree.skip(at)),
        crate::multi_buffer::place_after(excerpts, last_excerpt_before(excerpts, tree, at))
            == all_handles(tree.take(at)).len(),
        all_excerpt_ids(excerpts, tree.skip(at)) == crate::multi_buffer::excerpt_ids(
            excerpts.skip(all_handles(tree.take(at)).len() as int),
        ),
{
    let front = tree.take(at);
    let back = tree.skip(at);
    assert(front + back =~= tree);
    lemma_all_handles_concat(front, back);
    let place = all_handles(front).len() as int;
    let shown = excerpts.map_values(|excerpt: Excerpt| excerpt.buffer);
    assert(shown == all_handles(tree) && shown.len() == excerpts.len());
    assert forall|i: int| 0 <= i < all_handles(back).len() implies (#[trigger] all_handles(back)[i])
        == excerpts[place + i].buffer by {
        assert(shown[place + i] == all_handles(tree)[place + i]);
    }
    lemma_excerpt_ids_of_shown(excerpts, back, place);
    assert(excerpts.subrange(place, excerpts.len() as int) =~= excerpts.skip(place));
    if at > 0 {
        assert forall|i: int| 0 <= i < all_handles(front).len() implies (#[trigger] all_handles(
            front,
        )[i]) == excerpts[i].buffer by {
            assert(shown[i] == all_handles(tree)[i]);
        }
        lemma_excerpt_ids_of_shown(excerpts, front, 0);
        assert(front.last() == tree[at - 1]);
        lemma_excerpt_index(excerpts, place - 1);
    } else {
        assert(front =~= Seq::<Cell>::empty());
    }
}

proof fn lemma_what_stays(
    excerpts: Seq<Excerpt>,
    place: int,
    block: Seq<Excerpt>,
    next_id: u64,
)
    requires
        crate::multi_buffer::distinct_ids(excerpts),
        0 <= place <= excerpts.len(),
        forall|i: int| 0 <= i < excerpts.len() ==> (#[trigger] excerpts[i]).id.0 < next_id,
        forall|i: int| 0 <= i < block.len() ==> (#[trigger] block[i]).id.0 >= next_id,
    ensures
        crate::multi_buffer::without_excerpts(
            spliced(excerpts, place, block),
            crate::multi_buffer::excerpt_ids(excerpts.skip(place)),
        ) == excerpts.take(place) + block,
{
    let removed = crate::multi_buffer::excerpt_ids(excerpts.skip(place));
    let stays = |excerpt: Excerpt| !removed.contains(excerpt.id);
    assert forall|i: int| 0 <= i < place implies stays(#[trigger] excerpts.take(place)[i]) by {
        let excerpt = excerpts.take(place)[i];
        if removed.contains(excerpt.id) {
            let k = choose|k: int| 0 <= k < removed.len() && removed[k] == excerpt.id;
            assert(excerpts[place + k].id == excerpts[i].id);
        }
    }
    assert forall|i: int| 0 <= i < block.len() implies stays(#[trigger] block[i]) by {
        if removed.contains(block[i].id) {
            let k = choose|k: int| 0 <= k < removed.len() && removed[k] == block[i].id;
            assert(excerpts[place + k].id.0 < next_id);
        }
    }
    assert forall|i: int| 0 <= i < excerpts.skip(place).len() implies !stays(
        #[trigger] excerpts.skip(place)[i],
    ) by {
        assert(removed[i] == excerpts.skip(place)[i].id);
    }
    lemma_filter_all(excerpts.take(place), stays);
    lemma_filter_all(block, stays);
    lemma_filter_none(excerpts.skip(place), stays);
    Seq::filter_distributes_over_add(excerpts.take(place), block, stays);
    Seq::filter_distributes_over_add(excerpts.take(place) + block, excerpts.skip(place), stays);
    assert(spliced(excerpts, place, block).filter(stays) =~= excerpts.take(place) + block);
}

proof fn lemma_shown_after(
    excerpts: Seq<Excerpt>,
    front: Seq<BufferId>,
    back: Seq<BufferId>,
    handles: Seq<BufferId>,
    first: int,
)
    requires
        excerpts.map_values(|excerpt: Excerpt| excerpt.buffer) == front + back,
        all_whole(excerpts),
    ensures
        (excerpts.take(front.len() as int) + new_excerpts(handles, first)).map_values(
            |excerpt: Excerpt| excerpt.buffer,
        ) == front + handles,
        all_whole(excerpts.take(front.len() as int) + new_excerpts(handles, first)),
{
    let shown = excerpts.map_values(|excerpt: Excerpt| excerpt.buffer);
    assert(shown.len() == excerpts.len());
    let after = excerpts.take(front.len() as int) + new_excerpts(handles, first);
    assert forall|i: int| 0 <= i < after.len() implies after[i].buffer == (#[trigger] (front
        + handles)[i]) by {
        if i < front.len() {
            assert(shown[i] == front[i]);
        }
    }
    assert(after.map_values(|excerpt: Excerpt| excerpt.buffer) =~= front + handles);
    assert forall|i: int| 0 <= i < after.len() implies (#[trigger] after[i]).whole() by {
        if i < front.len() {
            assert(excerpts[i].whole());
        }
    }
}

proof fn lemma_reordered_no_duplicates(
    front: Seq<BufferId>,
    middle: Seq<BufferId>,
    back: Seq<BufferId>,
)
    requires
        (front + back + middle).no_duplicates(),
    ensures
        (front + middle + back).no_duplicates(),
{
    let all = front + middle + back;
    let given = front + back + middle;
    let f = front.len();
    let m = middle.len();
    let b = back.len();
    assert forall|i: int, j: int| 0 <= i < all.len() && 0 <= j < all.len() && i != j implies all[i]
        != all[j] by {
        let gi = if i < f {
            i
        } else if i < f + m {
            i + b
        } else {
            i - m
        };
        let gj = if j < f {
            j
        } else if j < f + m {
            j + b
        } else {
            j - m
        };
        assert(all[i] == given[gi]);
        assert(all[j] == given[gj]);
        assert(gi != gj);
    }
}

/// Where `cells` have a place in a notebook whose excerpts show the buffers of its cells in order,
/// and bring buffers of their own, the excerpts show those of all cells in order afterwards, each
/// as a whole, and those in front of the place stay the same.
pub proof fn lemma_inserted_excerpts(multi: MultiBuffer, tree: Seq<Cell>, cells: Seq<Cell>)
    requires
        multi.wf(),
        numbered(tree),
        shows(multi.excerpts@, tree),
        placeable(tree, cells),
        fresh_handles(tree, cells),
        multi.next_id + all_handles(cells).len() + all_handles(
            tree.skip(cells[0].id.0 - 1),
        ).len() <= u64::MAX,
    ensures
        shows(
            inserted_excerpts(multi.excerpts@, multi.next_id, tree, cells),
            inserted_tree(tree, cells),
        ),
        inserted_excerpts(multi.excerpts@, multi.next_id, tree, cells)
            == multi.excerpts@.take(all_handles(tree.take(cells[0].id.0 - 1)).len() as int)
            + new_excerpts(
            all_handles(cells) + all_handles(tree.skip(cells[0].id.0 - 1)),
            multi.next_id as int,
        ),
{
    let at = cells[0].id.0 - 1;
    let front = all_handles(tree.take(at));
    let middle = all_handles(cells);
    let back = all_handles(tree.skip(at));
    lemma_inserted_handles(tree, cells);
    lemma_inserted_form(multi, tree, cells);
    lemma_place_of_insertion(multi.excerpts@, tree, at);
    lemma_shown_after(multi.excerpts@, front, back, middle + back, multi.next_id as int);
    assert(front + (middle + back) =~= front + middle + back);
    lemma_reordered_no_duplicates(front, middle, back);
}

proof fn lemma_inserted_handles(tree: Seq<Cell>, cells: Seq<Cell>)
    requires
        numbered(tree),
        placeable(tree, cells),
    ensures
        all_handles(inserted_tree(tree, cells)) == all_handles(tree.take(cells[0].id.0 - 1))
            + all_handles(cells) + all_handles(tree.skip(cells[0].id.0 - 1)),
{
    let at = cells[0].id.0 - 1;
    lemma_inserted_tree(tree, cells);
    lemma_moved_on_handles(tree.skip(at));
    lemma_all_handles_concat(tree.take(at) + cells, moved_on(tree.skip(at)));
    lemma_all_handles_concat(tree.take(at), cells);
}

pub(crate) proof fn lemma_inserted_form(multi: MultiBuffer, tree: Seq<Cell>, cells: Seq<Cell>)
    requires
        multi.wf(),
        shows(multi.excerpts@, tree),
        cells.len() > 0,
        1 <= cells[0].id.0 <= tree.len() + 1,
        multi.next_id + all_handles(cells).len() + all_handles(
            tree.skip(cells[0].id.0 - 1),
        ).len() <= u64::MAX,
    ensures
        inserted_excerpts(multi.excerpts@, multi.next_id, tree, cells)
            == multi.excerpts@.take(all_handles(tree.take(cells[0].id.0 - 1)).len() as int)
            + new_excerpts(
            all_handles(cells) + all_handles(tree.skip(cells[0].id.0 - 1)),
            multi.next_id as int,
        ),
{
    let excerpts = multi.excerpts@;
    let at = cells_before(tree.len(), cells[0].id, Bias::Left);
    let back = tree.skip(at);
    lemma_place_of_insertion(excerpts, tree, at);
    lemma_moved_on_handles(back);
    lemma_all_handles_concat(cells, moved_on(back));
    let block = new_excerpts(all_handles(cells) + all_handles(back), multi.next_id as int);
    assert(excerpts.map_values(|excerpt: Excerpt| excerpt.buffer).len() == excerpts.len());
    lemma_what_stays(excerpts, all_handles(tree.take(at)).len() as int, block, multi.next_id);
}

impl Cells {
    /// The cells are numbered from 1 on in order, and the excerpts show their buffers, which are
    /// among `buffers`, each once, as a whole, and in order.
    pub open spec fn wf(self, buffers: Seq<BufferView>) -> bool {
        &&& self.multi.wf()
        &&& all_valid(buffers, self.tree@)
        &&& numbered(self.tree@)
        &&& shows(self.multi.excerpts@, self.tree@)
    }

    /// A notebook without cells.
    pub fn new() -> (cells: Cells)
        ensures
            cells.tree@ == Seq::<Cell>::empty(),
            cells.multi.excerpts@ == Seq::<Excerpt>::empty(),
            cells.multi.next_id == 1,
            forall|buffers: Seq<BufferView>| #[trigger] cells.wf(buffers),
    {
        let cells = Cells { tree: Vec::new(), multi: MultiBuffer::new() };
        assert(cells.multi.excerpts@.map_values(|excerpt: Excerpt| excerpt.buffer) =~= all_handles(
            cells.tree@,
        ));
        cells
    }

    /// The cells in order.
    pub fn iter(&self) -> (cells: &[Cell])
        ensures
            cells@ == self.tree@,
    {
        self.tree.as_slice()
    }

    /// The cell at the place `cell_id`, if there is one.
    pub fn get_cell_by_id(&self, cell_id: &CellId) -> (cell: Option<&Cell>)
        ensures
            cell == ({
                let at = cells_before(self.tree@.len(), *cell_id, Bias::Left);
                if at < self.tree@.len() {
                    Some(&self.tree@[at])
                } else {
                    None
                }
            }),
    {
        let mut cursor = self.cursor();
        cursor.seek_forward(cell_id, Bias::Left);
        cursor.item()
    }

    /// The place of the last cell whose source is the buffer behind `buffer`, if there is one.
    pub fn index_by_buffer(&self, buffer: BufferId) -> (index: Option<usize>)
        ensures
            match index {
                Some(index) => place_of_source(self.tree@, buffer) == Some(index as int),
                None => place_of_source(self.tree@, buffer) is None,
            },
    {
        let mut index: Option<usize> = None;
        let mut i: usize = 0;
        while i < self.tree.len()
            invariant
                i <= self.tree@.len(),
                match index {
                    Some(index) => place_of_source(self.tree@.take(i as int), buffer) == Some(
                        index as int,
                    ),
                    None => place_of_source(self.tree@.take(i as int), buffer) is None,
                },
            decreases self.tree@.len() - i,
        {
            proof {
                let next = self.tree@.take(i + 1);
                assert(next.drop_last() =~= self.tree@.take(i as int));
                assert(next.last() == self.tree@[i as int]);
            }
            if self.tree[i].source == buffer {
                index = Some(i);
            }
            i += 1;
        }
        assert(self.tree@.take(i as int) =~= self.tree@);
        index
    }

    /// The last cell whose source is the buffer behind `buffer`, if there is one.
    pub fn get_cell_by_buffer(&self, buffer: BufferId) -> (cell: Option<&Cell>)
        ensures
            cell == (match place_of_source(self.tree@, buffer) {
                Some(at) => Some(&self.tree@[at]),
                None => None,
            }),
    {
        match self.index_by_buffer(buffer) {
            Some(index) => {
                proof {
                    lemma_place_of_source(self.tree@, buffer);
                }
                Some(&self.tree[index])
            },
            None => None,
        }
    }
}

/// The place of the last of `cells` whose source is `buffer`, if there is one.
pub open spec fn place_of_source(cells: Seq<Cell>, buffer: BufferId) -> Option<int>
    decreases cells.len(),
{
    if cells.len() == 0 {
        None
    } else if cells.last().source == buffer {
        Some(cells.len() - 1)
    } else {
        place_of_source(cells.drop_last(), buffer)
    }
}

/// The cell that is found by its source has that source, and no cell after it has. Where none is
/// found, none has it.
pub proof fn lemma_place_of_source(cells: Seq<Cell>, buffer: BufferId)
    ensures
        match place_of_source(cells, buffer) {
            Some(at) => 0 <= at < cells.len() && cells[at].source == buffer && forall|i: int|
                at < i < cells.len() ==> (#[trigger] cells[i]).source != buffer,
            None => forall|i: int|
                0 <= i < cells.len() ==> (#[trigger] cells[i]).source != buffer,
        },
    decreases cells.len(),
{
    if cells.len() > 0 && cells.last().source != buffer {
        lemma_place_of_source(cells.drop_last(), buffer);
        assert forall|i: int|
            0 <= i < cells.len() - 1 && cells.drop_last()[i].source != buffer implies (
        #[trigger] cells[i]).source != buffer by {
            assert(cells.drop_last()[i] == cells[i]);
        }
    }
}

/// In a numbered notebook, the cell found by a number has that number, and there is one for every
/// number from 1 to the number of cells.
pub proof fn lemma_found_by_number(tree: Seq<Cell>, id: CellId)
    requires
        numbered(tree),
        id.0 >= 1,
    ensures
        cells_before(tree.len(), id, Bias::Left) < tree.len() <==> id.0 <= tree.len(),
        id.0 <= tree.len() ==> tree[cells_before(tree.len(), id, Bias::Left)].id == id,
{
}

} // verus!
