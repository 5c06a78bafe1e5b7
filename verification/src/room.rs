//! Whether there is room for what is to be done with a notebook.
use crate::buffer::{BufferId, Buffers};
use crate::cell::{parse_source, CellBuilder, CellId};
use crate::cells::{count_before, Bias, Cells};
use crate::chat_turn::ChatTurn;
use crate::editor::NotebookEditor;
use crate::json::Json;
use crate::jupyter::message::Message;
use crate::notebook_builder::{DocumentEntry, NotebookBuilder};
use crate::summary::TextSummary;
use vstd::prelude::*;

verus! {

/// The extent of the text of a cell with these buffers, if it can be written as a
/// [`TextSummary`].
fn checked_measure(source: BufferId, output: Option<BufferId>, cx: &Buffers) -> (measure: Option<
    TextSummary,
>)
    requires
        source.valid(cx@),
        output matches Some(output) ==> output.valid(cx@),
    ensures
        measure == (if crate::cell::measurable(source, output, cx@) {
            Some(crate::cell::measured(source, output, cx@))
        } else {
            None
        }),
{
    let mut measure = cx.read(source).checked_summary()?;
    if let Some(output) = output {
        let more = cx.read(output).checked_summary()?;
        let fits = if more.lines.row == 0 {
            measure.lines.column <= u32::MAX - more.lines.column
        } else {
            measure.lines.row <= u32::MAX - more.lines.row
        };
        if !fits || measure.len > usize::MAX - more.len {
            return None;
        }
        measure.append(&more);
        if measure.lines.row == u32::MAX {
            return None;
        }
        measure.lines.row += 1;
    }
    Some(measure)
}

impl NotebookEditor {
    /// Whether there is room for `added` new cells.
    pub fn can_take(&self, added: u32, cx: &Buffers) -> (has_room: bool)
        ensures
            has_room == self.has_room(cx@, added as int),
    {
        let cells = &self.notebook.cells;
        if !cells.is_in_order(cx) {
            return false;
        }
        let ghost tree = cells.tree@;
        let ghost measured = crate::cell_update::all_measured(cx@, tree);
        let mut rows: u64 = 0;
        let mut bytes: u128 = 0;
        let mut i: usize = 0;
        while i < cells.tree.len()
            invariant
                i <= cells.tree.len(),
                cells == &self.notebook.cells,
                tree == cells.tree@,
                cells.wf(cx@),
                measured == crate::cell_update::all_measured(cx@, tree),
                forall|k: int| 0 <= k < i ==> (#[trigger] tree[k]).measurable(cx@),
                rows == crate::cell_summary::total_rows(measured.take(i as int)),
                bytes == crate::cell_summary::total_len(measured.take(i as int)),
                rows <= u32::MAX,
                bytes <= usize::MAX,
            decreases cells.tree.len() - i,
        {
            let cell = &cells.tree[i];
            assert(tree[i as int].valid(cx@));
            let Some(measure) = checked_measure(cell.source, cell.output_content, cx) else {
                assert(!tree[i as int].measurable(cx@));
                return false;
            };
            proof {
                assert(tree[i as int].measurable(cx@));
                let next = measured.take(i + 1);
                assert(next.drop_last() =~= measured.take(i as int));
                assert(next.last().text_summary == measure);
                crate::cell_summary::lemma_total_prefix(measured, i + 1);
            }
            rows = rows + measure.lines.row as u64 + 1;
            bytes = bytes + measure.len as u128;
            if rows > u32::MAX as u64 || bytes > usize::MAX as u128 {
                return false;
            }
            i += 1;
        }
        proof {
            assert(measured.take(i as int) =~= measured);
            assert(crate::cell_update::all_measurable(cx@, tree));
            let shown = cells.multi.excerpts@.map_values(
                |excerpt: crate::multi_buffer::Excerpt| excerpt.buffer,
            );
            assert(shown.len() == crate::cells::all_handles(tree).len());
        }
        let shown: u128 = cells.multi.excerpts.len() as u128 + added as u128;
        assert(added as int * shown <= 0xFFFF_FFFF * 0x1_0000_FFFF_FFFF_FFFF) by (nonlinear_arith)
            requires
                0 <= added <= 0xFFFF_FFFF,
                0 <= shown <= 0x1_0000_FFFF_FFFF_FFFF,
        ;
        rows + 2 * added as u64 <= u32::MAX as u64 && bytes + added as u128 <= usize::MAX as u128
            && (cells.tree.len() as u128) + (added as u128) < u64::MAX as u128
            && cells.multi.next_id as u128 + added as u128 * shown <= u64::MAX as u128
    }
}

impl Cells {
    /// Whether what `msg` has to say can be printed in the output of the cell at the place
    /// `cell_id`.
    pub fn can_print(&self, cell_id: &CellId, msg: &Message, cx: &Buffers) -> (printable: bool)
        ensures
            printable == crate::cell_update::printable(*self, cx@, *cell_id, *msg),
    {
        if !self.is_in_order(cx) || self.multi.next_id == u64::MAX {
            return false;
        }
        let at = count_before(self.tree.len(), *cell_id, Bias::Left);
        if at >= self.tree.len() || msg.output_text().is_none() {
            return true;
        }
        let cell = &self.tree[at];
        let ghost tree = self.tree@;
        let ghost with_buffer = crate::cell_update::with_output_buffer(cx@, *cell);
        let ghost updated = crate::cell_update::with_output(cx@, *cell);
        assert(tree[at as int].valid(cx@));
        if cell.output_content.is_some() {
            return checked_measure(cell.source, cell.output_content, cx).is_some();
        }
        let count: usize = cx.models.len();
        proof {
            reveal_strlit("");
            assert(""@ =~= Seq::<char>::empty());
            crate::text::lemma_plain_stays(""@);
            assert(cx@.len() == count);
            assert(with_buffer[updated.output_content->0.index as int].text == ""@);
            assert(crate::summary::last_line(""@) =~= ""@);
            assert(crate::text::byte_len(""@) == 0);
        }
        match cx.read(cell.source).checked_summary() {
            Some(summary) => summary.lines.row < u32::MAX,
            None => false,
        }
    }
}

impl CellBuilder {
    /// Whether the cell has a source, its buffers are in `cx`, and the extent of its text can be
    /// written as a [`TextSummary`].
    fn can_build(&self, cx: &Buffers) -> (can: bool)
        ensures
            can == crate::cell_update::all_buildable(seq![*self], cx@),
    {
        let ghost one = seq![*self];
        assert(one[0] == *self);
        let Some(source) = self.source else {
            return false;
        };
        if source.index >= cx.models.len() {
            return false;
        }
        if let Some(output) = self.output_content {
            if output.index >= cx.models.len() {
                return false;
            }
        }
        checked_measure(source, self.output_content, cx).is_some()
    }
}

impl NotebookBuilder {
    /// Whether the notebook can be put together: its format is known, and each of its cells has a
    /// source and is not too long.
    pub fn can_build(&self, cx: &Buffers) -> (can: bool)
        ensures
            can == self.buildable(cx@),
    {
        let builders = &self.cell_builders;
        let mut i: usize = 0;
        while i < builders.len()
            invariant
                i <= builders.len(),
                builders == &self.cell_builders,
                crate::cell_update::all_buildable(builders@.take(i as int), cx@),
            decreases builders.len() - i,
        {
            let can = builders[i].can_build(cx);
            proof {
                let one = seq![builders@[i as int]];
                assert(one[0] == builders@[i as int]);
                let next = builders@.take(i + 1);
                assert forall|k: int| 0 <= k < i implies next[k] == #[trigger] builders@.take(
                    i as int,
                )[k] by {}
                if can {
                    assert forall|k: int|
                        #![trigger next[k]]
                        0 <= k < next.len() implies crate::cell_update::all_buildable(
                        seq![next[k]],
                        cx@,
                    ) by {
                        if k < i {
                            assert(builders@.take(i as int)[k] == next[k]);
                        }
                    }
                }
            }
            if !can {
                return false;
            }
            i += 1;
        }
        assert(builders@.take(i as int) =~= builders@);
        self.nbformat.is_some() && self.nbformat_minor.is_some() && 2 * (builders.len() as u128)
            < u64::MAX as u128
    }
}

/// Whether the extent of the source of a cell can be written as a [`TextSummary`].
fn can_read_cell(item: &Vec<(String, Json)>) -> (can: bool)
    ensures
        can == crate::notebook_builder::cell_readable(crate::json::entries_view(item@)),
{
    let ghost views = crate::json::entries_view(item@);
    let mut i: usize = 0;
    while i < item.len()
        invariant
            i <= item.len(),
            views == crate::json::entries_view(item@),
            crate::notebook_builder::cell_readable(views.take(i as int)),
        decreases item.len() - i,
    {
        let ghost next = views.take(i + 1);
        assert(next[i as int] == (item@[i as int].0@, item@[i as int].1@));
        assert(views[i as int] == next[i as int]);
        if crate::text::same_text(item[i].0.as_str(), "source") {
            if let Some(text) = parse_source(item[i].1.clone()) {
                if TextSummary::checked_of(text.as_str()).is_none() {
                    return false;
                }
            }
        }
        assert forall|k: int| 0 <= k < i implies next[k] == #[trigger] views.take(i as int)[k] by {}
        assert forall|k: int|
            0 <= k < next.len() && (#[trigger] next[k]).0 == "source"@ implies (
        crate::cell::source_text(next[k].1) matches Some(text)
            ==> crate::summary::summarizable(text)) by {
            if k < i {
                assert(views.take(i as int)[k] == next[k]);
            }
        }
        i += 1;
    }
    assert(views.take(i as int) =~= views);
    true
}

impl DocumentEntry {
    /// Whether the extent of the source of each cell that the entry gives can be written as a
    /// [`TextSummary`].
    pub fn can_read(&self) -> (can: bool)
        ensures
            can == self.readable(),
    {
        if !crate::text::same_text(self.key.as_str(), "cells") {
            return true;
        }
        let Ok(items) = self.value.clone().parse_maps() else {
            return true;
        };
        let ghost views = crate::json::objects_view(items@);
        if items.len() as u64 == u64::MAX {
            return false;
        }
        let mut i: usize = 0;
        while i < items.len()
            invariant
                i <= items.len(),
                views == crate::json::objects_view(items@),
                self.key@ == "cells"@,
                self.value@.as_objects() == Ok::<
                    Seq<Seq<(Seq<char>, crate::json::JsonView)>>,
                    crate::json::ParseError,
                >(views),
                forall|k: int|
                    0 <= k < i ==> crate::notebook_builder::cell_readable(#[trigger] views[k]),
            decreases items.len() - i,
        {
            assert(views[i as int] == crate::json::entries_view(items@[i as int]@));
            if !can_read_cell(&items[i]) {
                return false;
            }
            i += 1;
        }
        true
    }
}

impl NotebookEditor {
    /// Whether the cells are in order, there is room for two more, and what is selected can be
    /// split off, if anything is.
    pub fn can_split(&self, active: Option<BufferId>, ranges: &Vec<(usize, usize)>, cx: &Buffers)
        -> (can: bool)
        ensures
            can == self.splits(active, ranges@, cx@),
    {
        let cells = &self.notebook.cells;
        if !cells.is_in_order(cx) {
            return false;
        }
        let ghost tree = cells.tree@;
        proof {
            let shown = cells.multi.excerpts@.map_values(
                |excerpt: crate::multi_buffer::Excerpt| excerpt.buffer,
            );
            assert(shown.len() == crate::cells::all_handles(tree).len());
        }
        let shown: u128 = cells.multi.excerpts.len() as u128;
        if cells.tree.len() as u128 + 2 >= u64::MAX as u128 || cells.multi.next_id as u128 + 2 * (
        shown + 2) > u64::MAX as u128 {
            return false;
        }
        let Some(buffer) = active else {
            return true;
        };
        let Some(index) = cells.index_by_buffer(buffer) else {
            return true;
        };
        if ranges.len() != 1 {
            return true;
        }
        proof {
            crate::cells::lemma_place_of_source(tree, buffer);
            assert(tree[index as int].valid(cx@));
        }
        let (start, end) = ranges[0];
        let text = cx.read(cells.tree[index].source).text();
        if start > end || !text.as_str().is_char_boundary(start) || !text.as_str().is_char_boundary(
            end,
        ) {
            return false;
        }
        let (before, _) = crate::text::split_text(text.as_str(), start);
        let (_, after) = crate::text::split_text(text.as_str(), end);
        TextSummary::checked_of(before.as_str()).is_some() && TextSummary::checked_of(
            after.as_str(),
        ).is_some()
    }
}

impl ChatTurn {
    /// Whether the piece `content` can be put into the answer.
    pub fn can_receive(&self, content: &str, cx: &Buffers) -> (can: bool)
        requires
            self.output.valid(cx@),
        ensures
            can == crate::chat_turn::receivable(*self, content@, cx@),
    {
        let text = cx.read(self.output).text();
        let Some(summary) = cx.read(self.output).checked_summary() else {
            return false;
        };
        proof {
            crate::summary::lemma_extent_is_bounded(content@);
        }
        let Some(piece) = TextSummary::checked_of(content) else {
            return false;
        };
        text.as_str().is_char_boundary(self.offset) && (summary.lines.column as u128) + (
        piece.len as u128) <= u32::MAX as u128 && (self.offset as u128) + (piece.len as u128) < (
        usize::MAX as u128)
    }
}

} // verus!
