//! Summaries of cells, and places between them.
use crate::cell::{Cell, CellId};
use crate::cells::{count_before, Bias, Cells};
use crate::summary::{Point, TextSummary};
use vstd::prelude::*;

verus! {

/// A summary of some of the cells of a notebook.
#[derive(Clone, Copy, Debug, PartialEq, Eq, Structural)]
pub struct CellSummary {
    pub num_cells_inclusive: u64,
    pub text_summary: TextSummary,
}

/// The number of rows that the texts of `cells` take, with a row between any two of them.
pub open spec fn total_rows(cells: Seq<Cell>) -> nat
    decreases cells.len(),
{
    if cells.len() == 0 {
        0
    } else {
        total_rows(cells.drop_last()) + cells.last().text_summary.lines.row as nat + 1
    }
}

/// The length of the texts of `cells`, in bytes.
pub open spec fn total_len(cells: Seq<Cell>) -> nat
    decreases cells.len(),
{
    if cells.len() == 0 {
        0
    } else {
        total_len(cells.drop_last()) + cells.last().text_summary.len as nat
    }
}

/// Whether the extent of the texts of `cells` can be written as a [`TextSummary`].
pub open spec fn summable(cells: Seq<Cell>) -> bool {
    total_rows(cells) <= u32::MAX && total_len(cells) <= usize::MAX
}

/// The extent of the texts of `cells`.
pub open spec fn total_extent(cells: Seq<Cell>) -> TextSummary {
    TextSummary {
        len: total_len(cells) as usize,
        lines: Point {
            row: total_rows(cells) as u32,
            column: if cells.len() == 0 {
                0
            } else {
                cells.last().text_summary.lines.column
            },
        },
    }
}

impl Default for CellSummary {
    fn default() -> (summary: CellSummary)
        ensures
            summary == CellSummary::nothing(),
    {
        CellSummary { num_cells_inclusive: 0, text_summary: TextSummary::zero() }
    }
}

impl CellSummary {
    /// The summary of no cells.
    pub open spec fn nothing() -> CellSummary {
        CellSummary {
            num_cells_inclusive: 0,
            text_summary: TextSummary { len: 0, lines: Point { row: 0, column: 0 } },
        }
    }

    /// Whether the summary of what this and then `other` summarise can be written down.
    pub open spec fn can_add(self, other: CellSummary) -> bool {
        &&& self.num_cells_inclusive + other.num_cells_inclusive <= u64::MAX
        &&& self.text_summary.can_append(other.text_summary)
    }

    /// The summary of what this and then `other` summarise.
    pub open spec fn added(self, other: CellSummary) -> CellSummary {
        CellSummary {
            num_cells_inclusive: (self.num_cells_inclusive + other.num_cells_inclusive) as u64,
            text_summary: self.text_summary.appended(other.text_summary),
        }
    }

    /// Adds what `summary` summarises.
    pub fn add_summary(&mut self, summary: &CellSummary)
        requires
            old(self).can_add(*summary),
        ensures
            *final(self) == old(self).added(*summary),
    {
        self.num_cells_inclusive += summary.num_cells_inclusive;
        self.text_summary.append(&summary.text_summary);
    }
}

impl Cell {
    /// The summary of the cell alone: its text, and the row that follows it.
    pub open spec fn summarized(self) -> CellSummary {
        let lines = self.text_summary.lines;
        CellSummary {
            num_cells_inclusive: 1,
            text_summary: TextSummary {
                lines: Point { row: (lines.row + 1) as u32, ..lines },
                ..self.text_summary
            },
        }
    }

    /// The summary of the cell alone: its text, and the row that follows it.
    pub fn summary(&self) -> (summary: CellSummary)
        requires
            self.text_summary.lines.row < u32::MAX,
        ensures
            summary == self.summarized(),
    {
        let mut text_summary = self.text_summary;
        text_summary.lines.row += 1;
        CellSummary { num_cells_inclusive: 1, text_summary }
    }

    /// The place by which the cell is found.
    pub fn key(&self) -> (key: CellId)
        ensures
            key == self.id,
    {
        self.id
    }
}

impl CellId {
    /// Steps over the cells that `summary` summarises.
    pub fn add_summary(&mut self, summary: &CellSummary)
        requires
            old(self).0 + summary.num_cells_inclusive <= u64::MAX,
        ensures
            final(self).0 == old(self).0 + summary.num_cells_inclusive,
    {
        self.0 = self.0 + summary.num_cells_inclusive;
    }

    /// The place of the last cell that `summary` summarises.
    pub fn from_summary(summary: &CellSummary) -> (id: CellId)
        ensures
            id.0 == summary.num_cells_inclusive,
    {
        CellId(summary.num_cells_inclusive)
    }

    /// How the place compares to that of the last cell that `cursor_location` summarises.
    pub fn cmp_location(&self, cursor_location: &CellSummary) -> (order: core::cmp::Ordering)
        ensures
            order == if self.0 < cursor_location.num_cells_inclusive {
                core::cmp::Ordering::Less
            } else if self.0 == cursor_location.num_cells_inclusive {
                core::cmp::Ordering::Equal
            } else {
                core::cmp::Ordering::Greater
            },
    {
        if self.0 < cursor_location.num_cells_inclusive {
            core::cmp::Ordering::Less
        } else if self.0 == cursor_location.num_cells_inclusive {
            core::cmp::Ordering::Equal
        } else {
            core::cmp::Ordering::Greater
        }
    }
}

impl TextSummary {
    /// Appends the texts that `summary` summarises.
    pub fn add_summary(&mut self, summary: &CellSummary)
        requires
            old(self).can_append(summary.text_summary),
        ensures
            *final(self) == old(self).appended(summary.text_summary),
    {
        self.append(&summary.text_summary);
    }

    /// The extent of the texts that `summary` summarises.
    pub fn from_summary(summary: &CellSummary) -> (extent: TextSummary)
        ensures
            extent == summary.text_summary,
    {
        summary.text_summary
    }
}

/// A place between the cells of a notebook.
#[derive(Clone, Copy, Debug)]
pub struct CellCursor<'a> {
    pub tree: &'a Vec<Cell>,
    /// The number of cells in front of the place.
    pub index: usize,
}

impl<'a> CellCursor<'a> {
    /// Whether the place is one of the notebook.
    pub open spec fn wf(self) -> bool {
        self.index <= self.tree@.len()
    }

    /// Moves on to the place `target`.
    pub fn seek_forward(&mut self, target: &CellId, bias: Bias)
        requires
            old(self).wf(),
            old(self).index <= crate::cells::cells_before(old(self).tree@.len(), *target, bias),
        ensures
            final(self).wf(),
            final(self).tree == old(self).tree,
            final(self).index == crate::cells::cells_before(old(self).tree@.len(), *target, bias),
    {
        self.index = count_before(self.tree.len(), *target, bias);
    }

    /// The cell behind the place, if there is one.
    pub fn item(&self) -> (cell: Option<&'a Cell>)
        ensures
            cell == if self.index < self.tree@.len() {
                Some(&self.tree@[self.index as int])
            } else {
                None
            },
    {
        if self.index < self.tree.len() {
            Some(&self.tree[self.index])
        } else {
            None
        }
    }

    /// The cell in front of the place, if there is one.
    pub fn prev_item(&self) -> (cell: Option<&'a Cell>)
        requires
            self.wf(),
        ensures
            cell == if self.index > 0 {
                Some(&self.tree@[self.index - 1])
            } else {
                None
            },
    {
        if self.index > 0 {
            Some(&self.tree[self.index - 1])
        } else {
            None
        }
    }

    /// Moves on to the place `end` and returns the summary of the cells that were passed.
    pub fn summary(&mut self, end: &CellId, bias: Bias) -> (summary: CellSummary)
        requires
            old(self).wf(),
            old(self).index <= crate::cells::cells_before(old(self).tree@.len(), *end, bias),
            summable(
                old(self).tree@.subrange(
                    old(self).index as int,
                    crate::cells::cells_before(old(self).tree@.len(), *end, bias),
                ),
            ),
        ensures
            final(self).wf(),
            final(self).tree == old(self).tree,
            final(self).index == crate::cells::cells_before(old(self).tree@.len(), *end, bias),
            summary.num_cells_inclusive == final(self).index - old(self).index,
            summary.text_summary == total_extent(
                old(self).tree@.subrange(old(self).index as int, final(self).index as int),
            ),
    {
        let ghost all = self.tree@;
        let ghost from = self.index as int;
        let to = count_before(self.tree.len(), *end, bias);
        let mut summary = CellSummary::default();
        while self.index < to
            invariant
                self.tree@ == all,
                self.tree == old(self).tree,
                0 <= from <= self.index <= to <= all.len(),
                summable(all.subrange(from, to as int)),
                summary.num_cells_inclusive == self.index - from,
                summary.text_summary == total_extent(all.subrange(from, self.index as int)),
            decreases to - self.index,
        {
            let ghost passed = all.subrange(from, self.index as int);
            proof {
                let next = all.subrange(from, self.index + 1);
                assert(next.drop_last() =~= passed);
                assert(next.last() == all[self.index as int]);
                lemma_total_prefix(all.subrange(from, to as int), self.index + 1 - from);
                assert(all.subrange(from, to as int).take(self.index + 1 - from) =~= next);
            }
            summary.add_summary(&self.tree[self.index].summary());
            self.index += 1;
        }
        summary
    }
}

/// The first of the cells take no more rows and are no longer than all of them.
pub proof fn lemma_total_prefix(cells: Seq<Cell>, count: int)
    requires
        0 <= count <= cells.len(),
    ensures
        total_rows(cells.take(count)) <= total_rows(cells),
        total_len(cells.take(count)) <= total_len(cells),
    decreases cells.len(),
{
    if count == cells.len() {
        assert(cells.take(count) =~= cells);
    } else {
        lemma_total_prefix(cells.drop_last(), count);
        assert(cells.drop_last().take(count) =~= cells.take(count));
    }
}

impl Cells {
    /// The summary of all cells.
    pub fn summary(&self) -> (summary: CellSummary)
        requires
            summable(self.tree@),
        ensures
            summary.num_cells_inclusive == self.tree@.len(),
            summary.text_summary == total_extent(self.tree@),
    {
        let mut summary = CellSummary::default();
        let mut i: usize = 0;
        while i < self.tree.len()
            invariant
                i <= self.tree@.len(),
                summable(self.tree@),
                summary.num_cells_inclusive == i,
                summary.text_summary == total_extent(self.tree@.take(i as int)),
            decreases self.tree@.len() - i,
        {
            proof {
                let next = self.tree@.take(i + 1);
                assert(next.drop_last() =~= self.tree@.take(i as int));
                assert(next.last() == self.tree@[i as int]);
                lemma_total_prefix(self.tree@, i + 1);
            }
            summary.add_summary(&self.tree[i].summary());
            i += 1;
        }
        proof {
            assert(self.tree@.take(i as int) =~= self.tree@);
        }
        summary
    }

    /// The place in front of the first cell.
    pub fn cursor(&self) -> (cursor: CellCursor<'_>)
        ensures
            cursor.wf(),
            cursor.tree == &self.tree,
            cursor.index == 0,
    {
        CellCursor { tree: &self.tree, index: 0 }
    }
}

} // verus!
