//! Whether the cells of a notebook are in order.
use crate::buffer::{BufferId, Buffers};
use crate::cells::Cells;
use crate::multi_buffer::{Anchor, Excerpt, MultiBuffer};
use vstd::prelude::*;

verus! {

impl MultiBuffer {
    /// Whether every excerpt has an identity of its own, which is above the least and was given
    /// out before.
    pub fn is_in_order(&self) -> (in_order: bool)
        ensures
            in_order == self.wf(),
    {
        if self.next_id < 1 {
            return false;
        }
        let mut i: usize = 0;
        while i < self.excerpts.len()
            invariant
                i <= self.excerpts.len(),
                self.next_id >= 1,
                forall|k: int|
                    0 <= k < i ==> 1 <= (#[trigger] self.excerpts@[k]).id.0 < self.next_id,
                crate::multi_buffer::distinct_ids(self.excerpts@.take(i as int)),
            decreases self.excerpts.len() - i,
        {
            let id = self.excerpts[i].id;
            if id.0 < 1 || id.0 >= self.next_id {
                assert(!self.wf()) by {
                    assert(self.excerpts@[i as int].id == id);
                }
                return false;
            }
            let mut j: usize = 0;
            while j < i
                invariant
                    j <= i < self.excerpts.len(),
                    id == self.excerpts@[i as int].id,
                    forall|k: int| 0 <= k < j ==> (#[trigger] self.excerpts@[k]).id != id,
                decreases i - j,
            {
                if self.excerpts[j].id == id {
                    assert(self.excerpts@[j as int].id == self.excerpts@[i as int].id);
                    return false;
                }
                j += 1;
            }
            proof {
                let before = self.excerpts@.take(i as int);
                let after = self.excerpts@.take(i + 1);
                assert forall|a: int, b: int| 0 <= a < b < after.len() implies (
                #[trigger] after[a]).id != (#[trigger] after[b]).id by {
                    if b < i {
                        assert(before[a].id != before[b].id);
                    } else {
                        assert(self.excerpts@[a].id != id);
                    }
                }
            }
            i += 1;
        }
        assert(self.excerpts@.take(i as int) =~= self.excerpts@);
        true
    }
}

/// Whether no handle is there twice.
fn no_handle_twice(handles: &Vec<BufferId>) -> (once: bool)
    ensures
        once == handles@.no_duplicates(),
{
    let mut i: usize = 0;
    while i < handles.len()
        invariant
            i <= handles.len(),
            handles@.take(i as int).no_duplicates(),
        decreases handles.len() - i,
    {
        let mut j: usize = 0;
        while j < i
            invariant
                j <= i < handles.len(),
                forall|k: int| 0 <= k < j ==> (#[trigger] handles@[k]) != handles@[i as int],
            decreases i - j,
        {
            if handles[j] == handles[i] {
                assert(handles@[j as int] == handles@[i as int]);
                return false;
            }
            j += 1;
        }
        proof {
            let before = handles@.take(i as int);
            let after = handles@.take(i + 1);
            assert forall|a: int, b: int| 0 <= a < b < after.len() implies after[a]
                != after[b] by {
                if b < i {
                    assert(before[a] != before[b]);
                } else {
                    assert(handles@[a] != handles@[i as int]);
                }
            }
        }
        i += 1;
    }
    assert(handles@.take(i as int) =~= handles@);
    true
}

/// Whether each of `excerpts` shows all of a buffer, and these are the buffers behind `handles`, in
/// order.
fn show_all(excerpts: &Vec<Excerpt>, handles: &Vec<BufferId>) -> (shown: bool)
    ensures
        shown == (crate::cells::all_whole(excerpts@) && excerpts@.map_values(
            |excerpt: Excerpt| excerpt.buffer,
        ) == handles@),
{
    let ghost shown = excerpts@.map_values(|excerpt: Excerpt| excerpt.buffer);
    if excerpts.len() != handles.len() {
        assert(shown.len() != handles@.len());
        return false;
    }
    let mut i: usize = 0;
    while i < excerpts.len()
        invariant
            i <= excerpts.len() == handles.len(),
            shown == excerpts@.map_values(|excerpt: Excerpt| excerpt.buffer),
            forall|k: int|
                0 <= k < i ==> (#[trigger] excerpts@[k]).whole() && excerpts@[k].buffer
                    == handles@[k],
        decreases excerpts.len() - i,
    {
        let excerpt = excerpts[i];
        if excerpt.start != Anchor::Min || excerpt.end != Anchor::Max || excerpt.buffer
            != handles[i] {
            assert(shown[i as int] == excerpt.buffer);
            assert(excerpts@[i as int] == excerpt);
            return false;
        }
        i += 1;
    }
    assert(shown =~= handles@);
    true
}

impl Cells {
    /// Whether the cells are numbered from 1 on in order, and the excerpts show their buffers,
    /// which are in `cx`, each once, as a whole, and in order.
    pub fn is_in_order(&self, cx: &Buffers) -> (in_order: bool)
        ensures
            in_order == self.wf(cx@),
    {
        if !self.multi.is_in_order() || self.tree.len() as u64 >= u64::MAX {
            return false;
        }
        let ghost tree = self.tree@;
        let mut handles: Vec<BufferId> = Vec::new();
        let mut i: usize = 0;
        while i < self.tree.len()
            invariant
                i <= self.tree.len(),
                tree == self.tree@,
                tree.len() < u64::MAX,
                handles@ == crate::cells::all_handles(tree.take(i as int)),
                forall|k: int|
                    0 <= k < i ==> (#[trigger] tree[k]).id.0 == k + 1 && tree[k].valid(cx@),
            decreases self.tree.len() - i,
        {
            let cell = &self.tree[i];
            let output_valid = match cell.output_content {
                Some(output) => output.index < cx.models.len(),
                None => true,
            };
            if cell.id.0 != i as u64 + 1 || cell.source.index >= cx.models.len() || !output_valid {
                assert(tree[i as int] == *cell);
                assert(!(cell.id.0 == i + 1 && cell.valid(cx@)));
                return false;
            }
            let mut own = cell.buffer_handles();
            handles.append(&mut own);
            proof {
                assert(tree.take(i + 1).drop_last() =~= tree.take(i as int));
                assert(tree.take(i + 1).last() == *cell);
            }
            i += 1;
        }
        assert(tree.take(i as int) =~= tree);
        show_all(&self.multi.excerpts, &handles) && no_handle_twice(&handles)
    }
}

} // verus!
