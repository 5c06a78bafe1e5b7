//! Excerpts of several buffers, shown one after the other as a single text.
use crate::buffer::{BufferId, Buffers};
use vstd::prelude::*;

verus! {

/// The identity of an excerpt.
#[derive(Clone, Copy, Debug, PartialEq, Eq, Structural)]
pub struct ExcerptId(pub u64);

/// A place in a text.
#[derive(Clone, Copy, Debug, PartialEq, Eq, Structural)]
pub enum Anchor {
    /// The start of the text, whatever the text becomes.
    Min,
    /// A place inside of the text as it was when the anchor was dropped.
    At(usize),
    /// The end of the text, whatever the text becomes.
    Max,
}

/// What lies between two places of a buffer.
#[derive(Clone, Copy, Debug, PartialEq, Eq, Structural)]
pub struct Excerpt {
    pub id: ExcerptId,
    pub buffer: BufferId,
    pub start: Anchor,
    pub end: Anchor,
}

/// The anchor of what follows byte `offset`.
pub open spec fn anchor_before(offset: int) -> Anchor {
    if offset == 0 {
        Anchor::Min
    } else {
        Anchor::At(offset as usize)
    }
}

/// The anchor of what comes up to byte `offset` of a text of `len` bytes.
pub open spec fn anchor_after(offset: int, len: int) -> Anchor {
    if offset == len {
        Anchor::Max
    } else {
        Anchor::At(offset as usize)
    }
}

impl Anchor {
    /// The byte at which the place lies in a text of `len` bytes.
    pub open spec fn resolved(self, len: int) -> int {
        match self {
            Anchor::Min => 0,
            Anchor::At(offset) => offset as int,
            Anchor::Max => len,
        }
    }

    /// The byte at which the place lies in a text of `len` bytes.
    pub fn resolve(&self, len: usize) -> (offset: usize)
        ensures
            offset == self.resolved(len as int),
    {
        match self {
            Anchor::Min => 0,
            Anchor::At(offset) => *offset,
            Anchor::Max => len,
        }
    }
}

impl Excerpt {
    /// Whether the excerpt shows all of its buffer, whatever that holds.
    pub open spec fn whole(self) -> bool {
        self.start is Min && self.end is Max
    }

    /// The bytes that the excerpt shows.
    pub fn range(&self, cx: &Buffers) -> (range: (usize, usize))
        requires
            self.buffer.valid(cx@),
        ensures
            ({
                let len = crate::text::byte_len(cx@[self.buffer.index as int].text) as usize;
                &&& range.0 == self.start.resolved(len as int)
                &&& range.1 == self.end.resolved(len as int)
            }),
    {
        let len = cx.read(self.buffer).len();
        (self.start.resolve(len), self.end.resolve(len))
    }
}

/// An excerpt that is made of all of a text shows all of the text, whatever the text becomes.
pub proof fn lemma_whole_excerpt_follows(excerpt: Excerpt, len: int, later_len: int)
    requires
        excerpt.start == anchor_before(0),
        excerpt.end == anchor_after(len, len),
    ensures
        excerpt.whole(),
        excerpt.start.resolved(later_len) == 0,
        excerpt.end.resolved(later_len) == later_len,
{
}

/// A sequence of excerpts.
#[derive(Debug)]
pub struct MultiBuffer {
    pub excerpts: Vec<Excerpt>,
    /// The identity that the next excerpt is given.
    pub next_id: u64,
}

/// The identities of `excerpts`, in order.
pub open spec fn excerpt_ids(excerpts: Seq<Excerpt>) -> Seq<ExcerptId> {
    excerpts.map_values(|excerpt: Excerpt| excerpt.id)
}

/// Whether no two of `excerpts` have the same identity.
pub open spec fn distinct_ids(excerpts: Seq<Excerpt>) -> bool {
    forall|i: int, j: int|
        0 <= i < j < excerpts.len() ==> (#[trigger] excerpts[i]).id != (#[trigger] excerpts[j]).id
}

/// The excerpts of the buffer behind `buffer`.
pub open spec fn excerpts_of(excerpts: Seq<Excerpt>, buffer: BufferId) -> Seq<Excerpt> {
    excerpts.filter(|excerpt: Excerpt| excerpt.buffer == buffer)
}

/// `excerpts` without those whose identities are in `ids`.
pub open spec fn without_excerpts(excerpts: Seq<Excerpt>, ids: Seq<ExcerptId>) -> Seq<Excerpt> {
    excerpts.filter(|excerpt: Excerpt| !ids.contains(excerpt.id))
}

/// The place of the excerpt `id`.
pub open spec fn excerpt_index(excerpts: Seq<Excerpt>, id: ExcerptId) -> int {
    choose|i: int| 0 <= i < excerpts.len() && (#[trigger] excerpts[i]).id == id
}

/// Whether one of `excerpts` has the identity `id`.
pub open spec fn has_excerpt(excerpts: Seq<Excerpt>, id: ExcerptId) -> bool {
    exists|i: int| 0 <= i < excerpts.len() && (#[trigger] excerpts[i]).id == id
}

/// The place right after the excerpt `previous`, or the start where `previous` is the least
/// identity.
pub open spec fn place_after(excerpts: Seq<Excerpt>, previous: ExcerptId) -> int {
    if previous == ExcerptId(0) {
        0
    } else {
        excerpt_index(excerpts, previous) + 1
    }
}

impl ExcerptId {
    /// The least identity, which no excerpt has.
    pub fn min() -> (id: ExcerptId)
        ensures
            id == ExcerptId(0),
    {
        ExcerptId(0)
    }

    /// The identity with the number `id`.
    pub fn from_proto(id: u64) -> (excerpt_id: ExcerptId)
        ensures
            excerpt_id == ExcerptId(id),
    {
        ExcerptId(id)
    }

    /// The number of the identity.
    pub fn to_proto(&self) -> (id: u64)
        ensures
            id == self.0,
    {
        self.0
    }
}

impl MultiBuffer {
    /// Every excerpt has an identity of its own, which is above the least and was given out before.
    pub open spec fn wf(self) -> bool {
        &&& self.next_id >= 1
        &&& forall|i: int|
            0 <= i < self.excerpts@.len() ==> 1 <= (#[trigger] self.excerpts@[i]).id.0
                < self.next_id
        &&& distinct_ids(self.excerpts@)
    }

    /// No excerpts.
    pub fn new() -> (multi: MultiBuffer)
        ensures
            multi.wf(),
            multi.excerpts@ == Seq::<Excerpt>::empty(),
            multi.next_id == 1,
    {
        MultiBuffer { excerpts: Vec::new(), next_id: 1 }
    }

    /// The identities of the excerpts of the buffer behind `buffer`, in order.
    pub fn excerpts_for_buffer(&self, buffer: BufferId) -> (ids: Vec<ExcerptId>)
        ensures
            ids@ == excerpt_ids(excerpts_of(self.excerpts@, buffer)),
    {
        let mut ids: Vec<ExcerptId> = Vec::new();
        let mut i: usize = 0;
        let ghost is_of = |excerpt: Excerpt| excerpt.buffer == buffer;
        while i < self.excerpts.len()
            invariant
                i <= self.excerpts.len(),
                is_of == (|excerpt: Excerpt| excerpt.buffer == buffer),
                ids@ == excerpt_ids(self.excerpts@.take(i as int).filter(is_of)),
            decreases self.excerpts.len() - i,
        {
            let excerpt = self.excerpts[i];
            proof {
                let before = self.excerpts@.take(i as int);
                assert(self.excerpts@.take(i + 1) =~= before.push(excerpt));
                before.lemma_filter_push(excerpt, is_of);
            }
            if excerpt.buffer == buffer {
                ids.push(excerpt.id);
                proof {
                    assert(ids@ =~= excerpt_ids(self.excerpts@.take(i + 1).filter(is_of)));
                }
            }
            i += 1;
        }
        proof {
            assert(self.excerpts@.take(i as int) =~= self.excerpts@);
        }
        ids
    }

    /// Puts the bytes from `start` to `end` of the buffer behind `buffer` right after the excerpt
    /// `previous`, or at the start where `previous` is the least identity.
    pub fn insert_excerpt_after(
        &mut self,
        previous: ExcerptId,
        buffer: BufferId,
        start: usize,
        end: usize,
        cx: &Buffers,
    ) -> (id: ExcerptId)
        requires
            buffer.valid(cx@),
            old(self).wf(),
            old(self).next_id < u64::MAX,
            previous == ExcerptId(0) || has_excerpt(old(self).excerpts@, previous),
        ensures
            final(self).wf(),
            id == ExcerptId(old(self).next_id),
            final(self).next_id == old(self).next_id + 1,
            0 <= place_after(old(self).excerpts@, previous) <= old(self).excerpts@.len(),
            final(self).excerpts@ == old(self).excerpts@.insert(
                place_after(old(self).excerpts@, previous),
                Excerpt {
                    id,
                    buffer,
                    start: anchor_before(start as int),
                    end: anchor_after(
                        end as int,
                        crate::text::byte_len(cx@[buffer.index as int].text) as usize as int,
                    ),
                },
            ),
    {
        let id = ExcerptId(self.next_id);
        let mut place: usize = 0;
        if previous.0 != 0 {
            let ghost index = excerpt_index(self.excerpts@, previous);
            let len = self.excerpts.len();
            while self.excerpts[place].id.0 != previous.0
                invariant
                    len == self.excerpts@.len(),
                    has_excerpt(self.excerpts@, previous),
                    index == excerpt_index(self.excerpts@, previous),
                    place <= index < self.excerpts@.len(),
                decreases self.excerpts@.len() - place,
            {
                place += 1;
            }
            place += 1;
        }
        let start = if start == 0 {
            Anchor::Min
        } else {
            Anchor::At(start)
        };
        let end = if end == cx.read(buffer).len() {
            Anchor::Max
        } else {
            Anchor::At(end)
        };
        self.excerpts.insert(place, Excerpt { id, buffer, start, end });
        self.next_id += 1;
        id
    }

    /// Takes the excerpts `ids` out.
    pub fn remove_excerpts(&mut self, ids: &Vec<ExcerptId>)
        requires
            old(self).wf(),
        ensures
            final(self).wf(),
            final(self).next_id == old(self).next_id,
            final(self).excerpts@ == without_excerpts(old(self).excerpts@, ids@),
    {
        let ghost all = self.excerpts@;
        let ghost stays = |excerpt: Excerpt| !ids@.contains(excerpt.id);
        let mut kept: Vec<Excerpt> = Vec::new();
        let mut i: usize = 0;
        while i < self.excerpts.len()
            invariant
                self.excerpts@ == all,
                i <= all.len(),
                stays == (|excerpt: Excerpt| !ids@.contains(excerpt.id)),
                kept@ == all.take(i as int).filter(stays),
            decreases all.len() - i,
        {
            let excerpt = self.excerpts[i];
            let listed = contains_id(ids, excerpt.id);
            proof {
                let before = all.take(i as int);
                assert(all.take(i + 1) =~= before.push(excerpt));
                before.lemma_filter_push(excerpt, stays);
            }
            if !listed {
                kept.push(excerpt);
            }
            i += 1;
        }
        proof {
            assert(all.take(i as int) =~= all);
            lemma_filter_distinct(all, stays);
            assert forall|i: int| 0 <= i < kept@.len() implies 1 <= (#[trigger] kept@[i]).id.0
                < self.next_id by {
                assert(kept@.contains(kept@[i]));
                all.lemma_filter_contains_rev(stays, kept@[i]);
                let a = choose|a: int| 0 <= a < all.len() && all[a] == kept@[i];
            }
        }
        self.excerpts = kept;
    }
}

/// Whether `ids` holds `id`.
fn contains_id(ids: &Vec<ExcerptId>, id: ExcerptId) -> (held: bool)
    ensures
        held == ids@.contains(id),
{
    let mut i: usize = 0;
    while i < ids.len()
        invariant
            i <= ids.len(),
            forall|j: int| 0 <= j < i ==> ids@[j] != id,
        decreases ids.len() - i,
    {
        if ids[i] == id {
            return true;
        }
        i += 1;
    }
    false
}

proof fn lemma_filter_distinct(all: Seq<Excerpt>, stays: spec_fn(Excerpt) -> bool)
    requires
        distinct_ids(all),
    ensures
        distinct_ids(all.filter(stays)),
    decreases all.len(),
{
    if all.len() > 0 {
        let rest = all.drop_last();
        lemma_filter_distinct(rest, stays);
        rest.lemma_filter_push(all.last(), stays);
        assert(rest.push(all.last()) =~= all);
        let kept = rest.filter(stays);
        assert forall|i: int| 0 <= i < kept.len() implies (#[trigger] kept[i]).id
            != all.last().id by {
            assert(kept.contains(kept[i]));
            rest.lemma_filter_contains_rev(stays, kept[i]);
            let a = choose|a: int| 0 <= a < rest.len() && rest[a] == kept[i];
            assert(all[a].id != all[all.len() - 1].id);
        }
    }
}

} // verus!
