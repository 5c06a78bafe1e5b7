//! How a notebook is read from a document.
use crate::buffer::{BufferId, BufferView, Buffers, Language};
use crate::cell::{BuildState, CellBuilder, CellBuilderView};
use crate::cells::Cells;
use crate::common::NotebookError;
use crate::json::{Json, JsonView};
use crate::notebook::{LanguageStep, Notebook, NotebookFile};
use vstd::prelude::*;
use vstd::string::*;

verus! {

/// Collects the parts of a notebook.
#[derive(Debug)]
pub struct NotebookBuilder {
    pub file: Option<NotebookFile>,
    pub metadata: Option<Vec<(String, Json)>>,
    pub nbformat: Option<usize>,
    pub nbformat_minor: Option<usize>,
    pub cell_builders: Vec<CellBuilder>,
}

/// The parts that a [`NotebookBuilder`] has collected.
pub struct NotebookBuilderView {
    pub file: Option<NotebookFile>,
    pub metadata: Option<Seq<(Seq<char>, JsonView)>>,
    pub nbformat: Option<usize>,
    pub nbformat_minor: Option<usize>,
    pub cell_builders: Seq<CellBuilderView>,
}

impl View for NotebookBuilder {
    type V = NotebookBuilderView;

    open spec fn view(&self) -> NotebookBuilderView {
        NotebookBuilderView {
            file: self.file,
            metadata: crate::json::optional_entries_view(self.metadata),
            nbformat: self.nbformat,
            nbformat_minor: self.nbformat_minor,
            cell_builders: builder_views(self.cell_builders@),
        }
    }
}

/// The parts that `builders` have collected.
pub open spec fn builder_views(builders: Seq<CellBuilder>) -> Seq<CellBuilderView> {
    builders.map_values(|builder: CellBuilder| builder@)
}

/// A builder of a notebook and the buffers at one time.
pub struct NotebookState {
    pub builder: NotebookBuilderView,
    pub buffers: Seq<BufferView>,
}

/// An entry of a document.
#[derive(Debug)]
pub struct DocumentEntry {
    pub key: String,
    pub value: Json,
}

impl DocumentEntry {
    /// Whether the extent of the source of each cell that the entry gives can be written as a
    /// [`crate::summary::TextSummary`].
    pub open spec fn readable(self) -> bool {
        self.key@ == "cells"@ ==> (self.value@.as_objects() matches Ok(items) ==> {
            &&& items.len() < u64::MAX
            &&& forall|i: int| 0 <= i < items.len() ==> cell_readable(#[trigger] items[i])
        })
    }
}

/// Whether the extent of the source of a cell can be written as a
/// [`crate::summary::TextSummary`].
pub open spec fn cell_readable(item: Seq<(Seq<char>, JsonView)>) -> bool {
    forall|i: int|
        0 <= i < item.len() && (#[trigger] item[i]).0 == "source"@ ==> (crate::cell::source_text(
            item[i].1,
        ) matches Some(text) ==> crate::summary::summarizable(text))
}

impl NotebookState {
    /// After the cell at place `id` of the document.
    pub open spec fn cell(
        self,
        id: int,
        item: Seq<(Seq<char>, JsonView)>,
        project_open: bool,
    ) -> NotebookState {
        let built = (BuildState {
            builder: CellBuilderView::empty(id as u64),
            buffers: self.buffers,
        }).entries(item, project_open);
        NotebookState {
            builder: NotebookBuilderView {
                cell_builders: self.builder.cell_builders.push(built.builder),
                ..self.builder
            },
            buffers: built.buffers,
        }
    }

    /// After all of the cells of a document, which have the numbers from 1 on.
    pub open spec fn cells(
        self,
        items: Seq<Seq<(Seq<char>, JsonView)>>,
        project_open: bool,
    ) -> NotebookState
        decreases items.len(),
    {
        if items.len() == 0 {
            self
        } else {
            self.cells(items.drop_last(), project_open).cell(
                items.len() as int,
                items.last(),
                project_open,
            )
        }
    }

    /// After an entry of a document. One that does not have the form of its key changes nothing.
    pub open spec fn entry(self, entry: DocumentEntry, project_open: bool) -> NotebookState {
        let builder = self.builder;
        let value = entry.value@;
        if entry.key@ == "metadata"@ {
            match value.as_optional_entries() {
                Ok(metadata) => NotebookState {
                    builder: NotebookBuilderView { metadata, ..builder },
                    ..self
                },
                Err(_) => self,
            }
        } else if entry.key@ == "nbformat"@ {
            match value.as_optional_count() {
                Ok(nbformat) => NotebookState {
                    builder: NotebookBuilderView { nbformat, ..builder },
                    ..self
                },
                Err(_) => self,
            }
        } else if entry.key@ == "nbformat_minor"@ {
            match value.as_optional_count() {
                Ok(nbformat_minor) => NotebookState {
                    builder: NotebookBuilderView { nbformat_minor, ..builder },
                    ..self
                },
                Err(_) => self,
            }
        } else if entry.key@ == "cells"@ {
            match value.as_objects() {
                Ok(items) => self.cells(items, project_open),
                Err(_) => self,
            }
        } else {
            self
        }
    }

    /// After all of `entries`.
    pub open spec fn entries(self, entries: Seq<DocumentEntry>, project_open: bool) -> NotebookState
        decreases entries.len(),
    {
        if entries.len() == 0 {
            self
        } else {
            self.entries(entries.drop_last(), project_open).entry(entries.last(), project_open)
        }
    }
}

impl NotebookState {
    /// Every cell of a document is taken in, in order, and they have the numbers from 1 on.
    pub proof fn lemma_every_cell_is_read(
        self,
        items: Seq<Seq<(Seq<char>, JsonView)>>,
        project_open: bool,
    )
        requires
            items.len() < u64::MAX,
        ensures
            ({
                let before = self.builder.cell_builders;
                let after = self.cells(items, project_open).builder.cell_builders;
                &&& after.len() == before.len() + items.len()
                &&& after.take(before.len() as int) == before
                &&& forall|i: int|
                    0 <= i < items.len() ==> (#[trigger] after[before.len() + i]).id == i + 1
            }),
        decreases items.len(),
    {
        let before = self.builder.cell_builders;
        let after = self.cells(items, project_open).builder.cell_builders;
        if items.len() == 0 {
            assert(after.take(before.len() as int) =~= before);
        } else {
            let rest = items.drop_last();
            self.lemma_every_cell_is_read(rest, project_open);
            let state = self.cells(rest, project_open);
            (BuildState {
                builder: CellBuilderView::empty(items.len() as u64),
                buffers: state.buffers,
            }).lemma_entries_keep_id(items.last(), project_open);
            let between = state.builder.cell_builders;
            assert(after.take(before.len() as int) =~= between.take(before.len() as int));
            assert forall|i: int| 0 <= i < items.len() implies (
            #[trigger] after[before.len() + i]).id == i + 1 by {
                if i < rest.len() {
                    assert(after[before.len() + i] == between[before.len() + i]);
                }
            }
        }
    }
}

/// Whether the buffers of `builders` are all different, and all among `buffers`.
pub open spec fn apart(builders: Seq<CellBuilder>, buffers: Seq<BufferView>) -> bool {
    &&& forall|i: int| 0 <= i < builders.len() ==> (#[trigger] builders[i]).within(0, buffers)
    &&& forall|i: int, j: int|
        #![trigger builders[i], builders[j]]
        0 <= i < j < builders.len() ==> forall|handle: BufferId| #[trigger]
            uses(builders[i], handle) ==> !uses(builders[j], handle)
}

/// Whether `handle` is one of the buffers of `builder`.
pub open spec fn uses(builder: CellBuilder, handle: BufferId) -> bool {
    builder.source == Some(handle) || builder.output_content == Some(handle)
}

impl NotebookBuilder {
    /// A builder of the notebook that is kept in `file`.
    pub fn new(file: Option<NotebookFile>) -> (builder: NotebookBuilder)
        ensures
            builder@ == (NotebookBuilderView {
                file,
                metadata: None,
                nbformat: None,
                nbformat_minor: None,
                cell_builders: Seq::empty(),
            }),
            builder.cell_builders@.len() == 0,
    {
        let builder = NotebookBuilder {
            file,
            metadata: None,
            nbformat: None,
            nbformat_minor: None,
            cell_builders: Vec::new(),
        };
        assert(builder@.cell_builders =~= Seq::<CellBuilderView>::empty());
        builder
    }

    /// Takes the cells of a document in.
    fn visit_cells(
        &mut self,
        items: Vec<Vec<(String, Json)>>,
        project_open: bool,
        cx: &mut Buffers,
    )
        requires
            items@.len() < u64::MAX,
            forall|i: int|
                0 <= i < items@.len() ==> cell_readable(
                    #[trigger] crate::json::objects_view(items@)[i],
                ),
        ensures
            (NotebookState { builder: final(self)@, buffers: final(cx)@ }) == (NotebookState {
                builder: old(self)@,
                buffers: old(cx)@,
            }).cells(crate::json::objects_view(items@), project_open),
            old(cx)@.len() <= final(cx)@.len(),
            apart(old(self).cell_builders@, old(cx)@) ==> apart(
                final(self).cell_builders@,
                final(cx)@,
            ),
            old(self).cell_builders@.len() == 0 ==> crate::cell_update::builders_numbered(
                final(self).cell_builders@,
            ),
    {
        let ghost start = NotebookState { builder: self@, buffers: cx@ };
        let ghost views = crate::json::objects_view(items@);
        let ghost before = self.cell_builders@;
        let mut id: u64 = 0;
        for item in it: items
            invariant
                it.seq() == items@,
                views == crate::json::objects_view(items@),
                items@.len() < u64::MAX,
                forall|i: int| 0 <= i < items@.len() ==> cell_readable(#[trigger] views[i]),
                id == it.index(),
                (NotebookState { builder: self@, buffers: cx@ }) == start.cells(
                    views.take(it.index() as int),
                    project_open,
                ),
                start.buffers.len() <= cx@.len(),
                apart(before, start.buffers) ==> apart(self.cell_builders@, cx@),
                before.len() == 0 ==> self.cell_builders@.len() == it.index()
                    && crate::cell_update::builders_numbered(self.cell_builders@),
        {
            let ghost i = it.index() as int;
            let ghost so_far = self.cell_builders@;
            let ghost buffers = cx@;
            let ghost state = NotebookState { builder: self@, buffers: cx@ };
            proof {
                assert(views[i] == crate::json::entries_view(item@));
                assert(cell_readable(views[i]));
                assert forall|k: int|
                    0 <= k < item@.len() && (#[trigger] item@[k]).0@
                        == "source"@ implies (crate::cell::source_text(item@[k].1@) matches Some(
                    text,
                ) ==> crate::summary::summarizable(text)) by {
                    assert(views[i][k] == (item@[k].0@, item@[k].1@));
                }
            }
            id += 1;
            let empty = CellBuilder::new(id);
            assert(empty.within(buffers.len() as int, buffers)) by {
                assert(empty@.source is None && empty@.output_content is None);
            }
            let cell_builder = empty.process_map(item, project_open, cx);
            proof {
                assert(views.take(i + 1).drop_last() =~= views.take(i));
                assert(views.take(i + 1).last() == views[i]);
                lemma_apart_push(so_far, buffers, cell_builder, cx@);
            }
            self.cell_builders.push(cell_builder);
            proof {
                assert(self@.cell_builders =~= state.builder.cell_builders.push(cell_builder@));
                assert(NotebookState { builder: self@, buffers: cx@ } == state.cell(
                    i + 1,
                    views[i],
                    project_open,
                ));
            }
        }
        proof {
            assert(views.take(views.len() as int) =~= views);
        }
    }
}

proof fn lemma_apart_push(
    builders: Seq<CellBuilder>,
    buffers: Seq<BufferView>,
    builder: CellBuilder,
    after: Seq<BufferView>,
)
    requires
        buffers.len() <= after.len(),
        builder.within(buffers.len() as int, after),
    ensures
        apart(builders, buffers) ==> apart(builders.push(builder), after),
{
    if apart(builders, buffers) {
        let all = builders.push(builder);
        assert forall|i: int| 0 <= i < all.len() implies (#[trigger] all[i]).within(0, after) by {
            if i < builders.len() {
                assert(builders[i].within(0, buffers));
            }
        }
        assert forall|i: int, j: int|
            #![trigger all[i], all[j]]
            0 <= i < j < all.len() implies forall|handle: BufferId| #[trigger]
            uses(all[i], handle) ==> !uses(all[j], handle) by {
            assert(builders[i].within(0, buffers));
            if j < builders.len() {
                assert(all[j] == builders[j] && all[i] == builders[i]);
            }
        }
    }
}

impl NotebookBuilder {
    /// Takes an entry of a document in. One that does not have the form of its key changes
    /// nothing.
    fn visit_entry(&mut self, entry: DocumentEntry, project_open: bool, cx: &mut Buffers)
        requires
            entry.readable(),
        ensures
            (NotebookState { builder: final(self)@, buffers: final(cx)@ }) == (NotebookState {
                builder: old(self)@,
                buffers: old(cx)@,
            }).entry(entry, project_open),
            old(cx)@.len() <= final(cx)@.len(),
            apart(old(self).cell_builders@, old(cx)@) ==> apart(
                final(self).cell_builders@,
                final(cx)@,
            ),
            entry.key@ != "cells"@ ==> final(self).cell_builders == old(self).cell_builders,
            old(self).cell_builders@.len() == 0 ==> crate::cell_update::builders_numbered(
                final(self).cell_builders@,
            ),
    {
        let key = entry.key.as_str();
        if crate::text::same_text(key, "metadata") {
            if let Ok(metadata) = entry.value.parse_optional_map() {
                self.metadata = metadata;
            }
        } else if crate::text::same_text(key, "nbformat") {
            if let Ok(nbformat) = entry.value.parse_optional_count() {
                self.nbformat = nbformat;
            }
        } else if crate::text::same_text(key, "nbformat_minor") {
            if let Ok(nbformat_minor) = entry.value.parse_optional_count() {
                self.nbformat_minor = nbformat_minor;
            }
        } else if crate::text::same_text(key, "cells") {
            if let Ok(items) = entry.value.parse_maps() {
                self.visit_cells(items, project_open, cx);
            }
        }
    }

    /// Takes the entries of a document in, in order. `project_open` says whether the project in
    /// which the sources are opened still is.
    pub fn visit_map(self, map: Vec<DocumentEntry>, project_open: bool, cx: &mut Buffers) -> (
        builder: NotebookBuilder)
        requires
            forall|i: int| 0 <= i < map@.len() ==> (#[trigger] map@[i]).readable(),
        ensures
            (NotebookState { builder: builder@, buffers: final(cx)@ }) == (NotebookState {
                builder: self@,
                buffers: old(cx)@,
            }).entries(map@, project_open),
            apart(self.cell_builders@, old(cx)@) ==> apart(builder.cell_builders@, final(cx)@),
            self.cell_builders@.len() == 0 && cells_once(map@)
                ==> crate::cell_update::builders_numbered(builder.cell_builders@),
    {
        let ghost start = NotebookState { builder: self@, buffers: cx@ };
        let mut builder = self;
        for entry in it: map
            invariant
                it.seq() == map@,
                forall|i: int| 0 <= i < map@.len() ==> (#[trigger] map@[i]).readable(),
                (NotebookState { builder: builder@, buffers: cx@ }) == start.entries(
                    map@.take(it.index() as int),
                    project_open,
                ),
                apart(self.cell_builders@, start.buffers) ==> apart(builder.cell_builders@, cx@),
                self.cell_builders@.len() == 0 && (forall|i: int|
                    0 <= i < it.index() ==> (#[trigger] map@[i]).key@ != "cells"@)
                    ==> builder.cell_builders@.len() == 0,
                self.cell_builders@.len() == 0 && cells_once(map@)
                    ==> crate::cell_update::builders_numbered(builder.cell_builders@),
        {
            let ghost i = it.index() as int;
            proof {
                assert(map@[i].readable());
                assert(map@.take(i + 1).drop_last() =~= map@.take(i));
                assert(map@.take(i + 1).last() == map@[i]);
            }
            builder.visit_entry(entry, project_open, cx);
        }
        assert(map@.take(map@.len() as int) =~= map@);
        builder
    }

    /// Whether the format of the notebook is known, and each of its cells has a source among
    /// `buffers` and a text whose extent can be written as a [`crate::summary::TextSummary`].
    pub open spec fn buildable(self, buffers: Seq<BufferView>) -> bool {
        &&& self.nbformat is Some
        &&& self.nbformat_minor is Some
        &&& crate::cell_update::all_buildable(self.cell_builders@, buffers)
        &&& 2 * self.cell_builders@.len() < u64::MAX
    }

    /// Puts the notebook together. Its language is still to be settled.
    pub fn build(self, cx: &mut Buffers) -> (built: (Notebook, LanguageStep))
        requires
            self.buildable(old(cx)@),
        ensures
            built.0.file == self.file,
            built.0.language is None,
            built.0.metadata == self.metadata,
            built.0.nbformat == self.nbformat->0,
            built.0.nbformat_minor == self.nbformat_minor->0,
            crate::cell_update::from_builders(
                self.cell_builders@,
                old(cx)@,
                built.0.cells,
                final(cx)@,
            ),
            built.0.client_handle is None,
            built.0.language_step(built.1),
            apart(self.cell_builders@, old(cx)@) && crate::cell_update::builders_numbered(
                self.cell_builders@,
            ) ==> built.0.wf(final(cx)@),
    {
        let ghost builders = self.cell_builders@;
        proof {
            if apart(builders, cx@) {
                lemma_apart_handles(builders, cx@);
            }
        }
        let notebook = Notebook {
            file: self.file,
            language: None,
            metadata: self.metadata,
            nbformat: self.nbformat.unwrap(),
            nbformat_minor: self.nbformat_minor.unwrap(),
            cells: Cells::from_builders(self.cell_builders, cx),
            client_handle: None,
        };
        let step = notebook.try_get_notebook_language();
        (notebook, step)
    }
}

impl Notebook {
    /// Ends the building of the notebook: takes the language in that was loaded, if one was to
    /// be, and writes the sources in it where the project is still open.
    pub fn settle_language(
        &mut self,
        loaded: Option<Result<Language, NotebookError>>,
        project_open: bool,
        cx: &mut Buffers,
    )
        requires
            crate::cells::all_valid(old(cx)@, old(self).cells.tree@),
        ensures
            *final(self) == (Notebook {
                language: match loaded {
                    Some(Ok(language)) => Some(language),
                    Some(Err(_)) => None,
                    None => old(self).language,
                },
                ..*old(self)
            }),
            final(cx)@ == (match final(self).language {
                Some(language) => if project_open {
                    crate::notebook::sources_in_language(
                        old(cx)@,
                        old(self).cells.tree@,
                        language@,
                    )
                } else {
                    old(cx)@
                },
                None => old(cx)@,
            }),
            old(self).wf(old(cx)@) ==> final(self).wf(final(cx)@),
    {
        if let Some(language) = loaded {
            self.language_loaded(language);
        }
        let ghost start = cx@;
        if project_open {
            let _ = self.try_set_source_languages(cx, None);
        }
        proof {
            if old(self).wf(start) {
                crate::cell_update::lemma_wf_with_more_buffers(self.cells, start, cx@);
            }
        }
    }
}

/// Whether the cells of a document stand under one key.
pub open spec fn cells_once(entries: Seq<DocumentEntry>) -> bool {
    forall|i: int, j: int|
        0 <= i < j < entries.len() && (#[trigger] entries[i]).key@ == "cells"@ ==> (
        #[trigger] entries[j]).key@ != "cells"@
}

proof fn lemma_apart_handles(builders: Seq<CellBuilder>, buffers: Seq<BufferView>)
    requires
        crate::cell_update::all_buildable(builders, buffers),
        apart(builders, buffers),
    ensures
        crate::cell_update::builder_handles(builders).no_duplicates(),
        forall|k: int|
            0 <= k < crate::cell_update::builder_handles(builders).len() ==> exists|i: int|
                0 <= i < builders.len() && uses(
                    #[trigger] builders[i],
                    #[trigger] crate::cell_update::builder_handles(builders)[k],
                ),
    decreases builders.len(),
{
    if builders.len() > 0 {
        let front = builders.drop_last();
        let last = builders.last();
        assert(builders[builders.len() - 1].source is Some);
        assert forall|i: int| 0 <= i < front.len() implies (#[trigger] front[i]).within(
            0,
            buffers,
        ) by {
            assert(builders[i].within(0, buffers));
        }
        assert(apart(front, buffers)) by {
            assert forall|i: int, j: int|
                #![trigger front[i], front[j]]
                0 <= i < j < front.len() implies forall|handle: BufferId| #[trigger]
                uses(front[i], handle) ==> !uses(front[j], handle) by {
                assert(front[i] == builders[i] && front[j] == builders[j]);
            }
        }
        assert(crate::cell_update::all_buildable(front, buffers)) by {
            assert forall|i: int| #![trigger front[i]] 0 <= i < front.len() implies {
                &&& front[i].source matches Some(source) && source.valid(buffers)
                &&& front[i].output_content matches Some(output) ==> output.valid(buffers)
                &&& crate::cell::measurable(front[i].source->0, front[i].output_content, buffers)
            } by {
                assert(front[i] == builders[i]);
            }
        }
        lemma_apart_handles(front, buffers);
        let before = crate::cell_update::builder_handles(front);
        let all = crate::cell_update::builder_handles(builders);
        let own = seq![last.source->0] + crate::cell_update::output_handles(last.output_content);
        assert(all =~= before + own);
        assert(last.within(0, buffers)) by {
            assert(builders[builders.len() - 1].within(0, buffers));
        }
        assert forall|k: int| 0 <= k < own.len() implies uses(last, #[trigger] own[k]) by {}
        assert forall|k: int| 0 <= k < all.len() implies exists|i: int|
            0 <= i < builders.len() && uses(#[trigger] builders[i], #[trigger] all[k]) by {
            if k < before.len() {
                let i = choose|i: int|
                    0 <= i < front.len() && uses(#[trigger] front[i], before[k]);
                assert(uses(builders[i], all[k]));
            } else {
                assert(own[k - before.len()] == all[k]);
                assert(uses(builders[builders.len() - 1], all[k]));
            }
        }
        assert forall|k: int, l: int| 0 <= k < l < all.len() implies all[k] != all[l] by {
            if l < before.len() {
                assert(before[k] != before[l]);
            } else if k < before.len() {
                let i = choose|i: int|
                    0 <= i < front.len() && uses(#[trigger] front[i], before[k]);
                assert(front[i] == builders[i]);
                assert(uses(builders[i], before[k]));
                assert(uses(last, own[l - before.len()]));
                assert(!uses(builders[builders.len() - 1], before[k]));
            }
        }
    }
}

} // verus!
