//! What holds of the cells that a document gives.
use crate::buffer::BufferView;
use crate::cell::{BuildState, CellBuilder, CellBuilderView, CellId, CellType, PhonyFileView};
use crate::cells::Cells;
use crate::json::{JsonNumberView, JsonView};
use crate::notebook::NotebookFile;
use crate::notebook_builder::{DocumentEntry, NotebookBuilderView, NotebookState};
use crate::output::IpynbCodeOutputView;
use crate::summary::TextSummary;
use vstd::prelude::*;

verus! {

/// Whether no two of `entries` have the same key.
pub open spec fn distinct_keys(entries: Seq<(Seq<char>, JsonView)>) -> bool {
    forall|i: int, j: int|
        0 <= i < j < entries.len() ==> (#[trigger] entries[i]).0 != (#[trigger] entries[j]).0
}

/// Whether none of `entries` has the key `key`.
pub open spec fn absent(entries: Seq<(Seq<char>, JsonView)>, key: Seq<char>) -> bool {
    forall|i: int| 0 <= i < entries.len() ==> (#[trigger] entries[i]).0 != key
}

/// Whether `buffers_after` begins with the buffers that were there before, with their texts and
/// languages.
pub open spec fn keeps_buffers(buffers: Seq<BufferView>, buffers_after: Seq<BufferView>) -> bool {
    &&& buffers.len() <= buffers_after.len()
    &&& forall|k: int|
        #![trigger buffers_after[k]]
        #![trigger buffers[k]]
        0 <= k < buffers.len() ==> buffers_after[k].text == buffers[k].text
            && buffers_after[k].language == buffers[k].language
}

/// Whether the buffers of the cell are two different ones, both among the buffers from the place
/// `from` on.
pub open spec fn in_place(state: BuildState, from: int) -> bool {
    &&& state.builder.source matches Some(source) ==> from <= source.index < state.buffers.len()
    &&& state.builder.output_content matches Some(output) ==> from <= output.index
        < state.buffers.len()
    &&& state.builder.source is Some ==> state.builder.source != state.builder.output_content
}

/// Whether `after` differs from `state` in nothing but what an entry under `key` may change, where
/// the buffers before the place `from` are not the cell's own.
pub open spec fn keeps_other_parts(
    state: BuildState,
    from: int,
    key: Seq<char>,
    after: BuildState,
) -> bool {
    &&& after.builder.id == state.builder.id
    &&& key != "cell_id"@ ==> after.builder.cell_id == state.builder.cell_id
    &&& key != "cell_type"@ ==> after.builder.cell_type == state.builder.cell_type
    &&& key != "metadata"@ ==> after.builder.metadata == state.builder.metadata
    &&& key != "source"@ ==> after.builder.source == state.builder.source
        && after.builder.text_summary == state.builder.text_summary
    &&& key != "execution_count"@ ==> after.builder.execution_count
        == state.builder.execution_count
    &&& key != "outputs"@ ==> after.builder.outputs == state.builder.outputs
        && after.builder.output_content == state.builder.output_content
    &&& keeps_buffers(state.buffers, after.buffers)
    &&& after.buffers.len() <= state.buffers.len() + 1
    &&& key != "source"@ && key != "outputs"@ ==> after.buffers.len() == state.buffers.len()
    &&& forall|k: int| 0 <= k < from ==> #[trigger] after.buffers[k] == state.buffers[k]
    &&& in_place(after, from)
}

/// An entry of a cell changes the part that its key names, and leaves the parts of all other keys,
/// the number of the cell, and the texts and languages of all buffers as they are. Only a source
/// or outputs bring a buffer, and one at most. Of the buffers that are not the cell's own, nothing
/// changes at all.
pub proof fn lemma_entry_keeps_other_parts(
    state: BuildState,
    from: int,
    key: Seq<char>,
    value: JsonView,
    project_open: bool,
)
    requires
        in_place(state, from),
        0 <= from <= state.buffers.len() < usize::MAX,
    ensures
        keeps_other_parts(state, from, key, state.entry(key, value, project_open)),
{
}

/// Each part of a cell is what the entry under its key says. A part of the wrong form is left out,
/// unless it is a source or outputs: those stay as they were.
pub proof fn lemma_entry_sets_its_part(
    state: BuildState,
    from: int,
    value: JsonView,
    project_open: bool,
)
    requires
        in_place(state, from),
        0 <= from <= state.buffers.len() < usize::MAX,
    ensures
        state.entry("cell_id"@, value, project_open).builder.cell_id == (match value {
            JsonView::String(text) => Some(text),
            _ => None,
        }),
        state.entry("cell_type"@, value, project_open).builder.cell_type == (if value
            == JsonView::String("raw"@) {
            Some(CellType::Raw)
        } else if value == JsonView::String("markdown"@) {
            Some(CellType::Markdown)
        } else if value == JsonView::String("code"@) {
            Some(CellType::Code)
        } else {
            None
        }),
        state.entry("metadata"@, value, project_open).builder.metadata == (match value {
            JsonView::Object(entries) => Some(entries),
            _ => None,
        }),
        ({
            let count = state.entry(
                "execution_count"@,
                value,
                project_open,
            ).builder.execution_count;
            match value {
                JsonView::Number(JsonNumberView::Unsigned(number)) => if number <= usize::MAX {
                    count == Some(number as usize)
                } else {
                    count is None
                },
                _ => count is None,
            }
        }),
        ({
            let after = state.entry("source"@, value, project_open);
            match crate::cell::source_text(value) {
                Some(text) => {
                    &&& after.builder.text_summary == Some(crate::summary::summary_of(text))
                    &&& if project_open {
                        &&& after.builder.source matches Some(source)
                        &&& source.index == state.buffers.len()
                        &&& after.buffers.len() == state.buffers.len() + 1
                        &&& after.buffers[source.index as int].text == crate::text::normalized(text)
                        &&& after.buffers[source.index as int].language is None
                    } else {
                        after.builder.source == state.builder.source && after.buffers
                            == state.buffers
                    }
                },
                None => after == state,
            }
        }),
        ({
            let after = state.entry("outputs"@, value, project_open);
            match IpynbCodeOutputView::read_all(value) {
                Ok(Some(list)) => {
                    &&& after.builder.outputs == Some(list)
                    &&& if list.len() > 0 {
                        &&& after.builder.output_content matches Some(output)
                        &&& output.index == state.buffers.len()
                        &&& after.buffers.len() == state.buffers.len() + 1
                        &&& after.buffers[output.index as int].text == crate::text::normalized(
                            crate::output::shown_text(list),
                        )
                        &&& after.buffers[output.index as int].language is None
                        &&& after.buffers[output.index as int].file matches Some(file)
                        &&& output_title(file, state.builder.id, state.builder.cell_id)
                    } else {
                        after.builder.output_content is None && after.buffers.len()
                            == state.buffers.len()
                    }
                },
                Ok(None) => {
                    &&& after.builder.outputs is None
                    &&& after.builder.output_content is None
                    &&& after.buffers.len() == state.buffers.len()
                },
                Err(_) => after == state,
            }
        }),
{
    lemma_keys_differ();
    lemma_type_names_differ();
}

/// Whether `file` gives an excerpt the title of the source of cell `id`.
pub open spec fn source_title(
    file: PhonyFileView,
    id: u64,
    cell_id: Option<Seq<char>>,
    cell_type: CellType,
) -> bool {
    let label = match cell_type {
        CellType::Raw => "(Raw)  "@,
        CellType::Markdown => "(Markdown)  "@,
        CellType::Code => "(Code)  "@,
        CellType::Chat => "(Chat)  "@,
    };
    &&& file.title == seq![label, "Cell "@ + crate::text::decimal(id as nat)]
    &&& file.cell_idx == CellId(id)
    &&& file.cell_id == cell_id
    &&& file.worktree_id == 0
}

/// Whether `file` gives an excerpt the title of the output of cell `id`.
pub open spec fn output_title(file: PhonyFileView, id: u64, cell_id: Option<Seq<char>>) -> bool {
    &&& file.title == seq!["[Output — Cell "@ + crate::text::decimal(id as nat) + "]"@]
    &&& file.cell_idx == CellId(id)
    &&& file.cell_id == cell_id
    &&& file.worktree_id == 0
}

/// An excerpt of a source is titled by the type and the number of its cell, one of an output by
/// the number alone.
pub proof fn lemma_titles_of_excerpts(idx: u64, cell_id: Option<Seq<char>>, cell_type: CellType)
    ensures
        source_title(
            crate::cell::excerpt_file(idx, cell_id, cell_type, false),
            idx,
            cell_id,
            cell_type,
        ),
        output_title(crate::cell::excerpt_file(idx, cell_id, cell_type, true), idx, cell_id),
{
    reveal_strlit("(");
    reveal_strlit(")  ");
    reveal_strlit("Raw");
    reveal_strlit("Markdown");
    reveal_strlit("Code");
    reveal_strlit("Chat");
    reveal_strlit("(Raw)  ");
    reveal_strlit("(Markdown)  ");
    reveal_strlit("(Code)  ");
    reveal_strlit("(Chat)  ");
    assert("("@ + "Raw"@ + ")  "@ =~= "(Raw)  "@);
    assert("("@ + "Markdown"@ + ")  "@ =~= "(Markdown)  "@);
    assert("("@ + "Code"@ + ")  "@ =~= "(Code)  "@);
    assert("("@ + "Chat"@ + ")  "@ =~= "(Chat)  "@);
}

proof fn lemma_keys_differ()
    ensures
        "cell_id"@ != "cell_type"@ && "cell_id"@ != "metadata"@ && "cell_id"@ != "source"@
            && "cell_id"@ != "execution_count"@ && "cell_id"@ != "outputs"@,
        "cell_type"@ != "metadata"@ && "cell_type"@ != "source"@ && "cell_type"@
            != "execution_count"@ && "cell_type"@ != "outputs"@,
        "metadata"@ != "source"@ && "metadata"@ != "execution_count"@ && "metadata"@ != "outputs"@,
        "source"@ != "execution_count"@ && "source"@ != "outputs"@,
        "execution_count"@ != "outputs"@,
{
    reveal_strlit("cell_id");
    reveal_strlit("cell_type");
    reveal_strlit("metadata");
    reveal_strlit("source");
    reveal_strlit("execution_count");
    reveal_strlit("outputs");
    assert("cell_id"@.len() == 7 && "cell_type"@.len() == 9 && "metadata"@.len() == 8);
    assert("source"@.len() == 6 && "execution_count"@.len() == 15 && "outputs"@.len() == 7);
    assert("cell_id"@[0] == 'c');
    assert("outputs"@[0] == 'o');
}

proof fn lemma_type_names_differ()
    ensures
        "raw"@ != "markdown"@ && "raw"@ != "code"@ && "markdown"@ != "code"@,
{
    reveal_strlit("raw");
    reveal_strlit("markdown");
    reveal_strlit("code");
    assert("raw"@.len() == 3 && "markdown"@.len() == 8 && "code"@.len() == 4);
}

/// Whether the parts of a builder and the texts of its buffers are those that `entries` give for
/// the cell with number `id`: each part by the entry under its own key, wherever it stands.
pub open spec fn reads(
    state: BuildState,
    id: u64,
    entries: Seq<(Seq<char>, JsonView)>,
    project_open: bool,
) -> bool {
    let builder = state.builder;
    let buffers = state.buffers;
    &&& builder.id == id
    &&& absent(entries, "cell_id"@) ==> builder.cell_id is None
    &&& absent(entries, "cell_type"@) ==> builder.cell_type is None
    &&& absent(entries, "metadata"@) ==> builder.metadata is None
    &&& absent(entries, "source"@) ==> builder.source is None && builder.text_summary is None
    &&& absent(entries, "execution_count"@) ==> builder.execution_count is None
    &&& absent(entries, "outputs"@) ==> builder.outputs is None && builder.output_content is None
    &&& forall|i: int|
        0 <= i < entries.len() ==> reads_entry(
            builder,
            buffers,
            (#[trigger] entries[i]).0,
            entries[i].1,
            project_open,
        )
    &&& shows_title(state)
}

/// Whether the source of the cell is titled by the type and the number of the cell, once both the
/// type and the source are known.
pub open spec fn shows_title(state: BuildState) -> bool {
    state.builder.cell_type is Some && state.builder.source is Some ==> {
        &&& state.buffers[(state.builder.source->0).index as int].file matches Some(file)
        &&& source_title(
            file,
            state.builder.id,
            state.builder.cell_id,
            state.builder.cell_type->0,
        )
    }
}

/// The title of a source follows the parts of its cell: it is right after each entry.
pub proof fn lemma_entry_keeps_title(
    state: BuildState,
    key: Seq<char>,
    value: JsonView,
    project_open: bool,
)
    requires
        in_place(state, 0),
        shows_title(state),
        state.buffers.len() < usize::MAX,
    ensures
        shows_title(state.entry(key, value, project_open)),
{
    let after = state.entry(key, value, project_open);
    lemma_entry_keeps_other_parts(state, 0, key, value, project_open);
    if after.builder.cell_type is Some {
        lemma_titles_of_excerpts(
            after.builder.id,
            after.builder.cell_id,
            after.builder.cell_type->0,
        );
    }
}

proof fn lemma_other_entry_stays_read(
    before: BuildState,
    from: int,
    key: Seq<char>,
    after: BuildState,
    other: Seq<char>,
    value: JsonView,
    project_open: bool,
)
    requires
        in_place(before, from),
        0 <= from,
        keeps_other_parts(before, from, key, after),
        other != key,
        reads_entry(before.builder, before.buffers, other, value, project_open),
    ensures
        reads_entry(after.builder, after.buffers, other, value, project_open),
{
}

proof fn lemma_entry_is_read(
    before: BuildState,
    from: int,
    key: Seq<char>,
    value: JsonView,
    project_open: bool,
)
    requires
        in_place(before, from),
        0 <= from <= before.buffers.len() < usize::MAX,
        key == "source"@ ==> before.builder.source is None && before.builder.text_summary is None,
        key == "outputs"@ ==> before.builder.outputs is None && before.builder.output_content
            is None,
    ensures
        ({
            let after = before.entry(key, value, project_open);
            reads_entry(after.builder, after.buffers, key, value, project_open)
        }),
{
    lemma_entry_sets_its_part(before, from, value, project_open);
    lemma_keys_differ();
    lemma_type_names_differ();
}

/// Whether the part that `key` names is what `value` gives.
pub open spec fn reads_entry(
    builder: CellBuilderView,
    buffers: Seq<BufferView>,
    key: Seq<char>,
    value: JsonView,
    project_open: bool,
) -> bool {
    &&& key == "cell_id"@ ==> builder.cell_id == (match value {
        JsonView::String(text) => Some(text),
        _ => None,
    })
    &&& key == "cell_type"@ ==> {
        &&& value == JsonView::String("raw"@) <==> builder.cell_type == Some(CellType::Raw)
        &&& value == JsonView::String("markdown"@) <==> builder.cell_type == Some(
            CellType::Markdown,
        )
        &&& value == JsonView::String("code"@) <==> builder.cell_type == Some(CellType::Code)
        &&& builder.cell_type != Some(CellType::Chat)
    }
    &&& key == "metadata"@ ==> builder.metadata == (match value {
        JsonView::Object(metadata) => Some(metadata),
        _ => None,
    })
    &&& key == "execution_count"@ ==> match value {
        JsonView::Number(JsonNumberView::Unsigned(number)) => if number <= usize::MAX {
            builder.execution_count == Some(number as usize)
        } else {
            builder.execution_count is None
        },
        _ => builder.execution_count is None,
    }
    &&& key == "source"@ ==> match crate::cell::source_text(value) {
        Some(text) => {
            &&& builder.text_summary == Some(crate::summary::summary_of(text))
            &&& builder.source is Some <==> project_open
            &&& builder.source matches Some(source) ==> {
                &&& buffers[source.index as int].text == crate::text::normalized(text)
                &&& buffers[source.index as int].language is None
            }
        },
        None => builder.text_summary is None && builder.source is None,
    }
    &&& key == "outputs"@ ==> match IpynbCodeOutputView::read_all(value) {
        Ok(Some(list)) => {
            &&& builder.outputs == Some(list)
            &&& builder.output_content is Some <==> list.len() > 0
            &&& builder.output_content matches Some(output) ==> {
                &&& buffers[output.index as int].text == crate::text::normalized(
                    crate::output::shown_text(list),
                )
                &&& buffers[output.index as int].language is None
            }
        },
        _ => builder.outputs is None && builder.output_content is None,
    }
}

/// A cell of a document whose keys differ from each other is read by its keys, whatever the order
/// of its entries: each part is what the entry under its key gives, and no other entry touches it.
/// Above all, it has an output if and only if its outputs are a list that is not empty, whose
/// text the output holds, and its source holds the text of its source entry.
pub proof fn lemma_cell_is_read_by_its_keys(
    id: u64,
    buffers: Seq<BufferView>,
    entries: Seq<(Seq<char>, JsonView)>,
    project_open: bool,
)
    requires
        distinct_keys(entries),
        buffers.len() + entries.len() < usize::MAX,
    ensures
        ({
            let after = (BuildState { builder: CellBuilderView::empty(id), buffers }).entries(
                entries,
                project_open,
            );
            &&& reads(after, id, entries, project_open)
            &&& in_place(after, buffers.len() as int)
            &&& buffers.len() <= after.buffers.len() <= buffers.len() + entries.len()
            &&& after.buffers.take(buffers.len() as int) == buffers
        }),
    decreases entries.len(),
{
    let start = BuildState { builder: CellBuilderView::empty(id), buffers };
    let after = start.entries(entries, project_open);
    if entries.len() == 0 {
        assert(after.buffers.take(buffers.len() as int) =~= buffers);
    } else {
        let front = entries.drop_last();
        let before = start.entries(front, project_open);
        let key = entries.last().0;
        let value = entries.last().1;
        assert(distinct_keys(front)) by {
            assert forall|i: int, j: int| 0 <= i < j < front.len() implies (#[trigger] front[i]).0
                != (#[trigger] front[j]).0 by {
                assert(entries[i].0 != entries[j].0);
            }
        }
        lemma_cell_is_read_by_its_keys(id, buffers, front, project_open);
        lemma_entry_keeps_other_parts(before, buffers.len() as int, key, value, project_open);
        assert(absent(front, key)) by {
            assert forall|i: int| 0 <= i < front.len() implies (#[trigger] front[i]).0 != key by {
                assert(entries[i].0 != entries[entries.len() - 1].0);
            }
        }
        lemma_absent_in_front(entries);
        assert forall|i: int| 0 <= i < entries.len() implies reads_entry(
            after.builder,
            after.buffers,
            (#[trigger] entries[i]).0,
            entries[i].1,
            project_open,
        ) by {
            if i < front.len() {
                assert(front[i] == entries[i]);
                assert(entries[i].0 != key);
                lemma_other_entry_stays_read(
                    before,
                    buffers.len() as int,
                    key,
                    after,
                    entries[i].0,
                    entries[i].1,
                    project_open,
                );
            } else {
                lemma_entry_is_read(before, buffers.len() as int, key, value, project_open);
            }
        }
        lemma_entry_keeps_title(before, key, value, project_open);
        assert forall|k: int| 0 <= k < buffers.len() implies #[trigger] after.buffers[k]
            == buffers[k] by {
            assert(before.buffers.take(buffers.len() as int)[k] == before.buffers[k]);
        }
        assert(after.buffers.take(buffers.len() as int) =~= buffers);
    }
}

pub(crate) proof fn lemma_absent_in_front(entries: Seq<(Seq<char>, JsonView)>)
    requires
        entries.len() > 0,
    ensures
        forall|key: Seq<char>| #[trigger]
            absent(entries, key) ==> absent(entries.drop_last(), key) && entries.last().0 != key,
{
    let front = entries.drop_last();
    assert forall|key: Seq<char>| #[trigger] absent(entries, key) implies absent(front, key)
        && entries.last().0 != key by {
        assert forall|i: int| 0 <= i < front.len() implies (#[trigger] front[i]).0 != key by {
            assert(front[i] == entries[i]);
        }
        assert(entries[entries.len() - 1].0 != key);
    }
}

/// The number of the entries of all `items`.
pub open spec fn entry_count(items: Seq<Seq<(Seq<char>, JsonView)>>) -> nat
    decreases items.len(),
{
    if items.len() == 0 {
        0
    } else {
        entry_count(items.drop_last()) + items.last().len()
    }
}

/// Whether `builders` from the place `from` on are what `items` give, in order, with the numbers
/// from 1 on.
pub open spec fn reads_each(
    builders: Seq<CellBuilderView>,
    from: int,
    buffers: Seq<BufferView>,
    items: Seq<Seq<(Seq<char>, JsonView)>>,
    project_open: bool,
) -> bool {
    &&& builders.len() == from + items.len()
    &&& forall|k: int|
        0 <= k < items.len() ==> reads(
            BuildState { builder: builders[from + k], buffers },
            (k + 1) as u64,
            #[trigger] items[k],
            project_open,
        )
}

proof fn lemma_reads_with_more_buffers(
    state: BuildState,
    id: u64,
    entries: Seq<(Seq<char>, JsonView)>,
    project_open: bool,
    more: Seq<BufferView>,
)
    requires
        in_place(state, 0),
        reads(state, id, entries, project_open),
        state.buffers.len() <= more.len(),
        more.take(state.buffers.len() as int) == state.buffers,
    ensures
        reads(
            BuildState { builder: state.builder, buffers: more },
            id,
            entries,
            project_open,
        ),
{
    assert forall|k: int| 0 <= k < state.buffers.len() implies #[trigger] more[k]
        == state.buffers[k] by {
        assert(more.take(state.buffers.len() as int)[k] == more[k]);
    }
    assert forall|i: int| 0 <= i < entries.len() implies reads_entry(
        state.builder,
        more,
        (#[trigger] entries[i]).0,
        entries[i].1,
        project_open,
    ) by {
        assert(reads_entry(
            state.builder,
            state.buffers,
            entries[i].0,
            entries[i].1,
            project_open,
        ));
    }
}

/// The cells of a document are read one by one, each by its own keys, and get the numbers from 1
/// on. What was there before stays as it is, and so do all other parts of the notebook.
pub proof fn lemma_cells_are_read_by_their_keys(
    state: NotebookState,
    items: Seq<Seq<(Seq<char>, JsonView)>>,
    project_open: bool,
)
    requires
        items.len() < u64::MAX,
        forall|k: int| 0 <= k < items.len() ==> distinct_keys(#[trigger] items[k]),
        state.buffers.len() + entry_count(items) < usize::MAX,
    ensures
        ({
            let before = state.builder.cell_builders;
            let after = state.cells(items, project_open);
            &&& after.builder.file == state.builder.file
            &&& after.builder.metadata == state.builder.metadata
            &&& after.builder.nbformat == state.builder.nbformat
            &&& after.builder.nbformat_minor == state.builder.nbformat_minor
            &&& after.builder.cell_builders.take(before.len() as int) == before
            &&& reads_each(
                after.builder.cell_builders,
                before.len() as int,
                after.buffers,
                items,
                project_open,
            )
            &&& after.buffers.take(state.buffers.len() as int) == state.buffers
            &&& state.buffers.len() <= after.buffers.len() <= state.buffers.len() + entry_count(
                items,
            )
            &&& forall|k: int|
                0 <= k < items.len() ==> in_place(
                    BuildState {
                        builder: #[trigger] after.builder.cell_builders[before.len() + k],
                        buffers: after.buffers,
                    },
                    0,
                )
        }),
    decreases items.len(),
{
    let before = state.builder.cell_builders;
    let after = state.cells(items, project_open);
    if items.len() == 0 {
        assert(after.builder.cell_builders.take(before.len() as int) =~= before);
        assert(after.buffers.take(state.buffers.len() as int) =~= state.buffers);
    } else {
        let rest = items.drop_last();
        let item = items.last();
        assert forall|k: int| 0 <= k < rest.len() implies distinct_keys(#[trigger] rest[k]) by {
            assert(distinct_keys(items[k]));
        }
        assert(distinct_keys(items[items.len() - 1]));
        lemma_cells_are_read_by_their_keys(state, rest, project_open);
        let between = state.cells(rest, project_open);
        let id = items.len() as u64;
        lemma_cell_is_read_by_its_keys(id, between.buffers, item, project_open);
        let built = (BuildState {
            builder: CellBuilderView::empty(id),
            buffers: between.buffers,
        }).entries(item, project_open);
        assert(after.buffers == built.buffers);
        let builders = after.builder.cell_builders;
        let earlier = between.builder.cell_builders;
        assert(builders == earlier.push(built.builder));
        assert(builders.take(before.len() as int) =~= earlier.take(before.len() as int));
        assert(after.buffers.take(state.buffers.len() as int) =~= built.buffers.take(
            between.buffers.len() as int,
        ).take(state.buffers.len() as int));
        assert forall|k: int| 0 <= k < items.len() implies reads(
            BuildState { builder: builders[before.len() + k], buffers: after.buffers },
            (k + 1) as u64,
            #[trigger] items[k],
            project_open,
        ) by {
            if k < rest.len() {
                assert(rest[k] == items[k]);
                assert(builders[before.len() + k] == earlier[before.len() + k]);
                lemma_reads_with_more_buffers(
                    BuildState {
                        builder: earlier[before.len() + k],
                        buffers: between.buffers,
                    },
                    (k + 1) as u64,
                    rest[k],
                    project_open,
                    after.buffers,
                );
            }
        }
        assert forall|k: int| 0 <= k < items.len() implies in_place(
            BuildState {
                builder: #[trigger] builders[before.len() + k],
                buffers: after.buffers,
            },
            0,
        ) by {
            if k < rest.len() {
                assert(builders[before.len() + k] == earlier[before.len() + k]);
            }
        }
    }
}

/// An entry of a document gives the part of the notebook that its key names, and changes no other
/// part. One that does not have the form of its key, or whose key names no part, changes nothing.
pub proof fn lemma_document_entry_sets_its_part(
    state: NotebookState,
    entry: DocumentEntry,
    project_open: bool,
)
    ensures
        ({
            let after = state.entry(entry, project_open);
            let key = entry.key@;
            let value = entry.value@;
            &&& after.builder.file == state.builder.file
            &&& after.builder.metadata == (match value {
                JsonView::Object(metadata) if key == "metadata"@ => Some(metadata),
                JsonView::Null if key == "metadata"@ => None,
                _ => state.builder.metadata,
            })
            &&& after.builder.nbformat == (match value.as_optional_count() {
                Ok(count) if key == "nbformat"@ => count,
                _ => state.builder.nbformat,
            })
            &&& after.builder.nbformat_minor == (match value.as_optional_count() {
                Ok(count) if key == "nbformat_minor"@ => count,
                _ => state.builder.nbformat_minor,
            })
            &&& key == "cells"@ ==> match value.as_objects() {
                Ok(items) => after.builder.cell_builders == state.cells(
                    items,
                    project_open,
                ).builder.cell_builders && after.buffers == state.cells(
                    items,
                    project_open,
                ).buffers,
                Err(_) => after == state,
            }
            &&& key != "cells"@ ==> after.builder.cell_builders == state.builder.cell_builders
                && after.buffers == state.buffers
        }),
{
    lemma_document_keys_differ();
    if entry.key@ == "cells"@ {
        if let Ok(items) = entry.value@.as_objects() {
            lemma_cells_keep_parts(state, items, project_open);
        }
    }
}

proof fn lemma_cells_keep_parts(
    state: NotebookState,
    items: Seq<Seq<(Seq<char>, JsonView)>>,
    project_open: bool,
)
    ensures
        ({
            let after = state.cells(items, project_open).builder;
            &&& after.file == state.builder.file
            &&& after.metadata == state.builder.metadata
            &&& after.nbformat == state.builder.nbformat
            &&& after.nbformat_minor == state.builder.nbformat_minor
        }),
    decreases items.len(),
{
    if items.len() > 0 {
        lemma_cells_keep_parts(state, items.drop_last(), project_open);
    }
}

proof fn lemma_document_keys_differ()
    ensures
        "metadata"@ != "nbformat"@ && "metadata"@ != "nbformat_minor"@ && "metadata"@ != "cells"@,
        "nbformat"@ != "nbformat_minor"@ && "nbformat"@ != "cells"@,
        "nbformat_minor"@ != "cells"@,
{
    reveal_strlit("metadata");
    reveal_strlit("nbformat");
    reveal_strlit("nbformat_minor");
    reveal_strlit("cells");
    assert("metadata"@.len() == 8 && "nbformat"@.len() == 8);
    assert("nbformat_minor"@.len() == 14 && "cells"@.len() == 5);
    assert("metadata"@[0] == 'm');
    assert("nbformat"@[0] == 'n');
}

/// Whether no two of `entries` have the same key.
pub open spec fn distinct_entries(entries: Seq<DocumentEntry>) -> bool {
    forall|i: int, j: int|
        0 <= i < j < entries.len() ==> (#[trigger] entries[i]).key@ != (#[trigger] entries[j]).key@
}

/// Whether the parts of `state` are those that `entries` give: each by the entry under its own key,
/// wherever it stands.
pub open spec fn reads_document(
    state: NotebookState,
    entries: Seq<DocumentEntry>,
    project_open: bool,
) -> bool {
    &&& (forall|i: int| 0 <= i < entries.len() ==> (#[trigger] entries[i]).key@ != "metadata"@)
        ==> state.builder.metadata is None
    &&& (forall|i: int| 0 <= i < entries.len() ==> (#[trigger] entries[i]).key@ != "nbformat"@)
        ==> state.builder.nbformat is None
    &&& (forall|i: int|
        0 <= i < entries.len() ==> (#[trigger] entries[i]).key@ != "nbformat_minor"@)
        ==> state.builder.nbformat_minor is None
    &&& (forall|i: int| 0 <= i < entries.len() ==> (#[trigger] entries[i]).key@ != "cells"@)
        ==> state.builder.cell_builders.len() == 0
    &&& forall|i: int|
        0 <= i < entries.len() ==> reads_document_entry(
            state,
            #[trigger] entries[i],
            project_open,
        )
}

/// Whether the part that the key of `entry` names is what its value gives.
pub open spec fn reads_document_entry(
    state: NotebookState,
    entry: DocumentEntry,
    project_open: bool,
) -> bool {
    let key = entry.key@;
    let value = entry.value@;
    &&& key == "metadata"@ ==> state.builder.metadata == (match value {
        JsonView::Object(metadata) => Some(metadata),
        _ => None,
    })
    &&& key == "nbformat"@ ==> state.builder.nbformat == (match value.as_optional_count() {
        Ok(count) => count,
        Err(_) => None,
    })
    &&& key == "nbformat_minor"@ ==> state.builder.nbformat_minor == (
    match value.as_optional_count() {
        Ok(count) => count,
        Err(_) => None,
    })
    &&& key == "cells"@ ==> match value.as_objects() {
        Ok(items) => reads_each(
            state.builder.cell_builders,
            0,
            state.buffers,
            items,
            project_open,
        ),
        Err(_) => state.builder.cell_builders.len() == 0,
    }
}

/// Whether the keys of each cell that `entry` gives differ, and there is room for their buffers
/// after `count` others.
pub open spec fn has_distinct_cells(entry: DocumentEntry, count: nat) -> bool {
    entry.key@ == "cells"@ ==> (entry.value@.as_objects() matches Ok(items) ==> {
        &&& items.len() < u64::MAX
        &&& forall|k: int| 0 <= k < items.len() ==> distinct_keys(#[trigger] items[k])
        &&& count + entry_count(items) < usize::MAX
    })
}

/// A document whose keys differ, and so do those of each of its cells, is read by its keys,
/// whatever their order: each part of the notebook is what the entry under its key gives, and each
/// cell is read by its own keys.
pub proof fn lemma_document_is_read_by_its_keys(
    file: Option<NotebookFile>,
    buffers: Seq<BufferView>,
    entries: Seq<DocumentEntry>,
    project_open: bool,
)
    requires
        distinct_entries(entries),
        forall|i: int|
            0 <= i < entries.len() ==> has_distinct_cells(#[trigger] entries[i], buffers.len()),
    ensures
        ({
            let start = NotebookState {
                builder: NotebookBuilderView {
                    file,
                    metadata: None,
                    nbformat: None,
                    nbformat_minor: None,
                    cell_builders: Seq::empty(),
                },
                buffers,
            };
            let after = start.entries(entries, project_open);
            &&& after.builder.file == file
            &&& reads_document(after, entries, project_open)
            &&& (forall|i: int| 0 <= i < entries.len() ==> (#[trigger] entries[i]).key@ != "cells"@)
                ==> after.buffers == buffers
        }),
    decreases entries.len(),
{
    let start = NotebookState {
        builder: NotebookBuilderView {
            file,
            metadata: None,
            nbformat: None,
            nbformat_minor: None,
            cell_builders: Seq::empty(),
        },
        buffers,
    };
    if entries.len() > 0 {
        let front = entries.drop_last();
        let last = entries.last();
        assert(distinct_entries(front)) by {
            assert forall|i: int, j: int| 0 <= i < j < front.len() implies (
            #[trigger] front[i]).key@ != (#[trigger] front[j]).key@ by {
                assert(entries[i].key@ != entries[j].key@);
            }
        }
        assert forall|i: int| 0 <= i < front.len() implies has_distinct_cells(
            #[trigger] front[i],
            buffers.len(),
        ) by {
            assert(has_distinct_cells(entries[i], buffers.len()));
        }
        lemma_document_is_read_by_its_keys(file, buffers, front, project_open);
        let before = start.entries(front, project_open);
        let after = start.entries(entries, project_open);
        assert(after == before.entry(last, project_open));
        lemma_document_entry_sets_its_part(before, last, project_open);
        lemma_document_keys_differ();
        assert forall|i: int| 0 <= i < front.len() implies (#[trigger] front[i]).key@
            != last.key@ by {
            assert(entries[i].key@ != entries[entries.len() - 1].key@);
        }
        assert(has_distinct_cells(entries[entries.len() - 1], buffers.len()));
        if last.key@ == "cells"@ {
            assert(before.builder.cell_builders.len() == 0);
            assert(before.buffers == buffers);
            if let Ok(items) = last.value@.as_objects() {
                lemma_cells_are_read_by_their_keys(before, items, project_open);
            }
        }
        assert forall|i: int| 0 <= i < entries.len() implies reads_document_entry(
            after,
            #[trigger] entries[i],
            project_open,
        ) by {
            if i < front.len() {
                assert(front[i] == entries[i]);
                assert(reads_document_entry(before, front[i], project_open));
            }
        }
        lemma_front_lacks_key(entries, "metadata"@);
        lemma_front_lacks_key(entries, "nbformat"@);
        lemma_front_lacks_key(entries, "nbformat_minor"@);
        lemma_front_lacks_key(entries, "cells"@);
    }
}

proof fn lemma_front_lacks_key(entries: Seq<DocumentEntry>, key: Seq<char>)
    requires
        entries.len() > 0,
    ensures
        (forall|i: int| 0 <= i < entries.len() ==> (#[trigger] entries[i]).key@ != key) ==> {
            &&& entries.last().key@ != key
            &&& forall|i: int|
                0 <= i < entries.drop_last().len() ==> (#[trigger] entries.drop_last()[i]).key@
                    != key
        },
{
    if forall|i: int| 0 <= i < entries.len() ==> (#[trigger] entries[i]).key@ != key {
        assert(entries[entries.len() - 1].key@ != key);
        assert forall|i: int| 0 <= i < entries.drop_last().len() implies (
        #[trigger] entries.drop_last()[i]).key@ != key by {
            assert(entries[i].key@ != key);
        }
    }
}

/// A cell that is put together has the parts that were collected. It holds code unless its type was
/// given, it has no metadata unless those were given, and it was not run yet.
pub proof fn lemma_built_cell_has_its_parts(builder: CellBuilderView, buffers: Seq<BufferView>)
    requires
        builder.source is Some,
    ensures
        ({
            let cell = builder.built(buffers);
            &&& cell.id == CellId(builder.id)
            &&& cell.cell_id == builder.cell_id
            &&& builder.cell_type matches Some(cell_type) ==> cell.cell_type == cell_type
            &&& builder.cell_type is None ==> cell.cell_type == CellType::Code
            &&& builder.metadata matches Some(metadata) ==> cell.metadata == metadata
            &&& builder.metadata is None ==> cell.metadata.len() == 0
            &&& builder.source == Some(cell.source)
            &&& cell.execution_count == builder.execution_count
            &&& cell.outputs == builder.outputs
            &&& cell.output_content == builder.output_content
            &&& cell.state is None
            &&& cell.latest_execution_request_msg_id is None
            &&& crate::cell::measurable(builder.source->0, builder.output_content, buffers)
                ==> has_extent(
                cell.text_summary,
                buffers[cell.source.index as int].text,
                match cell.output_content {
                    Some(output) => Some(buffers[output.index as int].text),
                    None => None,
                },
            )
        }),
{
}

/// Whether `extent` is that of a cell with these texts: all their bytes and all their line breaks,
/// and one more row where there is an output.
pub open spec fn has_extent(
    extent: TextSummary,
    source: Seq<char>,
    output: Option<Seq<char>>,
) -> bool {
    match output {
        Some(output) => {
            &&& extent.len == crate::text::byte_len(source) + crate::text::byte_len(output)
            &&& extent.lines.row == crate::summary::line_breaks(source)
                + crate::summary::line_breaks(output) + 1
        },
        None => {
            &&& extent.len == crate::text::byte_len(source)
            &&& extent.lines.row == crate::summary::line_breaks(source)
        },
    }
}

/// A notebook that is put together has a cell for each builder, in order, with the parts of its
/// builder. No text changes, and each cell is shown under its own titles.
pub proof fn lemma_notebook_is_built_of_its_cells(
    builders: Seq<CellBuilder>,
    before: Seq<BufferView>,
    cells: Cells,
    after: Seq<BufferView>,
)
    requires
        crate::cell_update::all_buildable(builders, before),
        crate::cell_update::builders_numbered(builders),
        crate::cell_update::from_builders(builders, before, cells, after),
        cells.wf(after),
    ensures
        cells.tree@.len() == builders.len(),
        after.len() == before.len(),
        keeps_buffers(before, after),
        forall|i: int|
            0 <= i < builders.len() ==> {
                let cell = (#[trigger] cells.tree@[i])@;
                let builder = builders[i]@;
                &&& cell.id == CellId((i + 1) as u64)
                &&& cell.cell_id == builder.cell_id
                &&& builder.cell_type matches Some(cell_type) ==> cell.cell_type == cell_type
                &&& builder.cell_type is None ==> cell.cell_type == CellType::Code
                &&& builder.metadata matches Some(metadata) ==> cell.metadata == metadata
                &&& builder.metadata is None ==> cell.metadata.len() == 0
                &&& builder.source == Some(cell.source)
                &&& cell.execution_count == builder.execution_count
                &&& cell.outputs == builder.outputs
                &&& cell.output_content == builder.output_content
                &&& cell.state is None
                &&& crate::laws::place::has_titles(after, cells.tree@[i])
            },
{
    let tree = cells.tree@;
    assert forall|i: int| 0 <= i < tree.len() implies (#[trigger] tree[i]).valid(before) by {
        assert(tree[i]@ == builders[i]@.built(before));
        assert(builders[i].source is Some);
    }
    crate::laws::place::lemma_titles_of_cells(before, tree);
    assert forall|i: int| 0 <= i < builders.len() implies (#[trigger] tree[i])@
        == builders[i]@.built(before) && builders[i].id == i + 1 && builders[i]@.source is Some
        && crate::laws::place::has_titles(after, tree[i]) by {
        assert(builders[i].source is Some);
        lemma_built_cell_has_its_parts(builders[i]@, before);
    }
}

/// Where the keys of a document differ, its cells stand under one key.
pub proof fn lemma_cells_stand_under_one_key(entries: Seq<DocumentEntry>)
    requires
        distinct_entries(entries),
    ensures
        crate::notebook_builder::cells_once(entries),
{
}

/// Builders whose buffers are there and all differ are apart.
pub proof fn lemma_builders_apart(builders: Seq<CellBuilder>, buffers: Seq<BufferView>)
    requires
        forall|i: int|
            0 <= i < builders.len() ==> in_place(
                BuildState { builder: (#[trigger] builders[i])@, buffers },
                0,
            ),
        forall|i: int, j: int|
            #![trigger builders[i], builders[j]]
            0 <= i < j < builders.len() ==> {
                &&& builders[i].source is Some ==> builders[i].source != builders[j].source
                    && builders[i].source != builders[j].output_content
                &&& builders[i].output_content is Some ==> builders[i].output_content
                    != builders[j].source && builders[i].output_content
                    != builders[j].output_content
            },
    ensures
        crate::notebook_builder::apart(builders, buffers),
{
    assert forall|i: int| 0 <= i < builders.len() implies (#[trigger] builders[i]).within(
        0,
        buffers,
    ) by {
        assert(in_place(BuildState { builder: builders[i]@, buffers }, 0));
    }
}

} // verus!
