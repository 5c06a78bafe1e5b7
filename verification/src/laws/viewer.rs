//! What holds of the notebooks that are only viewed.
use crate::buffer::BufferView;
use crate::json::{JsonNumberView, JsonView};
use crate::multi_buffer::{Anchor, ExcerptId};
use crate::notebook::NotebookFile;
use crate::viewer::{
    Cell, CellBuilderView, CellId, CellState, CellType, NotebookBuilderView, ViewError,
};
use vstd::prelude::*;

verus! {

/// A type of a cell goes by its name, as it is or as the only key of an object with `null` under
/// it, and by nothing else.
pub proof fn lemma_names_of_types(value: JsonView)
    ensures
        CellType::of(value) == Some(CellType::Raw) <==> value == JsonView::String("Raw"@) || value
            == JsonView::Object(seq![("Raw"@, JsonView::Null)]),
        CellType::of(value) == Some(CellType::Markdown) <==> value == JsonView::String(
            "Markdown"@,
        ) || value == JsonView::Object(seq![("Markdown"@, JsonView::Null)]),
        CellType::of(value) == Some(CellType::Code) <==> value == JsonView::String("Code"@) || value
            == JsonView::Object(seq![("Code"@, JsonView::Null)]),
{
    reveal_strlit("Raw");
    reveal_strlit("Markdown");
    reveal_strlit("Code");
    assert("Raw"@.len() == 3 && "Markdown"@.len() == 8 && "Code"@.len() == 4);
    if let JsonView::Object(entries) = value {
        if entries.len() == 1 && entries[0].1 is Null {
            assert(entries =~= seq![(entries[0].0, JsonView::Null)]);
        }
    }
    assert(seq![("Raw"@, JsonView::Null)][0].0 == "Raw"@);
    assert(seq![("Markdown"@, JsonView::Null)][0].0 == "Markdown"@);
    assert(seq![("Code"@, JsonView::Null)][0].0 == "Code"@);
}

/// Whether the source of the cell is among the buffers from the place `from` on.
pub open spec fn source_from(state: CellState, from: int) -> bool {
    state.builder.source matches Some(source) ==> from <= source.index < state.buffers.len()
}

/// Whether the part that `key` names is what `value` gives.
pub open spec fn gives(
    state: CellState,
    key: Seq<char>,
    value: JsonView,
) -> bool {
    let builder = state.builder;
    &&& key == "cell_id"@ ==> builder.cell_id == (match value {
        JsonView::String(text) => Some(text),
        _ => None,
    })
    &&& key == "cell_type"@ ==> builder.cell_type == CellType::of(value)
    &&& key == "metadata"@ ==> builder.metadata == (match value {
        JsonView::Object(metadata) => Some(metadata),
        _ => None,
    })
    &&& key == "execution_count"@ ==> match value {
        JsonView::Number(JsonNumberView::Unsigned(number)) => if number <= usize::MAX {
            builder.execution_count == Some(number as usize)
        } else {
            builder.execution_count is None
        },
        _ => builder.execution_count is None,
    }
    &&& key == "source"@ ==> {
        &&& builder.source matches Some(source)
        &&& state.buffers[source.index as int].text == (match value {
            JsonView::String(text) => crate::text::normalized(text),
            _ => Seq::empty(),
        })
        &&& state.buffers[source.index as int].file is None
        &&& state.buffers[source.index as int].language is None
    }
}

/// An entry of a cell that is viewed gives the part that its key names, and leaves all other parts
/// and all buffers that were there as they are. Only a source brings a buffer: an empty one, where
/// it is no string.
pub proof fn lemma_viewed_entry_gives_its_part(
    state: CellState,
    from: int,
    key: Seq<char>,
    value: JsonView,
)
    requires
        source_from(state, from),
        0 <= from <= state.buffers.len() < usize::MAX,
    ensures
        ({
            let after = state.entry(key, value);
            &&& gives(after, key, value)
            &&& source_from(after, from)
            &&& after.builder.idx == state.builder.idx
            &&& key != "cell_id"@ ==> after.builder.cell_id == state.builder.cell_id
            &&& key != "cell_type"@ ==> after.builder.cell_type == state.builder.cell_type
            &&& key != "metadata"@ ==> after.builder.metadata == state.builder.metadata
            &&& key != "execution_count"@ ==> after.builder.execution_count
                == state.builder.execution_count
            &&& key != "source"@ ==> after.builder.source == state.builder.source && after.buffers
                == state.buffers
            &&& key == "source"@ ==> after.buffers.len() == state.buffers.len() + 1
                && after.buffers.take(state.buffers.len() as int) == state.buffers
        }),
{
    lemma_viewed_keys_differ();
    let after = state.entry(key, value);
    if key == "source"@ {
        assert(after.buffers.take(state.buffers.len() as int) =~= state.buffers);
        let none = Seq::<char>::empty();
        crate::text::lemma_plain_stays(none);
    }
}

proof fn lemma_viewed_keys_differ()
    ensures
        "cell_id"@ != "cell_type"@ && "cell_id"@ != "metadata"@ && "cell_id"@ != "source"@
            && "cell_id"@ != "execution_count"@,
        "cell_type"@ != "metadata"@ && "cell_type"@ != "source"@ && "cell_type"@
            != "execution_count"@,
        "metadata"@ != "source"@ && "metadata"@ != "execution_count"@,
        "source"@ != "execution_count"@,
{
    reveal_strlit("cell_id");
    reveal_strlit("cell_type");
    reveal_strlit("metadata");
    reveal_strlit("source");
    reveal_strlit("execution_count");
    assert("cell_id"@.len() == 7 && "cell_type"@.len() == 9 && "metadata"@.len() == 8);
    assert("source"@.len() == 6 && "execution_count"@.len() == 15);
}

/// A cell that is viewed and whose keys differ from each other is read by its keys, whatever the
/// order of its entries: each part is what the entry under its key gives, and a part without an
/// entry is not there.
pub proof fn lemma_viewed_cell_is_read_by_its_keys(
    idx: CellId,
    buffers: Seq<BufferView>,
    entries: Seq<(Seq<char>, JsonView)>,
)
    requires
        crate::laws::document::distinct_keys(entries),
        buffers.len() + entries.len() < usize::MAX,
    ensures
        ({
            let after = (CellState {
                builder: CellBuilderView {
                    idx,
                    cell_id: None,
                    cell_type: None,
                    metadata: None,
                    source: None,
                    execution_count: None,
                },
                buffers,
            }).entries(entries);
            &&& after.builder.idx == idx
            &&& source_from(after, buffers.len() as int)
            &&& buffers.len() <= after.buffers.len() <= buffers.len() + entries.len()
            &&& after.buffers.take(buffers.len() as int) == buffers
            &&& forall|i: int|
                0 <= i < entries.len() ==> gives(after, (#[trigger] entries[i]).0, entries[i].1)
            &&& crate::laws::document::absent(entries, "cell_id"@) ==> after.builder.cell_id is None
            &&& crate::laws::document::absent(entries, "cell_type"@) ==> after.builder.cell_type
                is None
            &&& crate::laws::document::absent(entries, "metadata"@) ==> after.builder.metadata
                is None
            &&& crate::laws::document::absent(entries, "source"@) ==> after.builder.source is None
            &&& crate::laws::document::absent(entries, "execution_count"@)
                ==> after.builder.execution_count is None
        }),
    decreases entries.len(),
{
    let start = CellState {
        builder: CellBuilderView {
            idx,
            cell_id: None,
            cell_type: None,
            metadata: None,
            source: None,
            execution_count: None,
        },
        buffers,
    };
    let after = start.entries(entries);
    if entries.len() == 0 {
        assert(after.buffers.take(buffers.len() as int) =~= buffers);
    } else {
        let front = entries.drop_last();
        let key = entries.last().0;
        let value = entries.last().1;
        assert(crate::laws::document::distinct_keys(front)) by {
            assert forall|i: int, j: int| 0 <= i < j < front.len() implies (#[trigger] front[i]).0
                != (#[trigger] front[j]).0 by {
                assert(entries[i].0 != entries[j].0);
            }
        }
        lemma_viewed_cell_is_read_by_its_keys(idx, buffers, front);
        let before = start.entries(front);
        lemma_viewed_entry_gives_its_part(before, buffers.len() as int, key, value);
        lemma_viewed_keys_differ();
        crate::laws::document::lemma_absent_in_front(entries);
        if key == "source"@ {
            assert forall|k: int| 0 <= k < before.buffers.len() implies #[trigger] after.buffers[k]
                == before.buffers[k] by {
                assert(after.buffers.take(before.buffers.len() as int)[k] == after.buffers[k]);
            }
        }
        assert(after.buffers.take(buffers.len() as int) =~= before.buffers.take(
            buffers.len() as int,
        ));
        assert forall|i: int| 0 <= i < entries.len() implies gives(
            after,
            (#[trigger] entries[i]).0,
            entries[i].1,
        ) by {
            if i < front.len() {
                assert(front[i] == entries[i]);
                assert(entries[i].0 != entries[entries.len() - 1].0);
                assert(gives(before, front[i].0, front[i].1));
            }
        }
    }
}

/// Whether the entry `value` under `key` of a document that is viewed has the form of its key. The
/// only list of cells that is taken is the empty one.
pub open spec fn is_taken(key: Seq<char>, value: JsonView) -> bool {
    &&& key == "metadata"@ ==> value is Null || (value matches JsonView::Object(entries)
        && forall|i: int| 0 <= i < entries.len() ==> (#[trigger] entries[i]).1 is String)
    &&& key == "nbformat"@ || key == "nbformat_minor"@ ==> value.as_optional_count() is Ok
    &&& key == "cells"@ ==> value == JsonView::Array(Seq::empty())
}

/// An entry of a document that is viewed gives the part that its key names, and leaves all other
/// parts as they are. It is refused if and only if it does not have the form of its key or brings a
/// cell, and a cell is refused for want of a number.
pub proof fn lemma_viewed_document_entry(
    state: NotebookBuilderView,
    key: Seq<char>,
    value: JsonView,
)
    ensures
        state.entry(key, value) is Ok <==> is_taken(key, value),
        state.entry(key, value) matches Err(error) ==> (error == ViewError::Number <==> key
            == "cells"@ && (value.as_objects() matches Ok(items) && items.len() > 0)),
        state.entry(key, value) matches Ok(after) ==> {
            &&& after.file == state.file
            &&& after.cells == state.cells
            &&& after.nbformat == (match value.as_optional_count() {
                Ok(count) if key == "nbformat"@ => count,
                _ => state.nbformat,
            })
            &&& after.nbformat_minor == (match value.as_optional_count() {
                Ok(count) if key == "nbformat_minor"@ => count,
                _ => state.nbformat_minor,
            })
            &&& key != "metadata"@ ==> after.metadata == state.metadata
            &&& key == "metadata"@ ==> crate::laws::kernel::holds_pairs(
                Some(value),
                after.metadata,
            )
        },
{
    lemma_viewed_document_keys_differ();
    if let JsonView::Object(entries) = value {
        let pairs = entries.map_values(
            |entry: (Seq<char>, JsonView)| (entry.0, entry.1->String_0),
        );
        if crate::kernel_spec::all_text_entries(entries) {
            assert(pairs.map_values(
                |pair: (Seq<char>, Seq<char>)| (pair.0, JsonView::String(pair.1)),
            ) =~= entries);
        }
    }
    if let JsonView::Array(items) = value {
        if items.len() == 0 {
            assert(items =~= Seq::empty());
            assert(crate::json::all_objects(items));
        }
    }
}

proof fn lemma_viewed_document_keys_differ()
    ensures
        "metadata"@ != "nbformat"@ && "metadata"@ != "nbformat_minor"@ && "metadata"@ != "cells"@,
        "nbformat"@ != "nbformat_minor"@ && "nbformat"@ != "cells"@,
        "nbformat_minor"@ != "cells"@,
{
    reveal_strlit("metadata");
    reveal_strlit("nbformat");
    reveal_strlit("nbformat_minor");
    reveal_strlit("cells");
    assert("metadata"@.len() == 8 && "nbformat"@.len() == 8);
    assert("nbformat_minor"@.len() == 14 && "cells"@.len() == 5);
    assert("metadata"@[0] == 'm');
    assert("nbformat"@[0] == 'n');
}

/// Whether `after` holds what an entry of a document that is viewed gives.
pub open spec fn gives_part(after: NotebookBuilderView, key: Seq<char>, value: JsonView) -> bool {
    &&& key == "nbformat"@ ==> value.as_optional_count() == Ok::<
        Option<usize>,
        crate::json::ParseError,
    >(after.nbformat)
    &&& key == "nbformat_minor"@ ==> value.as_optional_count() == Ok::<
        Option<usize>,
        crate::json::ParseError,
    >(after.nbformat_minor)
    &&& key == "metadata"@ ==> crate::laws::kernel::holds_pairs(Some(value), after.metadata)
}

/// A document that is viewed and whose keys differ is taken if and only if each of its entries is.
/// Its parts are then those that the entries under their keys give, and it has no cells.
pub proof fn lemma_viewed_document_is_read_by_its_keys(
    file: Option<NotebookFile>,
    entries: Seq<(Seq<char>, JsonView)>,
)
    requires
        crate::laws::document::distinct_keys(entries),
    ensures
        match crate::viewer::read_document(file, entries) {
            Ok(after) => {
                &&& after.file == file
                &&& after.cells.len() == 0
                &&& forall|i: int|
                    0 <= i < entries.len() ==> is_taken((#[trigger] entries[i]).0, entries[i].1)
                        && gives_part(after, entries[i].0, entries[i].1)
                &&& crate::laws::document::absent(entries, "metadata"@) ==> after.metadata is None
                &&& crate::laws::document::absent(entries, "nbformat"@) ==> after.nbformat is None
                &&& crate::laws::document::absent(entries, "nbformat_minor"@)
                    ==> after.nbformat_minor is None
            },
            Err(_) => exists|i: int|
                0 <= i < entries.len() && !is_taken((#[trigger] entries[i]).0, entries[i].1),
        },
    decreases entries.len(),
{
    if entries.len() > 0 {
        let front = entries.drop_last();
        let last = entries.last();
        assert(crate::laws::document::distinct_keys(front)) by {
            assert forall|i: int, j: int| 0 <= i < j < front.len() implies (#[trigger] front[i]).0
                != (#[trigger] front[j]).0 by {
                assert(entries[i].0 != entries[j].0);
            }
        }
        lemma_viewed_document_is_read_by_its_keys(file, front);
        lemma_viewed_document_keys_differ();
        crate::laws::document::lemma_absent_in_front(entries);
        match crate::viewer::read_document(file, front) {
            Ok(before) => {
                lemma_viewed_document_entry(before, last.0, last.1);
                match before.entry(last.0, last.1) {
                    Ok(after) => {
                        assert forall|i: int| 0 <= i < entries.len() implies is_taken(
                            (#[trigger] entries[i]).0,
                            entries[i].1,
                        ) && gives_part(after, entries[i].0, entries[i].1) by {
                            if i < front.len() {
                                assert(front[i] == entries[i]);
                                assert(entries[i].0 != entries[entries.len() - 1].0);
                                assert(is_taken(front[i].0, front[i].1));
                                assert(gives_part(before, front[i].0, front[i].1));
                            }
                        }
                    },
                    Err(_) => {
                        let i = entries.len() - 1;
                        assert(!is_taken(entries[i].0, entries[i].1));
                    },
                }
            },
            Err(_) => {
                let i = choose|i: int|
                    0 <= i < front.len() && !is_taken((#[trigger] front[i]).0, front[i].1);
                assert(!is_taken(entries[i].0, entries[i].1));
            },
        }
    }
}

/// A place in a text is found again where it was marked.
pub proof fn lemma_anchors_keep_their_places(offset: int, len: int)
    requires
        0 <= offset <= usize::MAX,
    ensures
        crate::multi_buffer::anchor_before(offset).resolved(len) == offset,
        crate::multi_buffer::anchor_after(offset, len).resolved(len) == offset,
        Anchor::Min.resolved(len) == 0,
        Anchor::Max.resolved(len) == len,
        offset == 0 <==> crate::multi_buffer::anchor_before(offset) == Anchor::Min,
        offset == len <==> crate::multi_buffer::anchor_after(offset, len) == Anchor::Max,
{
}

/// A viewer shows the sources of the cells, one after the other, each from its start on and for as
/// many bytes as it has rows.
pub proof fn lemma_what_a_viewer_shows(cells: Seq<Cell>, buffers: Seq<BufferView>, i: int)
    requires
        0 <= i < cells.len() < u64::MAX,
        crate::text::byte_len(buffers[cells[i].source.index as int].text) < usize::MAX,
    ensures
        ({
            let shown = crate::viewer::shown(cells, buffers);
            let text = buffers[cells[i].source.index as int].text;
            let len = crate::text::byte_len(text) as int;
            &&& shown.len() == cells.len()
            &&& shown[i].id == ExcerptId((i + 1) as u64)
            &&& shown[i].buffer == cells[i].source
            &&& shown[i].start.resolved(len) == 0
            &&& shown[i].end.resolved(len) == text.filter(|c: char| c == '\n').len() + 1
        }),
{
    let text = buffers[cells[i].source.index as int].text;
    crate::laws::text::lemma_line_breaks_are_counted(text);
    crate::summary::lemma_extent_is_bounded(text);
}

/// The first entry that is refused decides why a document is: for want of the number of a cell, or
/// for its form.
pub proof fn lemma_first_refusal_decides(
    file: Option<NotebookFile>,
    entries: Seq<(Seq<char>, JsonView)>,
    i: int,
)
    requires
        crate::laws::document::distinct_keys(entries),
        0 <= i < entries.len(),
        forall|j: int| 0 <= j < i ==> is_taken((#[trigger] entries[j]).0, entries[j].1),
        !is_taken(entries[i].0, entries[i].1),
    ensures
        crate::viewer::read_document(file, entries) == Err::<NotebookBuilderView, ViewError>(
            if entries[i].0 == "cells"@ && (entries[i].1.as_objects() matches Ok(items)
                && items.len() > 0) {
                ViewError::Number
            } else {
                ViewError::Form
            },
        ),
{
    let front = entries.take(i);
    let upto = entries.take(i + 1);
    assert(crate::laws::document::distinct_keys(front)) by {
        assert forall|a: int, b: int| 0 <= a < b < front.len() implies (#[trigger] front[a]).0
            != (#[trigger] front[b]).0 by {
            assert(entries[a].0 != entries[b].0);
        }
    }
    lemma_viewed_document_is_read_by_its_keys(file, front);
    let start = NotebookBuilderView {
        file,
        metadata: None,
        nbformat: None,
        nbformat_minor: None,
        cells: Seq::empty(),
    };
    if crate::viewer::read_document(file, front) is Err {
        let j = choose|j: int|
            0 <= j < front.len() && !is_taken((#[trigger] front[j]).0, front[j].1);
        assert(is_taken(entries[j].0, entries[j].1));
    }
    let before = start.entries(front)->Ok_0;
    lemma_viewed_document_entry(before, entries[i].0, entries[i].1);
    assert(upto.drop_last() =~= front);
    assert(upto.last() == entries[i]);
    crate::viewer::lemma_first_refusal(start, entries, i + 1);
}

} // verus!
