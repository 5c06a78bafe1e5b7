//! What holds of the answers of a language model.
use crate::buffer::{BufferId, BufferView};
use crate::cell::{Cell, CellId, ExecutionStateView};
use crate::cells::Bias;
use crate::chat::{ChatRequest, Role, TurnEvent, TurnStep, TurnView};
use crate::chat_turn::{AnswerEvent, ChatTurn};
use crate::editor::NotebookEditor;
use crate::multi_buffer::Excerpt;
use vstd::prelude::*;
use vstd::utf8::*;

verus! {

/// `texts` one after the other.
pub open spec fn concatenated(texts: Seq<Seq<char>>) -> Seq<char>
    decreases texts.len(),
{
    if texts.len() == 0 {
        Seq::empty()
    } else {
        concatenated(texts.drop_last()) + texts.last()
    }
}

/// The number of bytes of what follows the last line feed of `text`.
pub open spec fn bytes_in_last_line(text: Seq<char>) -> nat {
    encode_utf8(crate::summary::last_line(text)).len()
}

/// Whether no line may break in front of a piece that begins with `c`: a dot, a comma, a round or
/// square bracket, a quote or a backquote, and all that is not ASCII.
pub open spec fn sticks(c: char) -> bool {
    c as u32 >= 128 || seq!['.', ',', '(', ')', '[', ']', '\'', '`'].contains(c)
}

/// Whether `inserted` is the piece `content` with nothing changed but for a line break in front of
/// it, or in place of a space at its start.
pub open spec fn brings(content: Seq<char>, inserted: Seq<char>) -> bool {
    ||| inserted == content
    ||| inserted == seq!['\n'] + content
    ||| content.len() > 0 && content[0] == ' ' && inserted == seq!['\n'] + content.drop_first()
}

/// A piece of an answer is put in as it is while the line stays within its length, or where no line
/// may break in front of it. Else a line break goes in front of it, in place of a space if it
/// begins with one. All that the piece holds beside that space is kept to its end.
pub proof fn lemma_what_a_piece_brings(text: Seq<char>, content: Seq<char>)
    ensures
        ({
            let inserted = crate::chat_turn::piece(text, content);
            &&& brings(content, inserted)
            &&& content.len() == 0 ==> inserted == content
            &&& bytes_in_last_line(text) + encode_utf8(content).len() <= 96 ==> inserted == content
            &&& content.len() > 0 && sticks(content[0]) ==> inserted == content
            &&& content.len() > 0 && !sticks(content[0]) && bytes_in_last_line(text)
                + encode_utf8(content).len() > 96 ==> inserted == seq!['\n'] + (if content[0]
                == ' ' {
                content.drop_first()
            } else {
                content
            })
        }),
{
    reveal_strlit("\n");
    assert("\n"@ =~= seq!['\n']);
    let held = seq!['.', ',', '(', ')', '[', ']', '\'', '`'];
    if content.len() > 0 {
        let c = content[0];
        if held.contains(c) {
            let i = choose|i: int| 0 <= i < held.len() && held[i] == c;
            assert(held[i] == c);
        }
        assert(held[0] == '.' && held[1] == ',' && held[2] == '(' && held[3] == ')' && held[4]
            == '[' && held[5] == ']' && held[6] == '\'' && held[7] == '`');
        assert(crate::chat_turn::holds_on(c) ==> held.contains(c));
    }
}

/// An answer whose pieces hold no carriage returns, and of which no piece makes a line too long, is
/// the text that was there followed by its pieces, to the letter.
pub proof fn lemma_answer_that_fits(text: Seq<char>, contents: Seq<Seq<char>>)
    requires
        forall|i: int| 0 <= i < contents.len() ==> !(#[trigger] contents[i]).contains('\r'),
        forall|i: int|
            0 <= i < contents.len() ==> bytes_in_last_line(
                text + concatenated(contents.take(i)),
            ) + encode_utf8(#[trigger] contents[i]).len() <= 96,
    ensures
        crate::chat_turn::answer(text, contents) == text + concatenated(contents),
    decreases contents.len(),
{
    if contents.len() == 0 {
        assert(text + concatenated(contents) =~= text);
    } else {
        let front = contents.drop_last();
        let content = contents.last();
        assert forall|i: int| 0 <= i < front.len() implies !(#[trigger] front[i]).contains('\r')
            && bytes_in_last_line(text + concatenated(front.take(i))) + encode_utf8(
            front[i],
        ).len() <= 96 by {
            assert(front[i] == contents[i]);
            assert(front.take(i) =~= contents.take(i));
        }
        lemma_answer_that_fits(text, front);
        let last = contents.len() - 1;
        assert(contents[last] == content);
        assert(contents.take(last) =~= front);
        let before = text + concatenated(front);
        lemma_what_a_piece_brings(before, content);
        lemma_without_returns(content);
        assert(before + content =~= text + concatenated(contents));
    }
}

proof fn lemma_without_returns(text: Seq<char>)
    requires
        !text.contains('\r'),
    ensures
        crate::text::plain(text),
        crate::text::normalized(text) == text,
{
    assert forall|i: int| 0 <= i < text.len() implies #[trigger] text[i] != '\r' by {
        assert(text.contains(text[i]));
    }
    crate::text::lemma_plain_stays(text);
}

/// An answer whose pieces hold no carriage returns is the text that was there followed by what its
/// pieces bring, one after the other: each piece whole, with a line break in front of it or in
/// place of a space at its start, if anything. Nothing else is added, and nothing is lost.
pub proof fn lemma_answer_holds_every_piece(text: Seq<char>, contents: Seq<Seq<char>>) -> (
    inserted: Seq<Seq<char>>)
    requires
        forall|i: int| 0 <= i < contents.len() ==> !(#[trigger] contents[i]).contains('\r'),
    ensures
        inserted.len() == contents.len(),
        forall|i: int| 0 <= i < contents.len() ==> brings(contents[i], #[trigger] inserted[i]),
        crate::chat_turn::answer(text, contents) == text + concatenated(inserted),
    decreases contents.len(),
{
    if contents.len() == 0 {
        assert(text + concatenated(Seq::empty()) =~= text);
        Seq::empty()
    } else {
        let front = contents.drop_last();
        let content = contents.last();
        assert forall|i: int| 0 <= i < front.len() implies !(#[trigger] front[i]).contains(
            '\r',
        ) by {
            assert(front[i] == contents[i]);
        }
        let last = contents.len() - 1;
        assert(contents[last] == content);
        let earlier = lemma_answer_holds_every_piece(text, front);
        let before = crate::chat_turn::answer(text, front);
        let piece = crate::chat_turn::piece(before, content);
        lemma_what_a_piece_brings(before, content);
        assert(!piece.contains('\r')) by {
            assert forall|i: int| 0 <= i < piece.len() implies piece[i] != '\r' by {
                assert(piece[i] == '\n' || content.contains(piece[i])) by {
                    if piece == content {
                        assert(content[i] == piece[i]);
                    } else if i > 0 && piece == seq!['\n'] + content {
                        assert(content[i - 1] == piece[i]);
                    } else if i > 0 {
                        assert(content[i] == content.drop_first()[i - 1]);
                        assert(content[i] == piece[i]);
                    }
                }
            }
        }
        lemma_without_returns(piece);
        let inserted = earlier.push(piece);
        assert(inserted.drop_last() =~= earlier);
        assert(text + concatenated(earlier) + piece =~= text + concatenated(inserted));
        assert forall|i: int| 0 <= i < contents.len() implies brings(
            contents[i],
            #[trigger] inserted[i],
        ) by {
            if i < front.len() {
                assert(front[i] == contents[i]);
                assert(inserted[i] == earlier[i]);
            }
        }
        inserted
    }
}

/// A piece goes in where the answer has come to, between what stands before that place and what
/// stands after it, and the next piece goes after it.
pub proof fn lemma_piece_goes_between(before: Seq<char>, after: Seq<char>, content: Seq<char>)
    ensures
        ({
            let text = before + after;
            let inserted = crate::chat_turn::piece(text, content);
            let grown = crate::chat_turn::grown(
                text,
                encode_utf8(before).len() as int,
                content,
            );
            &&& grown.0 == before + crate::text::normalized(inserted) + after
            &&& grown.1 == encode_utf8(before).len() + encode_utf8(inserted).len()
        }),
{
    crate::laws::text::lemma_parts_of_a_text(before, Seq::empty(), after);
    assert(before + Seq::<char>::empty() + after =~= before + after);
}

/// Whether `after` and `before` differ in nothing but the state of the cell with number `id`, and
/// in titles.
pub open spec fn only_state_differs(
    before: NotebookEditor,
    after: NotebookEditor,
    id: CellId,
    state: ExecutionStateView,
) -> bool {
    let tree = before.notebook.cells.tree@;
    let after_tree = after.notebook.cells.tree@;
    &&& after.chat == before.chat
    &&& after.notebook.cells.multi == before.notebook.cells.multi
    &&& after.notebook.file == before.notebook.file
    &&& after.notebook.language == before.notebook.language
    &&& after.notebook.metadata == before.notebook.metadata
    &&& after.notebook.nbformat == before.notebook.nbformat
    &&& after.notebook.nbformat_minor == before.notebook.nbformat_minor
    &&& after.notebook.client_handle == before.notebook.client_handle
    &&& after_tree.len() == tree.len()
    &&& forall|i: int|
        0 <= i < tree.len() && i != id.0 - 1 ==> #[trigger] after_tree[i] == tree[i]
    &&& same_but_state(tree[id.0 - 1], after_tree[id.0 - 1])
    &&& after_tree[id.0 - 1]@.state == Some(state)
}

/// Whether `cell` and `after` differ in nothing but their states.
pub open spec fn same_but_state(cell: Cell, after: Cell) -> bool {
    &&& after@.id == cell@.id
    &&& after@.latest_execution_request_msg_id == cell@.latest_execution_request_msg_id
    &&& after@.text_summary == cell@.text_summary
    &&& after@.cell_id == cell@.cell_id
    &&& after@.cell_type == cell@.cell_type
    &&& after@.metadata == cell@.metadata
    &&& after@.source == cell@.source
    &&& after@.execution_count == cell@.execution_count
    &&& after@.outputs == cell@.outputs
    &&& after@.output_content == cell@.output_content
}

/// What happens to an answer shows in the output of its cell and in the state of the cell, and
/// nowhere else. A piece goes into the output; the end of the answer adds a line break and the cell
/// has succeeded; a failure leaves the text as it is and the cell has failed.
pub proof fn lemma_event_shows_in_its_cell(
    before: NotebookEditor,
    turn: ChatTurn,
    buffers: Seq<BufferView>,
    event: AnswerEvent,
    after: NotebookEditor,
    turn_after: ChatTurn,
    buffers_after: Seq<BufferView>,
)
    requires
        before.notebook.wf(buffers),
        turn.output.valid(buffers),
        1 <= turn.cell_id.0 <= before.notebook.cells.tree@.len(),
        crate::chat_turn::event_taken(
            before,
            turn,
            buffers,
            event,
            after,
            turn_after,
            buffers_after,
        ),
    ensures
        buffers_after.len() == buffers.len(),
        turn_after.cell_id == turn.cell_id,
        turn_after.output == turn.output,
        forall|k: int|
            #![trigger buffers_after[k]]
            0 <= k < buffers.len() ==> buffers_after[k].language == buffers[k].language && (k
                != turn.output.index ==> buffers_after[k].text == buffers[k].text),
        ({
            let text = buffers[turn.output.index as int].text;
            let now = buffers_after[turn.output.index as int].text;
            match event {
                AnswerEvent::Opened(Ok(_)) => after == before && turn_after == turn && now == text,
                AnswerEvent::Item(Some(Ok(content))) => {
                    &&& after == before
                    &&& !shown(before, turn.output) ==> turn_after == turn && now == text
                    &&& shown(before, turn.output) ==> {
                        &&& now == crate::chat_turn::grown(text, turn.offset as int, content@).0
                        &&& turn_after.offset == crate::chat_turn::grown(
                            text,
                            turn.offset as int,
                            content@,
                        ).1
                    }
                },
                AnswerEvent::Item(None) => {
                    &&& turn_after == turn
                    &&& now == text + seq!['\n']
                    &&& only_state_differs(
                        before,
                        after,
                        turn.cell_id,
                        ExecutionStateView::Succeeded(Seq::empty()),
                    )
                    &&& crate::laws::place::has_titles(
                        buffers_after,
                        before.notebook.cells.tree@[turn.cell_id.0 - 1],
                    )
                },
                AnswerEvent::Opened(Err(_)) | AnswerEvent::Item(Some(Err(_))) => {
                    &&& turn_after == turn
                    &&& now == text
                    &&& only_state_differs(
                        before,
                        after,
                        turn.cell_id,
                        ExecutionStateView::Failed(Seq::empty()),
                    )
                    &&& crate::laws::place::has_titles(
                        buffers_after,
                        before.notebook.cells.tree@[turn.cell_id.0 - 1],
                    )
                },
            }
        }),
{
    reveal_strlit("");
    reveal_strlit("\n");
    assert(""@ =~= Seq::<char>::empty());
    assert("\n"@ =~= seq!['\n']);
    let tree = before.notebook.cells.tree@;
    let at = turn.cell_id.0 - 1;
    assert(crate::cells::cells_before(tree.len(), turn.cell_id, Bias::Left) == at);
    assert(tree[at].valid(buffers));
    crate::laws::message::lemma_cell_buffers_differ(before.notebook.cells, buffers, at);
    if let AnswerEvent::Item(Some(Ok(_))) = event {
        lemma_shown(before, turn.output);
    } else if let AnswerEvent::Item(None) = event {
        let text = buffers[turn.output.index as int].text + "\n"@;
        let ended = crate::buffer::with_text(buffers, turn.output, text);
        crate::laws::place::lemma_titles_of_a_cell(ended, tree[at]);
    } else {
        crate::laws::place::lemma_titles_of_a_cell(buffers, tree[at]);
    }
}

/// Where the cell that is answered is gone, what happens to its answer still shows in its output,
/// and nothing else changes.
pub proof fn lemma_event_without_its_cell(
    before: NotebookEditor,
    turn: ChatTurn,
    buffers: Seq<BufferView>,
    event: AnswerEvent,
    after: NotebookEditor,
    turn_after: ChatTurn,
    buffers_after: Seq<BufferView>,
)
    requires
        turn.output.valid(buffers),
        turn.cell_id.0 > before.notebook.cells.tree@.len(),
        crate::chat_turn::event_taken(
            before,
            turn,
            buffers,
            event,
            after,
            turn_after,
            buffers_after,
        ),
    ensures
        after == before,
        buffers_after.len() == buffers.len(),
        forall|k: int|
            #![trigger buffers_after[k]]
            0 <= k < buffers.len() && k != turn.output.index ==> buffers_after[k] == buffers[k],
        event matches AnswerEvent::Item(None) ==> buffers_after[turn.output.index as int].text
            == buffers[turn.output.index as int].text + seq!['\n'],
        !(event matches AnswerEvent::Item(None)) && !(event matches AnswerEvent::Item(Some(Ok(_))))
            ==> buffers_after == buffers && turn_after == turn,
{
    reveal_strlit("\n");
    assert("\n"@ =~= seq!['\n']);
}

/// Whether an excerpt shows `buffer`.
pub open spec fn shown(editor: NotebookEditor, buffer: BufferId) -> bool {
    exists|i: int|
        0 <= i < editor.notebook.cells.multi.excerpts@.len() && (
        #[trigger] editor.notebook.cells.multi.excerpts@[i]).buffer == buffer
}

proof fn lemma_shown(editor: NotebookEditor, buffer: BufferId)
    ensures
        shown(editor, buffer) <==> crate::multi_buffer::excerpts_of(
            editor.notebook.cells.multi.excerpts@,
            buffer,
        ).len() > 0,
{
    let excerpts = editor.notebook.cells.multi.excerpts@;
    let is_of = |excerpt: Excerpt| excerpt.buffer == buffer;
    if shown(editor, buffer) {
        let i = choose|i: int| 0 <= i < excerpts.len() && (#[trigger] excerpts[i]).buffer == buffer;
        assert(excerpts.filter(is_of).contains(excerpts[i])) by {
            excerpts.lemma_filter_contains(is_of, i);
        }
    } else {
        crate::cells::lemma_filter_none(excerpts, is_of);
    }
}

/// A turn that begins asks the language model, under its name, what was said before and then, as
/// the user's next turn, the text of the cell's source, and sets no condition for its end. The cell
/// gets a new and empty output under its own title, and it is running; no other cell changes, and
/// no text does. `tree` are the cells with which the turn begins: they may have been measured anew.
pub proof fn lemma_turn_asks_the_source(
    before: NotebookEditor,
    tree: Seq<Cell>,
    buffers: Seq<BufferView>,
    id: CellId,
    after: NotebookEditor,
    buffers_after: Seq<BufferView>,
    turn: ChatTurn,
    request: ChatRequest,
)
    requires
        before.notebook.wf(buffers),
        buffers.len() < usize::MAX,
        1 <= id.0 <= before.notebook.cells.tree@.len(),
        tree.len() == before.notebook.cells.tree@.len(),
        forall|i: int|
            0 <= i < tree.len() ==> crate::laws::place::same_but_extent(
                before.notebook.cells.tree@[i],
                #[trigger] tree[i],
            ),
        crate::chat_turn::turn_begun(
            before,
            tree,
            buffers,
            id.0 - 1,
            after,
            buffers_after,
            turn,
            request,
        ),
    ensures
        ({
            let cell = tree[id.0 - 1];
            let now = after.notebook.cells.tree@[id.0 - 1];
            let source = buffers[cell.source.index as int].text;
            let said = crate::chat::turns_view(before.chat.messages@);
            let asked = crate::chat::turns_view(request.messages@);
            &&& request.model@ == before.chat.model@
            &&& request.stop@.len() == 0
            &&& asked.len() == said.len() + 1
            &&& asked.take(said.len() as int) == said
            &&& asked.last() == (TurnView { role: Role::User, content: source })
            &&& crate::chat::turns_view(after.chat.messages@) == asked
            &&& after.chat.model == before.chat.model
            &&& turn.cell_id == id
            &&& turn.offset == 0
            &&& turn.output.index == buffers.len()
            &&& buffers_after.len() == buffers.len() + 1
            &&& buffers_after[buffers.len() as int].text.len() == 0
            &&& crate::laws::document::keeps_buffers(buffers, buffers_after)
            &&& after.notebook.cells.tree@.len() == tree.len()
            &&& forall|i: int|
                0 <= i < tree.len() && i != id.0 - 1 ==> #[trigger] after.notebook.cells.tree@[i]
                    == tree[i]
            &&& now@.output_content == Some(turn.output)
            &&& now@.state == Some(ExecutionStateView::Running(Seq::empty()))
            &&& now@.id == id
            &&& now@.latest_execution_request_msg_id == cell@.latest_execution_request_msg_id
            &&& now@.text_summary == cell@.text_summary
            &&& now@.cell_id == cell@.cell_id
            &&& now@.cell_type == cell@.cell_type
            &&& now@.metadata == cell@.metadata
            &&& now@.source == cell@.source
            &&& now@.execution_count == cell@.execution_count
            &&& now@.outputs == cell@.outputs
            &&& buffers_after[buffers.len() as int].file matches Some(file)
            &&& crate::laws::document::output_title(
                file,
                id.0,
                crate::text::optional_text(cell.cell_id),
            )
        }),
{
    reveal_strlit("");
    assert(""@ =~= Seq::<char>::empty());
    let at = id.0 - 1;
    let cell = tree[at];
    assert(before.notebook.cells.tree@[at].valid(buffers));
    assert(before.notebook.cells.tree@[at].id.0 == at + 1);
    assert(crate::laws::place::same_but_extent(before.notebook.cells.tree@[at], cell));
    assert(cell.valid(buffers));
    assert(cell.id.0 == at + 1);
    crate::laws::document::lemma_titles_of_excerpts(
        id.0,
        crate::text::optional_text(cell.cell_id),
        cell.cell_type,
    );
    let said = crate::chat::turns_view(before.chat.messages@);
    let asked = crate::chat::turns_view(request.messages@);
    assert(asked.take(said.len() as int) =~= said);
    assert(after.notebook.cells.tree@.len() == tree.len());
}

/// While a language model takes a turn, each part that comes is handed out, and the turn waits for
/// the next once that was done. It ends badly where the model does not begin to answer or a part
/// could not be used, with that error; it ends well at the end of the answer, and where a part
/// fails to come.
pub proof fn lemma_steps_of_a_turn<E>(event: TurnEvent<E>)
    ensures
        match event {
            TurnEvent::Opened(Ok(_)) => event.step() is Await,
            TurnEvent::Opened(Err(error)) => event.step() == TurnStep::<E>::Finish(Err(error)),
            TurnEvent::Item(Some(Ok(part))) => event.step() == TurnStep::<E>::HandOut(part),
            TurnEvent::Item(Some(Err(_))) => event.step() == TurnStep::<E>::Finish(Ok(())),
            TurnEvent::Item(None) => event.step() == TurnStep::<E>::Finish(Ok(())),
            TurnEvent::HandedOut(Ok(_)) => event.step() is Await,
            TurnEvent::HandedOut(Err(error)) => event.step() == TurnStep::<E>::Finish(Err(error)),
        },
{
}

/// An answer that comes to its end, and of which no piece holds a carriage return or makes a line
/// too long, is its pieces one after the other, to the letter, and a line break after them.
pub proof fn lemma_whole_answer_that_fits(contents: Seq<String>)
    requires
        forall|i: int| 0 <= i < contents.len() ==> !(#[trigger] contents[i])@.contains('\r'),
        forall|i: int|
            0 <= i < contents.len() ==> bytes_in_last_line(
                concatenated(crate::text::texts(contents).take(i)),
            ) + encode_utf8((#[trigger] contents[i])@).len() <= 96,
    ensures
        crate::chat_turn::answer_after(
            Seq::empty(),
            0,
            crate::chat_turn::stream_events(Ok(()), crate::chat_turn::good_items(contents)).push(
                AnswerEvent::Item(None),
            ),
        ).0 == concatenated(crate::text::texts(contents)).push('\n'),
{
    let none = Seq::<char>::empty();
    let texts = crate::text::texts(contents);
    assert forall|i: int| 0 <= i < contents.len() implies crate::text::plain(
        (#[trigger] contents[i])@,
    ) by {
        lemma_without_returns(contents[i]@);
    }
    assert forall|i: int| 0 <= i < texts.len() implies !(#[trigger] texts[i]).contains('\r')
        && bytes_in_last_line(none + concatenated(texts.take(i))) + encode_utf8(texts[i]).len()
        <= 96 by {
        assert(texts[i] == contents[i]@);
        assert(none + concatenated(texts.take(i)) =~= concatenated(texts.take(i)));
    }
    lemma_answer_that_fits(none, texts);
    crate::chat_turn::lemma_text_of_an_answer(
        contents,
        arbitrary::<crate::common::NotebookError>(),
    );
    reveal_strlit("\n");
    assert("\n"@ =~= seq!['\n']);
    assert(none + concatenated(texts) + seq!['\n'] =~= concatenated(texts).push('\n'));
}

} // verus!
