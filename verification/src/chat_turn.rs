//! A turn of the chat: how a cell is answered, piece by piece.
use crate::buffer::{Buffer, BufferId, BufferView, Buffers};
use crate::cell::{Cell, CellId, CellView, ExecutionState, ExecutionStateView};
use crate::cells::{count_before, Bias};
use crate::chat::{ChatRequest, Role, Turn, TurnView};
use crate::common::NotebookError;
use crate::editor::NotebookEditor;
use crate::multi_buffer::Excerpt;
use crate::notebook::Notebook;
use vstd::prelude::*;
use vstd::string::*;

verus! {

/// The length that a line of an answer should not exceed, in bytes.
pub const LINE_LENGTH: u32 = 96;

/// An answer that is on its way.
#[derive(Clone, Copy, Debug, PartialEq, Eq, Structural)]
pub struct ChatTurn {
    /// The place of the cell that is answered.
    pub cell_id: CellId,
    /// The output of that cell, in which the answer is put.
    pub output: BufferId,
    /// Where the next piece of the answer goes.
    pub offset: usize,
}

/// Whether no line may break in front of `c`.
pub open spec fn holds_on(c: char) -> bool {
    c == '.' || c == ',' || c == '(' || c == ')' || c == '[' || c == ']' || c == '\'' || c == '`'
}

/// Whether a line breaks in front of `content` where it follows `text`: the line would get too
/// long, and `content` starts with a character of a single byte in front of which a line may break.
pub open spec fn breaks_line(text: Seq<char>, content: Seq<char>) -> bool {
    &&& content.len() > 0
    &&& (content[0] as u32) < 128
    &&& !holds_on(content[0])
    &&& crate::summary::last_column(text) + crate::text::byte_len(content) > LINE_LENGTH
}

/// What is put into an answer that has come as far as `text` when the piece `content` comes: a
/// line break in front of it or in place of a space at its start, if a line breaks there.
pub open spec fn piece(text: Seq<char>, content: Seq<char>) -> Seq<char> {
    if breaks_line(text, content) {
        if content[0] == ' ' {
            "\n"@ + content.drop_first()
        } else {
            "\n"@ + content
        }
    } else {
        content
    }
}

/// An answer that has come as far as `text` after the pieces `contents`.
pub open spec fn answer(text: Seq<char>, contents: Seq<Seq<char>>) -> Seq<char>
    decreases contents.len(),
{
    if contents.len() == 0 {
        text
    } else {
        let before = answer(text, contents.drop_last());
        before + crate::text::normalized(piece(before, contents.last()))
    }
}

/// `text` and the place `offset` in it, at which an answer grows, after the piece `content`.
pub open spec fn grown(text: Seq<char>, offset: int, content: Seq<char>) -> (Seq<char>, int) {
    let inserted = piece(text, content);
    (
        crate::text::text_before(text, offset) + crate::text::normalized(inserted)
            + crate::text::text_after(text, offset),
        offset + crate::text::byte_len(inserted),
    )
}

/// `text` and the place `offset` in it, at which an answer grows, after the pieces `contents`.
pub open spec fn grown_by(text: Seq<char>, offset: int, contents: Seq<Seq<char>>) -> (
    Seq<char>,
    int,
)
    decreases contents.len(),
{
    if contents.len() == 0 {
        (text, offset)
    } else {
        let before = grown_by(text, offset, contents.drop_last());
        grown(before.0, before.1, contents.last())
    }
}

/// What happens to an answer that is on its way.
#[derive(Debug)]
pub enum AnswerEvent {
    /// The language model begins to answer, or does not.
    Opened(Result<(), NotebookError>),
    /// The next piece comes, or fails to come. There is none at the end of the answer.
    Item(Option<Result<String, NotebookError>>),
}

impl AnswerEvent {
    /// How the answer ends with the event, if it does: whether the cell succeeded.
    pub open spec fn end(self) -> Option<bool> {
        match self {
            AnswerEvent::Opened(Ok(_)) => None,
            AnswerEvent::Opened(Err(_)) => Some(false),
            AnswerEvent::Item(Some(Ok(_))) => None,
            AnswerEvent::Item(Some(Err(_))) => Some(false),
            AnswerEvent::Item(None) => Some(true),
        }
    }
}

/// How an answer ends with `events`, if it does: the first event that ends it decides.
pub open spec fn answer_end(events: Seq<AnswerEvent>) -> Option<bool>
    decreases events.len(),
{
    if events.len() == 0 {
        None
    } else {
        match answer_end(events.drop_last()) {
            Some(succeeded) => Some(succeeded),
            None => events.last().end(),
        }
    }
}

/// Whether the piece `content` can be put into the answer `turn`: the place where it goes lies
/// between two characters, and neither that place nor the length of a line gets too big.
pub open spec fn receivable(turn: ChatTurn, content: Seq<char>, buffers: Seq<BufferView>) -> bool {
    let text = buffers[turn.output.index as int].text;
    &&& crate::summary::summarizable(text)
    &&& crate::text::splits_at(text, turn.offset as int)
    &&& crate::summary::last_column(text) + crate::text::byte_len(content) <= u32::MAX
    &&& turn.offset + crate::text::byte_len(content) < usize::MAX
}

/// Whether `after`, `turn_after` and `buffers_after` are what comes of `before`, `turn` and `buffers`
/// when `event` happens to the answer `turn`.
pub open spec fn event_taken(
    before: NotebookEditor,
    turn: ChatTurn,
    buffers: Seq<BufferView>,
    event: AnswerEvent,
    after: NotebookEditor,
    turn_after: ChatTurn,
    buffers_after: Seq<BufferView>,
) -> bool {
    match event {
        AnswerEvent::Opened(Ok(_)) => {
            &&& after == before
            &&& turn_after == turn
            &&& buffers_after == buffers
        },
        AnswerEvent::Item(Some(Ok(content))) => {
            &&& after == before
            &&& piece_received(
                before.notebook.cells.multi.excerpts@,
                turn,
                buffers,
                content@,
                turn_after,
                buffers_after,
            )
        },
        AnswerEvent::Opened(Err(_)) | AnswerEvent::Item(Some(Err(_))) => {
            &&& state_set(
                before,
                buffers,
                turn.cell_id,
                ExecutionStateView::Failed(""@),
                after,
                buffers_after,
            )
            &&& crate::editing::keeps_texts(buffers, buffers_after)
            &&& turn_after == turn
        },
        AnswerEvent::Item(None) => {
            let ended = crate::buffer::with_text(
                buffers,
                turn.output,
                buffers[turn.output.index as int].text + "\n"@,
            );
            &&& state_set(
                before,
                ended,
                turn.cell_id,
                ExecutionStateView::Succeeded(""@),
                after,
                buffers_after,
            )
            &&& crate::editing::keeps_texts(ended, buffers_after)
            &&& turn_after == turn
        },
    }
}

/// Whether `after` and `buffers_after` are what comes of `turn` and `buffers` when the piece
/// `content` comes. Nothing changes where none of `excerpts` shows the output.
pub open spec fn piece_received(
    excerpts: Seq<Excerpt>,
    turn: ChatTurn,
    buffers: Seq<BufferView>,
    content: Seq<char>,
    after: ChatTurn,
    buffers_after: Seq<BufferView>,
) -> bool {
    let grown = grown(
        buffers[turn.output.index as int].text,
        turn.offset as int,
        content,
    );
    if crate::multi_buffer::excerpts_of(excerpts, turn.output).len() == 0 {
        after == turn && buffers_after == buffers
    } else {
        &&& after == (ChatTurn { offset: grown.1 as usize, ..turn })
        &&& after.offset == grown.1
        &&& buffers_after == crate::buffer::with_text(buffers, turn.output, grown.0)
    }
}

/// Puts together what is put into an answer when the piece `content` comes. `column` is the length
/// of the last line of the answer so far.
fn make_piece(column: u32, content: String) -> (inserted: String)
    requires
        column + crate::text::byte_len(content@) <= u32::MAX,
    ensures
        forall|text: Seq<char>| #[trigger]
            crate::summary::last_column(text) == column ==> inserted@ == piece(text, content@),
{
    let length = content.as_str().unicode_len();
    if length == 0 {
        return content;
    }
    let first = content.as_str().get_char(0);
    let no_break = first == '.' || first == ',' || first == '(' || first == ')' || first == '['
        || first == ']' || first == '\'' || first == '`';
    if (first as u32) < 128 && !no_break && column + content.as_str().len() as u32 > LINE_LENGTH {
        let mut inserted = "\n".to_owned();
        if first == ' ' {
            let rest = content.as_str().substring_char(1, length);
            assert(rest@ =~= content@.drop_first());
            inserted.append(rest);
        } else {
            inserted.append(content.as_str());
        }
        inserted
    } else {
        content
    }
}

/// Whether `after` and `buffers_after` are what comes of `before` with the cells `tree`, and of
/// `buffers`, when the cell at `at` is asked: an empty output takes the place of the one it had,
/// and its source is the next turn of the chat.
pub open spec fn turn_begun(
    before: NotebookEditor,
    tree: Seq<Cell>,
    buffers: Seq<BufferView>,
    at: int,
    after: NotebookEditor,
    buffers_after: Seq<BufferView>,
    turn: ChatTurn,
    request: ChatRequest,
) -> bool {
    let cell = tree[at];
    let output = BufferId { index: buffers.len() as usize };
    let with_output = buffers.push(BufferView::local(""@));
    let after_tree = after.notebook.cells.tree@;
    let multi = before.notebook.cells.multi;
    &&& turn == (ChatTurn { cell_id: cell.id, output, offset: 0 })
    &&& after_tree == tree.update(at, after_tree[at])
    &&& after_tree[at]@ == (CellView {
        output_content: Some(output),
        state: Some(ExecutionStateView::Running(""@)),
        ..cell@
    })
    &&& buffers_after == (Cell { output_content: Some(output), ..cell }).titled(with_output)
    &&& after.notebook.cells.multi.excerpts@ == crate::cell_update::with_output_excerpts(
        multi.excerpts@,
        tree,
        at,
        crate::cells::new_excerpts(seq![output], multi.next_id as int),
    )
    &&& after.notebook.cells.multi.next_id == multi.next_id + 1
    &&& after.notebook == (Notebook { cells: after.notebook.cells, ..before.notebook })
    &&& after.chat.model == before.chat.model
    &&& crate::chat::turns_view(after.chat.messages@) == crate::chat::turns_view(
        before.chat.messages@,
    ).push(TurnView { role: Role::User, content: buffers[cell.source.index as int].text })
    &&& request.model@ == before.chat.model@
    &&& crate::chat::turns_view(request.messages@) == crate::chat::turns_view(after.chat.messages@)
    &&& request.stop@.len() == 0
}

impl NotebookEditor {
    /// Asks the cell at the place `cell_id`. Returns the answer that is on its way, and what the
    /// language model is asked.
    pub fn next_chat_turn(&mut self, cell_id: &CellId, cx: &mut Buffers) -> (turn: (
        ChatTurn,
        ChatRequest,
    ))
        requires
            old(self).notebook.wf(old(cx)@),
            1 <= cell_id.0 <= old(self).notebook.cells.tree@.len(),
            old(self).notebook.cells.multi.next_id < u64::MAX,
        ensures
            final(self).notebook.wf(final(cx)@),
            turn_begun(
                *old(self),
                old(self).notebook.cells.tree@,
                old(cx)@,
                cell_id.0 - 1,
                *final(self),
                final(cx)@,
                turn.0,
                turn.1,
            ),
    {
        let ghost start = cx@;
        let ghost tree = self.notebook.cells.tree@;
        let index = count_before(self.notebook.cells.tree.len(), *cell_id, Bias::Left);
        let ghost at = index as int;
        let ghost cell = tree[at];
        proof {
            assert(cell.id.0 == at + 1);
            assert(cell.valid(start));
            reveal_strlit("");
            assert(""@ =~= Seq::<char>::empty());
        }
        let content = cx.read(self.notebook.cells.tree[index].source).text();
        let output = cx.new_model(Buffer::local(String::new()));
        let ghost with_output = cx@;
        proof {
            assert(with_output =~= start.push(BufferView::local(""@)));
            crate::cell_update::lemma_wf_with_more_buffers(
                self.notebook.cells,
                start,
                with_output,
            );
            crate::cell_update::lemma_new_buffer_unused(self.notebook.cells, start, output);
            if cell.output_content == Some(output) {
                assert(output.valid(start));
            }
        }
        self.notebook.cells.set_output(index, Some(output), cx);
        let ghost shown = self.notebook.cells.tree@;
        self.notebook.cells.tree[index].state = Some(ExecutionState::Running(String::new()));
        let ghost running = self.notebook.cells.tree@[at];
        self.notebook.cells.tree[index].update_titles(cx);
        proof {
            let now = self.notebook.cells.tree@;
            assert(now =~= shown.update(at, running));
            assert(now =~= tree.update(at, running));
            crate::cell_update::lemma_same_places(shown, now, at);
            assert forall|i: int| 0 <= i < now.len() implies (#[trigger] now[i]).valid(cx@)
                && now[i].id.0 == i + 1 by {
                assert(shown[i].valid(with_output));
                assert(shown[i].id.0 == i + 1);
            }
        }
        let ghost turns = self.chat.messages@;
        self.chat.messages.push(Turn { role: Role::User, content });
        proof {
            assert(crate::chat::turns_view(self.chat.messages@) =~= crate::chat::turns_view(
                turns,
            ).push(TurnView { role: Role::User, content: content@ }));
        }
        let request = self.chat.next_turn();
        let turn = ChatTurn { cell_id: self.notebook.cells.tree[index].id, output, offset: 0 };
        (turn, request)
    }
}

/// Whether `after` and `buffers_after` are what comes of `before` and `buffers` when the cell at the
/// place `id` gets the state `state`. Nothing changes if there is no such cell.
pub open spec fn state_set(
    before: NotebookEditor,
    buffers: Seq<BufferView>,
    id: CellId,
    state: ExecutionStateView,
    after: NotebookEditor,
    buffers_after: Seq<BufferView>,
) -> bool {
    let tree = before.notebook.cells.tree@;
    let at = crate::cells::cells_before(tree.len(), id, Bias::Left);
    let after_tree = after.notebook.cells.tree@;
    if at < tree.len() {
        &&& after_tree == tree.update(at, after_tree[at])
        &&& after_tree[at]@ == (CellView { state: Some(state), ..tree[at]@ })
        &&& buffers_after == tree[at].titled(buffers)
        &&& after.notebook.cells.multi == before.notebook.cells.multi
        &&& after.notebook == (Notebook { cells: after.notebook.cells, ..before.notebook })
        &&& after.chat == before.chat
    } else {
        after == before && buffers_after == buffers
    }
}

impl NotebookEditor {
    /// Gives the cell at the place `cell_id` the state `state`, if there is such a cell.
    fn set_state(&mut self, cell_id: &CellId, state: ExecutionState, cx: &mut Buffers)
        requires
            old(self).notebook.wf(old(cx)@),
        ensures
            final(self).notebook.wf(final(cx)@),
            state_set(*old(self), old(cx)@, *cell_id, state@, *final(self), final(cx)@),
            final(cx)@.len() == old(cx)@.len(),
            crate::editing::keeps_texts(old(cx)@, final(cx)@),
    {
        let ghost start = cx@;
        let ghost tree = self.notebook.cells.tree@;
        let index = count_before(self.notebook.cells.tree.len(), *cell_id, Bias::Left);
        if index >= self.notebook.cells.tree.len() {
            return;
        }
        let ghost at = index as int;
        assert(tree[at].valid(start));
        self.notebook.cells.tree[index].state = Some(state);
        let ghost updated = self.notebook.cells.tree@[at];
        self.notebook.cells.tree[index].update_titles(cx);
        proof {
            let now = self.notebook.cells.tree@;
            assert(now =~= tree.update(at, updated));
            crate::cell_update::lemma_same_places(tree, now, at);
            assert forall|i: int| 0 <= i < now.len() implies (#[trigger] now[i]).valid(cx@)
                && now[i].id.0 == i + 1 by {
                assert(tree[i].valid(start));
                assert(tree[i].id.0 == i + 1);
            }
        }
    }

    /// Puts the next piece of an answer where it belongs. Fails, and changes nothing, if the
    /// output is no longer shown.
    pub fn receive_delta(&self, turn: &mut ChatTurn, content: String, cx: &mut Buffers) -> (result:
        Result<(), NotebookError>)
        requires
            old(turn).output.valid(old(cx)@),
            receivable(*old(turn), content@, old(cx)@),
        ensures
            piece_received(
                self.notebook.cells.multi.excerpts@,
                *old(turn),
                old(cx)@,
                content@,
                *final(turn),
                final(cx)@,
            ),
            if crate::multi_buffer::excerpts_of(
                self.notebook.cells.multi.excerpts@,
                old(turn).output,
            ).len() == 0 {
                result matches Err(error) && error@ == "Failed to obtain buffer handle"@
            } else {
                result is Ok
            },
    {
        let ids = self.notebook.cells.multi.excerpts_for_buffer(turn.output);
        if ids.len() == 0 {
            return Err(NotebookError::new("Failed to obtain buffer handle"));
        }
        let ghost text = cx@[turn.output.index as int].text;
        let column = cx.read(turn.output).text_summary().lines.column;
        let inserted = make_piece(column, content);
        proof {
            lemma_piece_length(text, content@);
        }
        cx.edit(turn.output, turn.offset, turn.offset, inserted.as_str());
        turn.offset = turn.offset + inserted.as_str().len();
        Ok(())
    }

    /// Ends an answer that came to its end: a line break closes it, and the cell succeeded.
    pub fn finish_answer(&mut self, turn: &ChatTurn, cx: &mut Buffers)
        requires
            old(self).notebook.wf(old(cx)@),
            turn.output.valid(old(cx)@),
        ensures
            final(self).notebook.wf(final(cx)@),
            state_set(
                *old(self),
                crate::buffer::with_text(
                    old(cx)@,
                    turn.output,
                    old(cx)@[turn.output.index as int].text + "\n"@,
                ),
                turn.cell_id,
                ExecutionStateView::Succeeded(""@),
                *final(self),
                final(cx)@,
            ),
            crate::editing::keeps_texts(
                crate::buffer::with_text(
                    old(cx)@,
                    turn.output,
                    old(cx)@[turn.output.index as int].text + "\n"@,
                ),
                final(cx)@,
            ),
    {
        let ghost start = cx@;
        let mut text = cx.read(turn.output).text();
        text.append("\n");
        proof {
            reveal_strlit("\n");
            crate::text::lemma_plain_stays(text@);
        }
        cx.set_text(turn.output, text);
        proof {
            crate::cell_update::lemma_wf_with_more_buffers(self.notebook.cells, start, cx@);
            reveal_strlit("");
            assert(""@ =~= Seq::<char>::empty());
        }
        self.set_state(&turn.cell_id, ExecutionState::Succeeded(String::new()), cx);
    }

    /// Ends an answer that broke off: the cell failed.
    pub fn fail_answer(&mut self, turn: &ChatTurn, cx: &mut Buffers)
        requires
            old(self).notebook.wf(old(cx)@),
        ensures
            final(self).notebook.wf(final(cx)@),
            state_set(
                *old(self),
                old(cx)@,
                turn.cell_id,
                ExecutionStateView::Failed(""@),
                *final(self),
                final(cx)@,
            ),
            crate::editing::keeps_texts(old(cx)@, final(cx)@),
    {
        proof {
            reveal_strlit("");
            assert(""@ =~= Seq::<char>::empty());
        }
        self.set_state(&turn.cell_id, ExecutionState::Failed(String::new()), cx);
    }

    /// Takes in what happens to an answer that is on its way, and returns whether it is over. It
    /// is when the language model does not begin to answer, when a piece fails to come, and at its
    /// end. Only then did the cell succeed.
    pub fn answer_event(&mut self, turn: &mut ChatTurn, event: AnswerEvent, cx: &mut Buffers) -> (
        over: bool)
        requires
            old(self).notebook.wf(old(cx)@),
            old(turn).output.valid(old(cx)@),
            event matches AnswerEvent::Item(Some(Ok(content))) ==> receivable(
                *old(turn),
                content@,
                old(cx)@,
            ),
        ensures
            final(self).notebook.wf(final(cx)@),
            over == (event.end() is Some),
            event_taken(
                *old(self),
                *old(turn),
                old(cx)@,
                event,
                *final(self),
                *final(turn),
                final(cx)@,
            ),
    {
        let ghost start = cx@;
        match event {
            AnswerEvent::Opened(Ok(_)) => false,
            AnswerEvent::Item(Some(Ok(content))) => {
                let _ = self.receive_delta(turn, content, cx);
                proof {
                    crate::cell_update::lemma_wf_with_more_buffers(self.notebook.cells, start, cx@);
                }
                false
            },
            AnswerEvent::Opened(Err(_)) | AnswerEvent::Item(Some(Err(_))) => {
                self.fail_answer(turn, cx);
                true
            },
            AnswerEvent::Item(None) => {
                self.finish_answer(turn, cx);
                true
            },
        }
    }
}

proof fn lemma_piece_length(text: Seq<char>, content: Seq<char>)
    ensures
        crate::text::byte_len(piece(text, content)) <= crate::text::byte_len(content) + 1,
{
    reveal_strlit("\n");
    crate::summary::lemma_line_break();
    if breaks_line(text, content) {
        crate::text::lemma_encode_concat("\n"@, content);
        if content[0] == ' ' {
            let rest = content.drop_first();
            crate::text::lemma_encode_concat("\n"@, rest);
            crate::text::lemma_encode_concat(seq![content[0]], rest);
            assert(content =~= seq![content[0]] + rest);
        }
    }
}

/// As long as the pieces of an answer go to its end and hold no carriage returns, each follows all
/// that came before it, and the next one goes to the end again.
pub proof fn lemma_pieces_follow(text: Seq<char>, contents: Seq<Seq<char>>)
    requires
        forall|i: int| 0 <= i < contents.len() ==> crate::text::plain(#[trigger] contents[i]),
    ensures
        ({
            let after = grown_by(text, crate::text::byte_len(text) as int, contents);
            &&& after.0 == answer(text, contents)
            &&& after.1 == crate::text::byte_len(after.0)
            &&& crate::text::splits_at(after.0, after.1)
        }),
    decreases contents.len(),
{
    if contents.len() == 0 {
        crate::text::lemma_split_at_end(text);
    } else {
        let front = contents.drop_last();
        assert forall|i: int| 0 <= i < front.len() implies crate::text::plain(
            #[trigger] front[i],
        ) by {
            assert(crate::text::plain(contents[i]));
        }
        lemma_pieces_follow(text, front);
        let before = answer(text, front);
        let content = contents.last();
        assert(crate::text::plain(contents[contents.len() - 1]));
        crate::text::lemma_split_at_end(before);
        let inserted = piece(before, content);
        lemma_piece_is_plain(before, content);
        crate::text::lemma_plain_stays(inserted);
        crate::text::lemma_encode_concat(before, inserted);
        assert(before + inserted + Seq::<char>::empty() =~= before + inserted);
        crate::text::lemma_split_at_end(before + inserted);
    }
}

proof fn lemma_piece_is_plain(text: Seq<char>, content: Seq<char>)
    requires
        crate::text::plain(content),
    ensures
        crate::text::plain(piece(text, content)),
{
    reveal_strlit("\n");
    let inserted = piece(text, content);
    assert forall|i: int| 0 <= i < inserted.len() implies #[trigger] inserted[i] != '\r' by {
        if breaks_line(text, content) {
            if i > 0 && content[0] == ' ' {
                assert(content[i] != '\r');
            } else if i > 0 {
                assert(content[i - 1] != '\r');
            }
        }
    }
}

/// The cell that is answered succeeds if and only if the language model began to answer and every
/// piece of its answer came.
pub proof fn lemma_success_of_an_answer(
    opened: Result<(), NotebookError>,
    items: Seq<Result<String, NotebookError>>,
)
    ensures
        answer_end(stream_events(opened, items).push(AnswerEvent::Item(None))) == Some(
            opened is Ok && forall|i: int| 0 <= i < items.len() ==> (#[trigger] items[i]) is Ok,
        ),
{
    let events = stream_events(opened, items);
    lemma_failures_of_an_answer(opened, items);
    assert(events.push(AnswerEvent::Item(None)).drop_last() =~= events);
}

proof fn lemma_failures_of_an_answer(
    opened: Result<(), NotebookError>,
    items: Seq<Result<String, NotebookError>>,
)
    ensures
        answer_end(stream_events(opened, items)) == (if opened is Ok && forall|i: int|
            0 <= i < items.len() ==> (#[trigger] items[i]) is Ok {
            None::<bool>
        } else {
            Some(false)
        }),
    decreases items.len(),
{
    let events = stream_events(opened, items);
    if items.len() == 0 {
        assert(events.drop_last() =~= Seq::<AnswerEvent>::empty());
        assert(answer_end(events.drop_last()) is None);
    } else {
        let front = items.drop_last();
        lemma_failures_of_an_answer(opened, front);
        assert(events.drop_last() =~= stream_events(opened, front));
        let good = forall|i: int| 0 <= i < items.len() ==> (#[trigger] items[i]) is Ok;
        let front_good = forall|i: int| 0 <= i < front.len() ==> (#[trigger] front[i]) is Ok;
        if front_good && items.last() is Ok {
            assert forall|i: int| 0 <= i < items.len() implies (#[trigger] items[i]) is Ok by {
                if i < front.len() {
                    assert(front[i] is Ok);
                }
            }
        }
        if good {
            assert forall|i: int| 0 <= i < front.len() implies (#[trigger] front[i]) is Ok by {
                assert(items[i] is Ok);
            }
            assert(items[items.len() - 1] is Ok);
        }
    }
}

/// What happens to an answer that begins as `opened` says and then brings `items`.
pub open spec fn stream_events(
    opened: Result<(), NotebookError>,
    items: Seq<Result<String, NotebookError>>,
) -> Seq<AnswerEvent> {
    seq![AnswerEvent::Opened(opened)] + items.map_values(
        |item: Result<String, NotebookError>| AnswerEvent::Item(Some(item)),
    )
}

/// `text` and the place `offset` in it, at which an answer grows, after `events`: pieces are put
/// in, a line break follows at the end of the answer, and what happens after its end makes no
/// difference.
pub open spec fn answer_after(text: Seq<char>, offset: int, events: Seq<AnswerEvent>) -> (
    Seq<char>,
    int,
)
    decreases events.len(),
{
    if events.len() == 0 {
        (text, offset)
    } else {
        let before = answer_after(text, offset, events.drop_last());
        if answer_end(events.drop_last()) is Some {
            before
        } else {
            match events.last() {
                AnswerEvent::Item(Some(Ok(content))) => grown(before.0, before.1, content@),
                AnswerEvent::Item(None) => (before.0 + "\n"@, before.1),
                _ => before,
            }
        }
    }
}

/// Where an answer that is shown is as far as `events` bring it, and these do not end it, an event
/// that is taken in brings it as far as `events` and then that event do.
pub proof fn lemma_event_is_a_step(
    before: NotebookEditor,
    turn: ChatTurn,
    buffers: Seq<BufferView>,
    event: AnswerEvent,
    after: NotebookEditor,
    turn_after: ChatTurn,
    buffers_after: Seq<BufferView>,
    text: Seq<char>,
    offset: int,
    events: Seq<AnswerEvent>,
)
    requires
        event_taken(before, turn, buffers, event, after, turn_after, buffers_after),
        turn.output.valid(buffers),
        crate::multi_buffer::excerpts_of(
            before.notebook.cells.multi.excerpts@,
            turn.output,
        ).len() > 0,
        answer_end(events) is None,
        answer_after(text, offset, events) == (
            buffers[turn.output.index as int].text,
            turn.offset as int,
        ),
    ensures
        turn_after.output == turn.output,
        answer_after(text, offset, events.push(event)) == (
            buffers_after[turn.output.index as int].text,
            turn_after.offset as int,
        ),
        answer_end(events.push(event)) == event.end(),
{
    assert(events.push(event).drop_last() =~= events);
    assert(events.push(event).last() == event);
}

/// The items of an answer of which all pieces come.
pub open spec fn good_items(contents: Seq<String>) -> Seq<Result<String, NotebookError>> {
    contents.map_values(|content: String| Ok::<String, NotebookError>(content))
}

/// An answer that comes to its end holds all its pieces and a line break after them. One of which
/// a piece fails to come holds those before it, and nothing more.
pub proof fn lemma_text_of_an_answer(contents: Seq<String>, error: NotebookError)
    requires
        forall|i: int| 0 <= i < contents.len() ==> crate::text::plain((#[trigger] contents[i])@),
    ensures
        ({
            let events = stream_events(Ok(()), good_items(contents));
            let text = answer(Seq::empty(), crate::text::texts(contents));
            &&& answer_after(Seq::empty(), 0, events.push(AnswerEvent::Item(None))).0 == text
                + "\n"@
            &&& answer_after(
                Seq::empty(),
                0,
                events.push(AnswerEvent::Item(Some(Err(error)))),
            ).0 == text
        }),
{
    let none = Seq::<char>::empty();
    let events = stream_events(Ok(()), good_items(contents));
    let texts = crate::text::texts(contents);
    assert forall|i: int| 0 <= i < texts.len() implies crate::text::plain(#[trigger] texts[i]) by {
        assert(crate::text::plain(contents[i]@));
    }
    assert(crate::text::byte_len(none) == 0);
    lemma_pieces_follow(none, texts);
    lemma_answer_grows(none, 0, contents);
    lemma_failures_of_an_answer(Ok(()), good_items(contents));
    assert(events.push(AnswerEvent::Item(None)).drop_last() =~= events);
    assert(events.push(AnswerEvent::Item(Some(Err(error)))).drop_last() =~= events);
}

proof fn lemma_answer_grows(text: Seq<char>, offset: int, contents: Seq<String>)
    ensures
        answer_after(text, offset, stream_events(Ok(()), good_items(contents))) == grown_by(
            text,
            offset,
            crate::text::texts(contents),
        ),
    decreases contents.len(),
{
    let events = stream_events(Ok(()), good_items(contents));
    if contents.len() == 0 {
        assert(events.drop_last() =~= Seq::<AnswerEvent>::empty());
        assert(answer_after(text, offset, events.drop_last()) == (text, offset));
    } else {
        let front = contents.drop_last();
        lemma_answer_grows(text, offset, front);
        lemma_failures_of_an_answer(Ok(()), good_items(front));
        assert(events.drop_last() =~= stream_events(Ok(()), good_items(front)));
        assert(crate::text::texts(contents).drop_last() =~= crate::text::texts(front));
    }
}

/// The last line of an answer never gets too long, as long as no piece of the answer is too long by
/// itself and a line may break in front of each.
pub proof fn lemma_lines_stay_short(text: Seq<char>, contents: Seq<Seq<char>>)
    requires
        crate::summary::last_column(text) <= LINE_LENGTH,
        forall|i: int| 0 <= i < contents.len() ==> breakable(#[trigger] contents[i]),
    ensures
        crate::summary::last_column(answer(text, contents)) <= LINE_LENGTH,
    decreases contents.len(),
{
    if contents.len() > 0 {
        let front = contents.drop_last();
        assert forall|i: int| 0 <= i < front.len() implies breakable(#[trigger] front[i]) by {
            assert(breakable(contents[i]));
        }
        lemma_lines_stay_short(text, front);
        let before = answer(text, front);
        let content = contents.last();
        assert(breakable(contents[contents.len() - 1]));
        let inserted = piece(before, content);
        let shown = crate::text::normalized(inserted);
        crate::summary::lemma_lines_concat(before, shown);
        crate::summary::lemma_normalized_last_line(inserted);
        if crate::summary::line_breaks(shown) == 0 {
            crate::text::lemma_plain_stays(inserted);
        }
        if breaks_line(before, content) {
            crate::summary::lemma_line_break();
            if content[0] == ' ' {
                let rest = content.drop_first();
                assert(content =~= seq![content[0]] + rest);
                crate::summary::lemma_lines_concat(seq![content[0]], rest);
                crate::summary::lemma_lines_concat("\n"@, rest);
                crate::text::lemma_encode_concat(seq![content[0]], rest);
                assert(crate::summary::last_line(inserted) =~= rest);
            } else {
                crate::summary::lemma_lines_concat("\n"@, content);
                assert(crate::summary::last_line(inserted) =~= content);
            }
        } else {
            crate::summary::lemma_lines_concat(before, content);
            crate::text::lemma_encode_concat(crate::summary::last_line(before), content);
        }
    }
}

/// Whether `content` is a piece that fits into a line by itself and in front of which a line may
/// break.
pub open spec fn breakable(content: Seq<char>) -> bool {
    &&& content.len() > 0
    &&& (content[0] as u32) < 128
    &&& !holds_on(content[0])
    &&& crate::text::byte_len(content) <= LINE_LENGTH
    &&& crate::summary::line_breaks(content) == 0
}

} // verus!
