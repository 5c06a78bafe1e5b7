//! The chat about a notebook.
use crate::buffer::{BufferView, Buffers};
use crate::cell::Cell;
use crate::notebook::Notebook;
use vstd::prelude::*;
use vstd::string::*;

verus! {

/// Who takes a turn.
#[derive(Clone, Copy, Debug, PartialEq, Eq, Structural)]
pub enum Role {
    User,
    Assistant,
    System,
}

/// What is said in one turn.
#[derive(Debug)]
pub struct Turn {
    pub role: Role,
    pub content: String,
}

/// What a [`Turn`] stands for.
pub struct TurnView {
    pub role: Role,
    pub content: Seq<char>,
}

impl View for Turn {
    type V = TurnView;

    open spec fn view(&self) -> TurnView {
        TurnView { role: self.role, content: self.content@ }
    }
}

impl Clone for Turn {
    fn clone(&self) -> (turn: Turn)
        ensures
            turn@ == self@,
    {
        Turn { role: self.role, content: self.content.clone() }
    }
}

/// What several turns stand for.
pub open spec fn turns_view(turns: Seq<Turn>) -> Seq<TurnView> {
    turns.map_values(|turn: Turn| turn@)
}

/// The chat about a notebook.
#[derive(Debug)]
pub struct Chat {
    /// The name of the language model that answers.
    pub model: String,
    pub messages: Vec<Turn>,
}

/// What a language model is asked.
#[derive(Debug)]
pub struct ChatRequest {
    pub model: String,
    pub messages: Vec<Turn>,
    /// What ends the answer.
    pub stop: Vec<String>,
}

/// What a language model is told in advance.
pub open spec fn introduction() -> Seq<char> {
    crate::text::joined(
        seq![
            "You are a coding and research assistant specializing in the analysis of interactive notebooks."@,
            "A notebook state is included below."@,
            "Each cell is denoted by a code block including the source code of the cell and a leading comment indicating the ID of the cell."@,
            ""@,
        ],
        "\n"@,
    )
}

/// The comment that says which cell a source belongs to, between what opens and what closes a
/// comment.
pub open spec fn cell_comment(id: u64, open: Seq<char>, close: Seq<char>) -> Seq<char> {
    crate::text::joined(
        seq![open, "Source code for Cell "@ + crate::text::decimal(id as nat), close],
        "\n"@,
    )
}

/// The paragraph that shows a cell whose source is `buffer`: a code block with the name of the
/// language, if there is one, with a leading comment, where the language has such comments.
pub open spec fn cell_paragraph(id: u64, buffer: BufferView) -> Seq<char> {
    let closing = seq![buffer.text, "```"@];
    match buffer.language {
        Some(language) => match language.block_comment_delimiters {
            Some((open, close)) => crate::text::joined(
                seq!["```"@ + language.name, cell_comment(id, open, close)] + closing,
                "\n"@,
            ),
            None => crate::text::joined(seq!["```"@ + language.name] + closing, "\n"@),
        },
        None => crate::text::joined(seq!["```"@] + closing, "\n"@),
    }
}

/// The paragraphs that show `cells`.
pub open spec fn cell_paragraphs(cells: Seq<Cell>, buffers: Seq<BufferView>) -> Seq<Seq<char>> {
    cells.map_values(
        |cell: Cell| cell_paragraph(cell.id.0, buffers[cell.source.index as int]),
    )
}

/// What a language model is told of a notebook with `cells`.
pub open spec fn system_prompt(cells: Seq<Cell>, buffers: Seq<BufferView>) -> Seq<char> {
    crate::text::joined(
        seq![introduction(), crate::text::joined(cell_paragraphs(cells, buffers), "\n\n"@)],
        "\n\n"@,
    )
}

/// Puts together what a language model is told in advance.
fn introduce() -> (text: String)
    ensures
        text@ == introduction(),
{
    let mut lines: Vec<String> = Vec::new();
    lines.push(
        "You are a coding and research assistant specializing in the analysis of interactive notebooks.".to_owned(),
    );
    lines.push("A notebook state is included below.".to_owned());
    lines.push(
        "Each cell is denoted by a code block including the source code of the cell and a leading comment indicating the ID of the cell.".to_owned(),
    );
    lines.push("".to_owned());
    assert(crate::text::texts(lines@) =~= seq![
        "You are a coding and research assistant specializing in the analysis of interactive notebooks."@,
        "A notebook state is included below."@,
        "Each cell is denoted by a code block including the source code of the cell and a leading comment indicating the ID of the cell."@,
        ""@,
    ]);
    crate::text::join(&lines, "\n")
}

/// Puts together the paragraph that shows `cell`.
fn show_cell(cell: &Cell, cx: &Buffers) -> (paragraph: String)
    requires
        cell.source.valid(cx@),
    ensures
        paragraph@ == cell_paragraph(cell.id.0, cx@[cell.source.index as int]),
{
    let buffer = cx.read(cell.source);
    let mut fence = "```".to_owned();
    let mut paragraph: Vec<String> = Vec::new();
    match buffer.language() {
        Some(language) => {
            fence.append(language.name.as_str());
            paragraph.push(fence);
            if let Some((open, close)) = &language.block_comment_delimiters {
                let mut note = "Source code for Cell ".to_owned();
                note.append(crate::text::decimal_string(cell.id.0).as_str());
                let mut comment: Vec<String> = Vec::new();
                comment.push(open.clone());
                comment.push(note);
                comment.push(close.clone());
                assert(crate::text::texts(comment@) =~= seq![open@, note@, close@]);
                paragraph.push(crate::text::join(&comment, "\n"));
            }
        },
        None => {
            paragraph.push(fence);
        },
    }
    let ghost opening = crate::text::texts(paragraph@);
    paragraph.push(buffer.text());
    paragraph.push("```".to_owned());
    proof {
        let closing = seq![buffer@.text, "```"@];
        assert(crate::text::texts(paragraph@) =~= opening + closing);
        match buffer@.language {
            Some(language) => match language.block_comment_delimiters {
                Some((open, close)) => {
                    assert(opening =~= seq![
                        "```"@ + language.name,
                        cell_comment(cell.id.0, open, close),
                    ]);
                },
                None => {
                    assert(opening =~= seq!["```"@ + language.name]);
                },
            },
            None => {
                assert(opening =~= seq!["```"@]);
            },
        }
    }
    crate::text::join(&paragraph, "\n")
}

impl Chat {
    /// A chat about `notebook` with the language model of the name `model`.
    pub fn new(model: String, notebook: &Notebook, cx: &Buffers) -> (chat: Chat)
        requires
            crate::cells::all_valid(cx@, notebook.cells.tree@),
        ensures
            chat.model == model,
            turns_view(chat.messages@) == seq![
                TurnView {
                    role: Role::System,
                    content: system_prompt(notebook.cells.tree@, cx@),
                },
            ],
    {
        let mut chat = Chat { model, messages: Vec::new() };
        chat.set_system_prompt(notebook, cx);
        assert(turns_view(chat.messages@) =~= seq![
            TurnView { role: Role::System, content: system_prompt(notebook.cells.tree@, cx@) },
        ]);
        chat
    }

    /// Puts what the language model is told of `notebook` in front of all other turns.
    pub fn set_system_prompt(&mut self, notebook: &Notebook, cx: &Buffers)
        requires
            crate::cells::all_valid(cx@, notebook.cells.tree@),
        ensures
            final(self).model == old(self).model,
            turns_view(final(self).messages@) == seq![
                TurnView {
                    role: Role::System,
                    content: system_prompt(notebook.cells.tree@, cx@),
                },
            ] + turns_view(old(self).messages@),
    {
        let ghost tree = notebook.cells.tree@;
        let mut paragraphs: Vec<String> = Vec::new();
        let mut i: usize = 0;
        while i < notebook.cells.tree.len()
            invariant
                i <= notebook.cells.tree.len(),
                tree == notebook.cells.tree@,
                crate::cells::all_valid(cx@, tree),
                paragraphs.len() == i,
                forall|j: int|
                    0 <= j < i ==> (#[trigger] paragraphs@[j])@ == cell_paragraphs(tree, cx@)[j],
            decreases notebook.cells.tree.len() - i,
        {
            assert(tree[i as int].valid(cx@));
            paragraphs.push(show_cell(&notebook.cells.tree[i], cx));
            i += 1;
        }
        assert(crate::text::texts(paragraphs@) =~= cell_paragraphs(tree, cx@));
        let mut parts: Vec<String> = Vec::new();
        parts.push(introduce());
        parts.push(crate::text::join(&paragraphs, "\n\n"));
        assert(crate::text::texts(parts@) =~= seq![
            introduction(),
            crate::text::joined(cell_paragraphs(tree, cx@), "\n\n"@),
        ]);
        let prompt = Turn { role: Role::System, content: crate::text::join(&parts, "\n\n") };
        let ghost before = self.messages@;
        self.messages.insert(0, prompt);
        assert(turns_view(self.messages@) =~= seq![prompt@] + turns_view(before));
    }

    /// All turns so far.
    pub fn history(&self) -> (turns: Vec<Turn>)
        ensures
            turns_view(turns@) == turns_view(self.messages@),
    {
        let mut turns: Vec<Turn> = Vec::new();
        let mut i: usize = 0;
        while i < self.messages.len()
            invariant
                i <= self.messages.len(),
                turns.len() == i,
                forall|j: int| 0 <= j < i ==> (#[trigger] turns@[j])@ == self.messages@[j]@,
            decreases self.messages.len() - i,
        {
            turns.push(self.messages[i].clone());
            i += 1;
        }
        assert(turns_view(turns@) =~= turns_view(self.messages@));
        turns
    }

    /// What the language model is asked next: to go on after all turns so far.
    pub fn next_turn(&self) -> (request: ChatRequest)
        ensures
            request.model@ == self.model@,
            turns_view(request.messages@) == turns_view(self.messages@),
            request.stop@.len() == 0,
    {
        ChatRequest { model: self.model.clone(), messages: self.history(), stop: Vec::new() }
    }

    /// What the task that takes the next turn does when `event` happens.
    pub fn turn_step<E>(event: TurnEvent<E>) -> (step: TurnStep<E>)
        ensures
            step == event.step(),
    {
        match event {
            TurnEvent::Opened(Ok(_)) => TurnStep::Await,
            TurnEvent::Opened(Err(error)) => TurnStep::Finish(Err(error)),
            TurnEvent::Item(Some(Ok(delta))) => TurnStep::HandOut(delta),
            TurnEvent::Item(_) => TurnStep::Finish(Ok(())),
            TurnEvent::HandedOut(Ok(_)) => TurnStep::Await,
            TurnEvent::HandedOut(Err(error)) => TurnStep::Finish(Err(error)),
        }
    }
}

/// What happens while a language model takes the next turn.
#[derive(Debug)]
pub enum TurnEvent<E> {
    /// The language model begins to answer, or does not.
    Opened(Result<(), E>),
    /// The next part of the answer comes, or fails to come. There is none at its end.
    Item(Option<Result<String, E>>),
    /// A part of the answer was handed out, and whoever got it could use it or not.
    HandedOut(Result<(), E>),
}

/// What to do next while a language model takes a turn.
#[derive(Debug)]
pub enum TurnStep<E> {
    /// Wait for the next part of the answer.
    Await,
    /// Hand out a part of the answer.
    HandOut(String),
    /// Stop. The turn ends with this result.
    Finish(Result<(), E>),
}

impl<E> TurnEvent<E> {
    /// What to do when the event happens. Both a part that fails to come and the end of the answer
    /// end the turn well.
    pub open spec fn step(self) -> TurnStep<E> {
        match self {
            TurnEvent::Opened(Ok(_)) => TurnStep::Await,
            TurnEvent::Opened(Err(error)) => TurnStep::Finish(Err(error)),
            TurnEvent::Item(Some(Ok(delta))) => TurnStep::HandOut(delta),
            TurnEvent::Item(_) => TurnStep::Finish(Ok(())),
            TurnEvent::HandedOut(Ok(_)) => TurnStep::Await,
            TurnEvent::HandedOut(Err(error)) => TurnStep::Finish(Err(error)),
        }
    }
}

/// How far a turn has come.
pub struct TurnProgress<E> {
    /// The parts that were handed out, in order.
    pub handed_out: Seq<String>,
    /// How the turn ended, if it did.
    pub result: Option<Result<(), E>>,
}

/// How far a turn has come after `events`. What happens after its end makes no difference.
pub open spec fn turn_progress<E>(events: Seq<TurnEvent<E>>) -> TurnProgress<E>
    decreases events.len(),
{
    if events.len() == 0 {
        TurnProgress { handed_out: Seq::empty(), result: None }
    } else {
        let before = turn_progress(events.drop_last());
        if before.result is Some {
            before
        } else {
            match events.last().step() {
                TurnStep::Await => before,
                TurnStep::HandOut(delta) => TurnProgress {
                    handed_out: before.handed_out.push(delta),
                    ..before
                },
                TurnStep::Finish(result) => TurnProgress { result: Some(result), ..before },
            }
        }
    }
}

/// What happens in a turn that begins as `opened` says and brings the parts `deltas`, each with
/// what comes of handing it out.
pub open spec fn turn_events<E>(
    opened: Result<(), E>,
    deltas: Seq<(String, Result<(), E>)>,
) -> Seq<TurnEvent<E>>
    decreases deltas.len(),
{
    if deltas.len() == 0 {
        seq![TurnEvent::Opened(opened)]
    } else {
        turn_events(opened, deltas.drop_last()).push(
            TurnEvent::Item(Some(Ok(deltas.last().0))),
        ).push(TurnEvent::HandedOut(deltas.last().1))
    }
}

/// The parts among `deltas`.
pub open spec fn parts_of<E>(deltas: Seq<(String, Result<(), E>)>) -> Seq<String> {
    deltas.map_values(|delta: (String, Result<(), E>)| delta.0)
}

/// If the language model does not begin to answer, the turn ends with its error, and nothing is
/// handed out.
pub proof fn lemma_turn_not_opened<E>(error: E, deltas: Seq<(String, Result<(), E>)>)
    ensures
        turn_progress(turn_events(Err(error), deltas)) == (TurnProgress::<E> {
            handed_out: Seq::empty(),
            result: Some(Err(error)),
        }),
    decreases deltas.len(),
{
    let events = turn_events(Err::<(), E>(error), deltas);
    if deltas.len() == 0 {
        assert(events.drop_last() =~= Seq::empty());
        assert(turn_progress(events.drop_last()).result is None);
    } else {
        let front = turn_events(Err::<(), E>(error), deltas.drop_last());
        let item = TurnEvent::Item(Some(Ok(deltas.last().0)));
        lemma_turn_not_opened(error, deltas.drop_last());
        assert(events.drop_last() =~= front.push(item));
        assert(front.push(item).drop_last() =~= front);
    }
}

/// As long as every part can be used, each is handed out once, in order, and the turn goes on. It
/// ends well at the end of the answer, and also where a part fails to come.
pub proof fn lemma_turn_hands_out<E>(deltas: Seq<(String, Result<(), E>)>, last: TurnEvent<E>)
    requires
        forall|i: int| 0 <= i < deltas.len() ==> (#[trigger] deltas[i]).1 is Ok,
        last == TurnEvent::<E>::Item(None) || (last is Item && last->Item_0 matches Some(Err(_))),
    ensures
        turn_progress(turn_events(Ok(()), deltas)) == (TurnProgress::<E> {
            handed_out: parts_of(deltas),
            result: None,
        }),
        turn_progress(turn_events(Ok(()), deltas).push(last)) == (TurnProgress::<E> {
            handed_out: parts_of(deltas),
            result: Some(Ok(())),
        }),
{
    let events = turn_events(Ok::<(), E>(()), deltas);
    lemma_turn_goes_on(deltas);
    assert(events.push(last).drop_last() =~= events);
}

proof fn lemma_turn_goes_on<E>(deltas: Seq<(String, Result<(), E>)>)
    requires
        forall|i: int| 0 <= i < deltas.len() ==> (#[trigger] deltas[i]).1 is Ok,
    ensures
        turn_progress(turn_events(Ok(()), deltas)) == (TurnProgress::<E> {
            handed_out: parts_of(deltas),
            result: None,
        }),
    decreases deltas.len(),
{
    let events = turn_events(Ok::<(), E>(()), deltas);
    if deltas.len() == 0 {
        assert(events.drop_last() =~= Seq::empty());
        assert(turn_progress(events.drop_last()).result is None);
        assert(parts_of(deltas) =~= Seq::empty());
    } else {
        let shorter = deltas.drop_last();
        assert forall|i: int| 0 <= i < shorter.len() implies (#[trigger] shorter[i]).1 is Ok by {
            assert(deltas[i].1 is Ok);
        }
        lemma_turn_goes_on(shorter);
        let front = turn_events(Ok::<(), E>(()), shorter);
        let item = TurnEvent::Item(Some(Ok(deltas.last().0)));
        assert(events.drop_last() =~= front.push(item));
        assert(front.push(item).drop_last() =~= front);
        assert(deltas[deltas.len() - 1].1 is Ok);
        assert(parts_of(deltas) =~= parts_of(shorter).push(deltas.last().0));
    }
}

/// The first part that cannot be used ends the turn with the error that it met, and no part is
/// handed out after it.
pub proof fn lemma_turn_ends_with_first_error<E>(
    deltas: Seq<(String, Result<(), E>)>,
    first: int,
    error: E,
)
    requires
        0 <= first < deltas.len(),
        forall|i: int| 0 <= i < first ==> (#[trigger] deltas[i]).1 is Ok,
        deltas[first].1 == Err::<(), E>(error),
    ensures
        turn_progress(turn_events(Ok(()), deltas)) == (TurnProgress::<E> {
            handed_out: parts_of(deltas.take(first + 1)),
            result: Some(Err(error)),
        }),
    decreases deltas.len(),
{
    let events = turn_events(Ok::<(), E>(()), deltas);
    let shorter = deltas.drop_last();
    let front = turn_events(Ok::<(), E>(()), shorter);
    let item = TurnEvent::Item(Some(Ok(deltas.last().0)));
    assert(events.drop_last() =~= front.push(item));
    assert(front.push(item).drop_last() =~= front);
    if first == deltas.len() - 1 {
        assert forall|i: int| 0 <= i < shorter.len() implies (#[trigger] shorter[i]).1 is Ok by {
            assert(deltas[i].1 is Ok);
        }
        lemma_turn_goes_on(shorter);
        assert(parts_of(deltas.take(first + 1)) =~= parts_of(shorter).push(deltas.last().0));
        assert(turn_progress(front.push(item)).handed_out =~= parts_of(deltas.take(first + 1)));
        assert(events.last().step() == TurnStep::Finish(Err::<(), E>(error)));
    } else {
        assert forall|i: int| 0 <= i < first implies (#[trigger] shorter[i]).1 is Ok by {
            assert(deltas[i].1 is Ok);
        }
        lemma_turn_ends_with_first_error(shorter, first, error);
        assert(shorter.take(first + 1) =~= deltas.take(first + 1));
        assert(turn_progress(front.push(item)) == turn_progress(front));
    }
}

/// What a language model is told of a notebook shows each of its cells.
pub proof fn lemma_prompt_shows_each_cell(cells: Seq<Cell>, buffers: Seq<BufferView>, i: int) -> (
    around: (Seq<char>, Seq<char>))
    requires
        0 <= i < cells.len(),
    ensures
        system_prompt(cells, buffers) == around.0 + cell_paragraph(
            cells[i].id.0,
            buffers[cells[i].source.index as int],
        ) + around.1,
{
    let paragraphs = cell_paragraphs(cells, buffers);
    let paragraph = paragraphs[i];
    let (inner_before, inner_after) = crate::text::lemma_joined_holds_part(
        paragraphs,
        "\n\n"@,
        i,
    );
    let parts = seq![introduction(), crate::text::joined(paragraphs, "\n\n"@)];
    let (outer_before, outer_after) = crate::text::lemma_joined_holds_part(parts, "\n\n"@, 1);
    let before = outer_before + inner_before;
    let after = inner_after + outer_after;
    assert(system_prompt(cells, buffers) =~= before + paragraph + after);
    (before, after)
}

} // verus!
