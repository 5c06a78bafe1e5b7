//! What holds of kernels: what documents say of them, and the task that speaks with one.
use crate::buffer::{BufferView, LanguageView};
use crate::cell::Cell;
use crate::json::JsonView;
use crate::jupyter::message::Message;
use crate::jupyter::python::{CallError, CallStep, Coroutine};
use crate::kernel::{
    ForwardMessage, KernelCommand, KernelEvent, PythonError, SendFailure, TaskAction, TaskEvent,
    TaskPhase,
};
use crate::kernel_spec::KernelSpecView;
use crate::notebook::{LanguageStep, Notebook};
use crate::open::{OpenAction, OpenFailure, OpenPhase};
use vstd::prelude::*;

verus! {

/// After an action that came to a good end, the task does what comes next: it connects, starts the
/// kernel and waits for that, listens and waits for that, adds the handler, and then waits for a
/// moment and for messages and commands in turn.
pub proof fn lemma_task_goes_on<S, P>(phase: TaskPhase, action: TaskAction<P>)
    requires
        phase !is Finished,
        phase !is Selecting,
        phase.leads_to(TaskEvent::<S, P>::Done(Ok(())), action),
    ensures
        phase is Connecting ==> action is StartKernel,
        phase is CallingStart ==> action is AwaitStart,
        phase is AwaitingStart ==> action is Listen,
        phase is CallingListen ==> action is AwaitListener,
        phase is AwaitingListener ==> action is AddHandler,
        phase is AddingHandler ==> action is Pause,
        phase is Pausing ==> action is Select,
        phase is Acting ==> action is Pause,
        !phase.shows_error(TaskEvent::<S, P>::Done(Ok(()))),
{
}

/// After an action that failed, the task ends with what the error says, or goes on as if nothing
/// had happened: where the start or the handler failed, or something in the loop. What is said of a
/// kernel that could not be asked to start tells so, with all that is known of the error. Python
/// shows the errors itself, but for those of connecting and of the listener.
pub proof fn lemma_task_after_a_failure<S, P>(
    phase: TaskPhase,
    error: PythonError,
    action: TaskAction<P>,
)
    requires
        phase !is Finished,
        phase !is Selecting,
        phase.leads_to(TaskEvent::<S, P>::Done(Err(error)), action),
    ensures
        phase is Connecting || phase is CallingListen || phase is AwaitingListener ==> (action
            matches TaskAction::Finish(Err(end)) && end@ == error.text@),
        phase is CallingStart ==> (action matches TaskAction::Finish(Err(end)) && end@
            == "Failed to call `KernelConnection.start_kernel`: "@ + error.details@),
        phase is AwaitingStart ==> action is Listen,
        phase is AddingHandler || phase is Acting ==> action is Pause,
        phase is Pausing ==> action is Select,
        phase.shows_error(TaskEvent::<S, P>::Done(Err(error))) <==> phase !is Connecting && phase
            !is Pausing,
{
}

/// What comes while the task waits decides what it does: a message is handed on, a sign of life is
/// given, code is run and a text is written down, each as it came. For all else it only waits for a
/// moment.
pub proof fn lemma_task_takes_what_comes<S, P>(event: TaskEvent<S, P>, action: TaskAction<P>)
    requires
        event !is Done,
        TaskPhase::Selecting.leads_to(event, action),
    ensures
        !TaskPhase::Selecting.shows_error(event),
        match event {
            TaskEvent::Received(Some(msg)) => action == TaskAction::<P>::Emit(
                KernelEvent::ReceivedKernelMessage(msg),
            ),
            TaskEvent::Commanded(Some(KernelCommand::Ping { tx })) => action == TaskAction::<
                P,
            >::Reply(tx),
            TaskEvent::Commanded(Some(KernelCommand::Run { cell_id: _, code })) => action == (
            TaskAction::<P>::Execute { code }),
            TaskEvent::Commanded(Some(KernelCommand::Log { text })) => action == (TaskAction::<
                P,
            >::Log { text }),
            _ => action is Pause,
        },
{
}

/// What is said of a message that did not go on tells why.
pub proof fn lemma_why_a_message_did_not_go_on()
    ensures
        ForwardMessage::send_failure(SendFailure::Full)
            == "Failed to send message: \"no available capacity\""@,
        ForwardMessage::send_failure(SendFailure::Closed)
            == "Failed to send message: \"channel closed\""@,
{
}

/// Whether `given` is what an optional field holds: nothing where the field is left out or `null`.
pub open spec fn holds_text(field: Option<JsonView>, given: Option<Seq<char>>) -> bool {
    match given {
        Some(text) => field == Some(JsonView::String(text)),
        None => field is None || field == Some(JsonView::Null),
    }
}

/// Whether `given` is what an optional field holds, if that is a list of texts.
pub open spec fn holds_texts(field: Option<JsonView>, given: Option<Seq<Seq<char>>>) -> bool {
    match given {
        Some(texts) => field == Some(crate::laws::array_of(texts)),
        None => field is None || field == Some(JsonView::Null),
    }
}

/// Whether `given` is what an optional field holds, if that is an object.
pub open spec fn holds_entries(
    field: Option<JsonView>,
    given: Option<Seq<(Seq<char>, JsonView)>>,
) -> bool {
    match given {
        Some(entries) => field == Some(JsonView::Object(entries)),
        None => field is None || field == Some(JsonView::Null),
    }
}

/// Whether `given` is what an optional field holds, if that is an object of texts.
pub open spec fn holds_pairs(
    field: Option<JsonView>,
    given: Option<Seq<(Seq<char>, Seq<char>)>>,
) -> bool {
    match given {
        Some(pairs) => field == Some(
            JsonView::Object(
                pairs.map_values(
                    |pair: (Seq<char>, Seq<char>)| (pair.0, JsonView::String(pair.1)),
                ),
            ),
        ),
        None => field is None || field == Some(JsonView::Null),
    }
}

/// Whether `spec` says of a kernel what the fields of an object do: its name and its language, and
/// the rest as far as it is there.
pub open spec fn describes(entries: Seq<(Seq<char>, JsonView)>, spec: KernelSpecView) -> bool {
    &&& crate::json::lookup(entries, "display_name"@) == Some(JsonView::String(spec.display_name))
    &&& crate::json::lookup(entries, "language"@) == Some(JsonView::String(spec.language))
    &&& holds_texts(crate::json::lookup(entries, "argv"@), spec.argv)
    &&& holds_text(crate::json::lookup(entries, "interrup_mode"@), spec.interrup_mode)
    &&& holds_pairs(crate::json::lookup(entries, "env"@), spec.env)
    &&& holds_entries(crate::json::lookup(entries, "metadata"@), spec.metadata)
}

/// What an object says of a kernel is read field by field. It says nothing if and only if a field
/// that must be there is left out or a field does not have its form.
pub proof fn lemma_kernel_is_described_by_fields(
    entries: Seq<(Seq<char>, JsonView)>,
    spec: KernelSpecView,
)
    ensures
        describes(entries, spec) <==> KernelSpecView::of(JsonView::Object(entries)) == Some(spec),
{
    let argv = crate::json::lookup(entries, "argv"@);
    let env = crate::json::lookup(entries, "env"@);
    if describes(entries, spec) {
        if let Some(texts) = spec.argv {
            crate::laws::lemma_texts_of_array(texts);
        }
        if let Some(pairs) = spec.env {
            let items = env->0->Object_0;
            assert(items == pairs.map_values(
                |pair: (Seq<char>, Seq<char>)| (pair.0, JsonView::String(pair.1)),
            ));
            assert(crate::kernel_spec::all_text_entries(items));
            assert(items.map_values(
                |entry: (Seq<char>, JsonView)| (entry.0, entry.1->String_0),
            ) =~= pairs);
        }
    }
    if KernelSpecView::of(JsonView::Object(entries)) == Some(spec) {
        if let Some(texts) = spec.argv {
            let items = argv->0->Array_0;
            assert(items =~= texts.map_values(|text: Seq<char>| JsonView::String(text)));
        }
        if let Some(pairs) = spec.env {
            let items = env->0->Object_0;
            assert(items =~= pairs.map_values(
                |pair: (Seq<char>, Seq<char>)| (pair.0, JsonView::String(pair.1)),
            ));
        }
    }
}

/// What is said of a kernel may also be given as an array of all fields, in order. It is then what
/// an object with these fields says. An array of another length, and all that is neither an array
/// nor an object, says nothing.
pub proof fn lemma_kernel_as_an_array(
    argv: JsonView,
    display_name: JsonView,
    language: JsonView,
    interrup_mode: JsonView,
    env: JsonView,
    metadata: JsonView,
    value: JsonView,
)
    ensures
        KernelSpecView::of(
            JsonView::Array(seq![argv, display_name, language, interrup_mode, env, metadata]),
        ) == KernelSpecView::of(
            JsonView::Object(
                seq![
                    ("argv"@, argv),
                    ("display_name"@, display_name),
                    ("language"@, language),
                    ("interrup_mode"@, interrup_mode),
                    ("env"@, env),
                    ("metadata"@, metadata),
                ],
            ),
        ),
        value matches JsonView::Array(items) ==> items.len() != 6 ==> KernelSpecView::of(value)
            is None,
        !(value is Array) && !(value is Object) ==> KernelSpecView::of(value) is None,
{
    reveal_strlit("argv");
    reveal_strlit("display_name");
    reveal_strlit("language");
    reveal_strlit("interrup_mode");
    reveal_strlit("env");
    reveal_strlit("metadata");
    assert("argv"@.len() == 4 && "display_name"@.len() == 12 && "language"@.len() == 8);
    assert("interrup_mode"@.len() == 13 && "env"@.len() == 3 && "metadata"@.len() == 8);
    assert("language"@[0] == 'l');
    assert("metadata"@[0] == 'm');
    let entries = seq![
        ("argv"@, argv),
        ("display_name"@, display_name),
        ("language"@, language),
        ("interrup_mode"@, interrup_mode),
        ("env"@, env),
        ("metadata"@, metadata),
    ];
    assert(crate::laws::document::distinct_keys(entries));
    crate::laws::text::lemma_entry_is_found_by_its_key(entries, 0);
    crate::laws::text::lemma_entry_is_found_by_its_key(entries, 1);
    crate::laws::text::lemma_entry_is_found_by_its_key(entries, 2);
    crate::laws::text::lemma_entry_is_found_by_its_key(entries, 3);
    crate::laws::text::lemma_entry_is_found_by_its_key(entries, 4);
    crate::laws::text::lemma_entry_is_found_by_its_key(entries, 5);
}

/// What a notebook knows of its kernel stands under `kernelspec` in its metadata, and nowhere else.
pub proof fn lemma_where_the_kernel_is_described(metadata: Seq<(Seq<char>, JsonView)>)
    ensures
        crate::notebook::kernel_spec_of(None) is None,
        crate::json::lookup(metadata, "kernelspec"@) is None ==> crate::notebook::kernel_spec_of(
            Some(metadata),
        ) is None,
        crate::json::lookup(metadata, "kernelspec"@) matches Some(value)
            ==> crate::notebook::kernel_spec_of(Some(metadata)) == KernelSpecView::of(value),
{
}

/// A notebook that has a language keeps it. One that has none takes Python where its kernel speaks
/// that, and none where it speaks another; without a word on the kernel that is an error.
pub proof fn lemma_language_of_a_notebook(
    notebook: Notebook,
    step: LanguageStep,
    entries: Seq<(Seq<char>, JsonView)>,
    spec: KernelSpecView,
)
    requires
        notebook.language_step(step),
    ensures
        notebook.language is Some ==> (step matches LanguageStep::Settled(Ok(_))),
        notebook.language is None && notebook.metadata is None ==> (step
            matches LanguageStep::Settled(Err(error)) && error@ == "No kernel spec"@),
        notebook.language is None && crate::json::optional_entries_view(notebook.metadata) == Some(
            entries,
        ) && crate::json::lookup(entries, "kernelspec"@) is None ==> (step
            matches LanguageStep::Settled(Err(error)) && error@ == "No kernel spec"@),
        notebook.language is None && crate::json::optional_entries_view(notebook.metadata) == Some(
            entries,
        ) ==> (crate::json::lookup(entries, "kernelspec"@) matches Some(JsonView::Object(fields))
            ==> (describes(fields, spec) ==> if spec.language == "python"@ {
            step matches LanguageStep::Load(name) && name@ == "Python"@
        } else {
            step matches LanguageStep::Settled(Ok(_))
        })),
{
    if let Some(JsonView::Object(fields)) = crate::json::lookup(entries, "kernelspec"@) {
        lemma_kernel_is_described_by_fields(fields, spec);
    }
}

/// Every source of the cells is written in the language, and no other buffer is. Neither texts nor
/// titles change.
pub proof fn lemma_sources_are_written_in_the_language(
    buffers: Seq<BufferView>,
    cells: Seq<Cell>,
    language: LanguageView,
)
    requires
        crate::cells::all_valid(buffers, cells),
    ensures
        ({
            let after = crate::notebook::sources_in_language(buffers, cells, language);
            &&& after.len() == buffers.len()
            &&& forall|i: int|
                0 <= i < cells.len() ==> after[(#[trigger] cells[i]).source.index as int].language
                    == Some(language)
            &&& forall|k: int|
                #![trigger after[k]]
                0 <= k < buffers.len() ==> after[k].text == buffers[k].text && after[k].file
                    == buffers[k].file
            &&& forall|k: int|
                #![trigger after[k]]
                0 <= k < buffers.len() && !is_source(cells, k) ==> after[k] == buffers[k]
        }),
    decreases cells.len(),
{
    if cells.len() > 0 {
        let front = cells.drop_last();
        assert forall|i: int| 0 <= i < front.len() implies (#[trigger] front[i]).valid(
            buffers,
        ) by {
            assert(cells[i].valid(buffers));
        }
        lemma_sources_are_written_in_the_language(buffers, front, language);
        let before = crate::notebook::sources_in_language(buffers, front, language);
        let after = crate::notebook::sources_in_language(buffers, cells, language);
        assert(cells[cells.len() - 1].valid(buffers));
        assert forall|i: int| 0 <= i < cells.len() implies after[(
        #[trigger] cells[i]).source.index as int].language == Some(language) by {
            if i < front.len() {
                assert(front[i] == cells[i]);
                assert(cells[i].valid(buffers));
            }
        }
        assert forall|k: int| 0 <= k < buffers.len() && !is_source(cells, k) implies
            #[trigger] after[k] == buffers[k] by {
            assert(cells[cells.len() - 1].source.index != k);
            if is_source(front, k) {
                let i = choose|i: int|
                    0 <= i < front.len() && (#[trigger] front[i]).source.index == k;
                assert(cells[i].source.index == k);
            }
            assert(before[k] == buffers[k]);
        }
    }
}

/// Whether the buffer at `k` is the source of one of `cells`.
pub open spec fn is_source(cells: Seq<Cell>, k: int) -> bool {
    exists|i: int| 0 <= i < cells.len() && (#[trigger] cells[i]).source.index == k
}

/// The first call of a coroutine waits at its own channel and gives the callback away; the
/// coroutine itself stays. Where no future could be made of it, the call fails with what Python
/// raised and the callback is kept. A call without a callback fails.
pub proof fn lemma_call_of_a_coroutine<C, S, R, E>(
    before: Coroutine<C, S, R>,
    ensured: Result<(), E>,
    step: CallStep<S, R, E>,
    after: Coroutine<C, S, R>,
)
    requires
        before.calls(ensured, step, after),
    ensures
        after.coro == before.coro,
        match ensured {
            Err(error) => (step matches CallStep::Fail(CallError::Raised(raised)) && raised
                == error) && after.callback == before.callback,
            Ok(_) => {
                &&& after.callback is None
                &&& before.callback matches Some(callback) ==> {
                    &&& step matches CallStep::Await { callback: given, rx }
                    &&& given.tx == callback.tx
                    &&& given.rx is None
                    &&& rx == callback.rx
                }
                &&& before.callback is None ==> (step matches CallStep::Fail(
                    CallError::Runtime(error),
                ) && error@ == "Nope"@)
            },
        },
{
}

/// A notebook is opened in this order: the file is asked for, waited for and read, its bytes are
/// taken apart, the notebook is put together, Python is made ready, a client of the kernel is made,
/// and the notebook is handed over.
pub proof fn lemma_order_of_opening(phase: OpenPhase, action: OpenAction)
    requires
        phase !is Finished,
        phase.next().does(action),
    ensures
        phase is OpeningFile ==> action is LoadFile,
        phase is LoadingFile ==> action is ReadFile,
        phase is ReadingFile ==> action is Deserialize,
        phase is Deserializing ==> action is Build,
        phase is Building ==> action is StartPython,
        phase is StartingPython ==> action is StartClient,
        phase is StartingClient ==> action is AddModel,
        phase is AddingModel ==> (action matches OpenAction::Finish(Ok(_))),
{
}

/// What is said of an opening that failed names the path where the file could not be read or its
/// bytes taken apart, and tells all that is known of the error there and where the file could not
/// be asked for. Elsewhere it is what the error says.
pub proof fn lemma_why_an_opening_failed(
    phase: OpenPhase,
    path: Seq<char>,
    failure: OpenFailure,
)
    ensures
        phase is OpeningFile ==> phase.failure(path, failure) == "Failed to open file: "@
            + failure.details@,
        phase is ReadingFile ==> phase.failure(path, failure)
            == "Failed to read notebook from notebook file `"@ + path + "`: "@ + failure.details@,
        phase is Deserializing ==> phase.failure(path, failure)
            == "Failed to deserialize notebook from path `"@ + path + "`: "@ + failure.details@,
        phase !is OpeningFile && phase !is ReadingFile && phase !is Deserializing
            ==> phase.failure(path, failure) == failure.text@,
{
}

/// The extension of a file is what follows the last dot of its name, whatever directories come
/// before the name.
pub proof fn lemma_extension_follows_the_last_dot(
    directories: Seq<char>,
    stem: Seq<char>,
    extension: Seq<char>,
)
    requires
        stem.len() > 0,
        !stem.contains('/'),
        extension.len() > 0,
        !extension.contains('/'),
        !extension.contains('.'),
    ensures
        crate::open::path_extension(stem + seq!['.'] + extension) == Some(extension),
        crate::open::path_extension(directories + seq!['/'] + (stem + seq!['.'] + extension))
            == Some(extension),
{
    let name = stem + seq!['.'] + extension;
    reveal_strlit("");
    reveal_strlit(".");
    reveal_strlit("..");
    assert(!name.contains('/')) by {
        assert forall|i: int| 0 <= i < name.len() implies name[i] != '/' by {
            if i < stem.len() {
                assert(stem.contains(stem[i]));
            } else if i > stem.len() {
                assert(extension.contains(extension[i - stem.len() - 1]));
            }
        }
    }
    assert(name.last() == extension.last());
    assert(extension.contains(extension.last()));
    assert(name != ""@ && name != "."@ && name != ".."@) by {
        assert(name.last() != '.');
        assert(name.len() >= 3);
    }
    lemma_last_part_of(Seq::empty(), name);
    assert(Seq::<char>::empty() + name =~= name);
    lemma_last_part_of(directories, name);
    lemma_extension_of_name(stem, extension);
}

proof fn lemma_last_part_of(directories: Seq<char>, name: Seq<char>)
    requires
        !name.contains('/'),
    ensures
        crate::open::last_part(name) == name,
        crate::open::last_part(directories + seq!['/'] + name) == name,
    decreases name.len(),
{
    let path = directories + seq!['/'] + name;
    if name.len() == 0 {
        assert(path.last() == '/');
        assert(crate::open::last_part(name) =~= name);
    } else {
        let front = name.drop_last();
        assert forall|i: int| 0 <= i < front.len() implies front[i] != '/' by {
            assert(name.contains(name[i]));
        }
        assert(name.contains(name.last()));
        lemma_last_part_of(directories, front);
        assert(path.drop_last() =~= directories + seq!['/'] + front);
        assert(front.push(name.last()) =~= name);
    }
}

proof fn lemma_extension_of_name(stem: Seq<char>, extension: Seq<char>)
    requires
        stem.len() > 0,
        !extension.contains('.'),
    ensures
        crate::open::extension(stem + seq!['.'] + extension) == Some(extension),
    decreases extension.len(),
{
    let name = stem + seq!['.'] + extension;
    if extension.len() == 0 {
        assert(name.last() == '.');
        assert(crate::open::extension(name) == Some(Seq::<char>::empty()));
        assert(extension =~= Seq::<char>::empty());
    } else {
        let front = extension.drop_last();
        assert forall|i: int| 0 <= i < front.len() implies front[i] != '.' by {
            assert(extension.contains(extension[i]));
        }
        assert(extension.contains(extension.last()));
        lemma_extension_of_name(stem, front);
        assert(name.drop_last() =~= stem + seq!['.'] + front);
        assert(front.push(extension.last()) =~= extension);
    }
}

/// The numbers of cells are those of each, in order, and so are the cells behind references.
pub proof fn lemma_numbers_of_cells(cells: Seq<Cell>, references: Seq<&Cell>)
    ensures
        crate::notebook::cell_ids(cells).len() == cells.len(),
        forall|i: int|
            0 <= i < cells.len() ==> #[trigger] crate::notebook::cell_ids(cells)[i] == cells[i].id,
        crate::notebook::referents(references).len() == references.len(),
        forall|i: int|
            0 <= i < references.len() ==> #[trigger] crate::notebook::referents(references)[i]
                == *references[i],
{
}

/// A file whose name holds no dot but at its start has no extension, whatever directories come
/// before the name. A slash at the end of a path makes no difference.
pub proof fn lemma_name_without_a_dot(directories: Seq<char>, name: Seq<char>)
    requires
        name.len() > 0,
        !name.contains('/'),
        !name.drop_first().contains('.'),
    ensures
        crate::open::path_extension(name) is None,
        crate::open::path_extension(directories + seq!['/'] + name) is None || name == seq!['.'],
        crate::open::path_extension((directories + seq!['/'] + name).push('/'))
            == crate::open::path_extension(directories + seq!['/'] + name),
{
    let path = directories + seq!['/'] + name;
    reveal_strlit("");
    reveal_strlit(".");
    reveal_strlit("..");
    assert("."@ =~= seq!['.']);
    assert(""@ =~= Seq::<char>::empty());
    lemma_last_part_of(directories, name);
    lemma_no_extension_of_name(name);
    let longer = path.push('/');
    assert(longer.last() == '/');
    assert(crate::open::last_part(longer) == Seq::<char>::empty());
    assert(longer.take(longer.len() - 1) =~= path);
    if name == seq!['.'] {
        assert(name.take(0) =~= Seq::<char>::empty());
        assert(crate::open::file_name(name) is None);
    }
}

proof fn lemma_no_extension_of_name(name: Seq<char>)
    requires
        name.len() > 0,
        !name.drop_first().contains('.'),
    ensures
        crate::open::extension(name) is None,
    decreases name.len(),
{
    if name.len() > 1 {
        let front = name.drop_last();
        let rest = name.drop_first();
        assert(rest.contains(rest.last()));
        assert forall|i: int| 0 <= i < front.drop_first().len() implies front.drop_first()[i]
            != '.' by {
            assert(rest.contains(rest[i]));
        }
        lemma_no_extension_of_name(front);
    }
}

/// The task takes every message and every command while it waits for them, and the end of each of
/// its actions elsewhere, good or bad, until it is finished.
pub proof fn lemma_what_the_task_takes<S, P>(
    phase: TaskPhase,
    outcome: Result<(), PythonError>,
    msg: Option<Message>,
    command: Option<KernelCommand<S, P>>,
)
    ensures
        TaskPhase::Selecting.awaits(TaskEvent::<S, P>::Received(msg)),
        TaskPhase::Selecting.awaits(TaskEvent::<S, P>::Commanded(command)),
        phase !is Selecting && phase !is Finished ==> phase.awaits(
            TaskEvent::<S, P>::Done(outcome),
        ),
{
}

} // verus!
