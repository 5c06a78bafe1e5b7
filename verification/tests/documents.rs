use notebook::buffer::{BufferId, Buffers, Language};
use notebook::cell::{CellBuilder, CellId, CellType};
use notebook::common::NotebookError;
use notebook::json::{get_entry, Json, JsonNumber, ParseError};
use notebook::kernel_spec::KernelSpec;
use notebook::notebook::{LanguageStep, Notebook, NotebookFile, WorktreeFile};
use notebook::notebook_builder::{DocumentEntry, NotebookBuilder};
use notebook::output::{
    IpynbCodeOutput, MimeData, MimeType, OutputHandler, StreamOutputTarget, StreamOutputText,
};

fn text(value: &str) -> Json {
    Json::String(value.to_string())
}

fn count(value: u64) -> Json {
    Json::Number(JsonNumber::Unsigned(value))
}

fn pair(key: &str, value: Json) -> (String, Json) {
    (key.to_string(), value)
}

fn entry(key: &str, value: Json) -> DocumentEntry {
    DocumentEntry { key: key.to_string(), value }
}

/// The document form of what was written to a stream.
fn written(name: &str, value: Json) -> Json {
    Json::Object(vec![
        pair("output_type", text("stream")),
        pair("name", text(name)),
        pair("text", value),
    ])
}

fn stdout(value: &str) -> IpynbCodeOutput {
    IpynbCodeOutput::Stream {
        name: StreamOutputTarget::Stdout,
        text: StreamOutputText::Text(value.to_string()),
    }
}

fn title(buffers: &Buffers, id: BufferId) -> Vec<String> {
    buffers.read(id).file().unwrap().title.clone()
}

fn sample(cx: &mut Buffers) -> NotebookBuilder {
    let first = Json::Object(vec![
        pair("cell_id", text("a")),
        pair("cell_type", text("code")),
        pair("metadata", Json::Object(vec![])),
        pair("source", Json::Array(vec![text("import os\n"), text("os.getcwd()")])),
        pair("execution_count", count(3)),
        pair(
            "outputs",
            Json::Array(vec![
                written("stdout", text("one")),
                written("stderr", text("warning")),
                written("stdout", Json::Array(vec![text("two\n")])),
            ]),
        ),
    ]);
    let second = Json::Object(vec![
        pair("cell_type", text("markdown")),
        pair("source", text("# Title")),
    ]);
    let spec = Json::Object(vec![
        pair("display_name", text("Python 3")),
        pair("language", text("python")),
        pair("name", text("python3")),
    ]);
    let entries = vec![
        entry("metadata", Json::Object(vec![pair("kernelspec", spec)])),
        entry("nbformat", count(4)),
        entry("nbformat_minor", count(5)),
        entry("cells", Json::Array(vec![first, second])),
    ];
    NotebookBuilder::new(None).visit_map(entries, true, cx)
}

#[test]
fn document_gives_numbered_cells() {
    let mut cx = Buffers::new();
    let builder = sample(&mut cx);
    assert_eq!(builder.nbformat, Some(4));
    assert_eq!(builder.nbformat_minor, Some(5));
    assert_eq!(builder.cell_builders.len(), 2);
    let (notebook, step) = builder.build(&mut cx);
    let cells = notebook.cells.iter();
    assert_eq!(cells.len(), 2);
    assert_eq!(cells[0].id, CellId(1));
    assert_eq!(cells[1].id, CellId(2));
    assert_eq!(cells[0].cell_type, CellType::Code);
    assert_eq!(cells[1].cell_type, CellType::Markdown);
    assert_eq!(cells[0].execution_count, Some(3));
    assert_eq!(cells[0].cell_id.as_deref(), Some("a"));
    assert_eq!(cx.read(cells[0].source).text(), "import os\nos.getcwd()\n");
    assert_eq!(cx.read(cells[1].source).text(), "# Title\n");
    assert_eq!(cx.read(cells[0].output_content.unwrap()).text(), "one\ntwo\n");
    assert!(cells[1].output_content.is_none());
    assert!(matches!(step, LanguageStep::Load(name) if name == "Python"));
}

#[test]
fn excerpts_show_the_cells_in_order() {
    let mut cx = Buffers::new();
    let (notebook, _) = sample(&mut cx).build(&mut cx);
    let cells = notebook.cells.iter();
    let shown: Vec<BufferId> =
        notebook.cells.multi.excerpts.iter().map(|excerpt| excerpt.buffer).collect();
    assert_eq!(
        shown,
        vec![cells[0].source, cells[0].output_content.unwrap(), cells[1].source]
    );
    let ids: Vec<u64> = notebook.cells.multi.excerpts.iter().map(|excerpt| excerpt.id.0).collect();
    assert_eq!(ids, vec![1, 2, 3]);
    assert_eq!(notebook.cells.multi.excerpts[0].range(&cx), (0, 22));
}

#[test]
fn titles_name_the_cells() {
    let mut cx = Buffers::new();
    let (notebook, _) = sample(&mut cx).build(&mut cx);
    let cells = notebook.cells.iter();
    assert_eq!(title(&cx, cells[0].source), vec!["(Code)  ", "Cell 1"]);
    assert_eq!(title(&cx, cells[0].output_content.unwrap()), vec!["[Output — Cell 1]"]);
    assert_eq!(title(&cx, cells[1].source), vec!["(Markdown)  ", "Cell 2"]);
}

#[test]
fn titles_are_files_that_do_not_exist() {
    let mut cx = Buffers::new();
    let (notebook, _) = sample(&mut cx).build(&mut cx);
    let buffer = cx.read(notebook.cells.iter()[1].source);
    let file = buffer.file().unwrap();
    assert_eq!(file.path(), &vec!["(Markdown)  ".to_string(), "Cell 2".to_string()]);
    assert_eq!(file.worktree_id(), 0);
    assert_eq!(file.cell_idx, CellId(2));
    assert!(!file.is_deleted() && !file.is_created() && !file.is_private());
}

#[test]
fn entries_of_the_wrong_form_change_nothing() {
    let mut cx = Buffers::new();
    let entries = vec![
        entry("nbformat", count(4)),
        entry("nbformat", text("four")),
        entry("nbformat_minor", Json::Number(JsonNumber::Negative(-1))),
        entry("metadata", Json::Bool(true)),
        entry("cells", text("none")),
        entry("unknown", Json::Null),
    ];
    let builder = NotebookBuilder::new(None).visit_map(entries, true, &mut cx);
    assert_eq!(builder.nbformat, Some(4));
    assert_eq!(builder.nbformat_minor, None);
    assert!(builder.metadata.is_none());
    assert!(builder.cell_builders.is_empty());
    assert!(cx.models.is_empty());
}

#[test]
fn null_takes_a_part_away() {
    let mut cx = Buffers::new();
    let entries = vec![
        entry("nbformat", count(4)),
        entry("nbformat", Json::Null),
        entry("metadata", Json::Object(vec![])),
        entry("metadata", Json::Null),
    ];
    let builder = NotebookBuilder::new(None).visit_map(entries, true, &mut cx);
    assert_eq!(builder.nbformat, None);
    assert!(builder.metadata.is_none());
}

#[test]
fn cells_of_a_closed_project_have_no_source() {
    let mut cx = Buffers::new();
    let map = vec![pair("source", text("x")), pair("cell_type", text("raw"))];
    let builder = CellBuilder::new(1).process_map(map, false, &mut cx);
    assert!(builder.source.is_none());
    assert!(builder.text_summary.is_some());
    assert_eq!(builder.cell_type, Some(CellType::Raw));
}

#[test]
fn cell_parts_of_the_wrong_form_are_left_out() {
    let mut cx = Buffers::new();
    let map = vec![
        pair("cell_id", count(1)),
        pair("cell_type", text("image")),
        pair("metadata", text("none")),
        pair("source", Json::Array(vec![count(1)])),
        pair("execution_count", text("one")),
        pair("outputs", text("none")),
    ];
    let builder = CellBuilder::new(7).process_map(map, true, &mut cx);
    assert_eq!(builder.id, 7);
    assert!(builder.cell_id.is_none());
    assert!(builder.cell_type.is_none());
    assert!(builder.metadata.is_none());
    assert!(builder.source.is_none());
    assert!(builder.execution_count.is_none());
    assert!(builder.outputs.is_none());
    assert!(builder.output_content.is_none());
}

#[test]
fn cell_type_names() {
    assert_eq!(CellType::visit_str("raw"), Ok(CellType::Raw));
    assert_eq!(CellType::visit_str("markdown"), Ok(CellType::Markdown));
    assert_eq!(CellType::visit_str("code"), Ok(CellType::Code));
    assert_eq!(CellType::visit_str("Code"), Err(ParseError));
    assert_eq!(CellType::default(), CellType::Code);
}

#[test]
fn only_standard_output_is_shown() {
    let outputs = vec![
        stdout("first"),
        IpynbCodeOutput::Stream {
            name: StreamOutputTarget::Stderr,
            text: StreamOutputText::Text("warning".to_string()),
        },
        IpynbCodeOutput::DisplayData {
            data: vec![(MimeType::Plain, MimeData::MultiLineText(vec!["x".to_string()]))],
            metadata: vec![],
        },
        IpynbCodeOutput::ExecutionResult { execution_count: 1, data: vec![], metadata: vec![] },
        IpynbCodeOutput::Stream {
            name: StreamOutputTarget::Stdout,
            text: StreamOutputText::MultiLineText(vec!["a\n".to_string(), "b".to_string()]),
        },
    ];
    let shown: Vec<Option<String>> = outputs
        .iter()
        .map(|output| OutputHandler::try_from(output).unwrap().as_rope())
        .collect();
    assert_eq!(
        shown,
        vec![Some("first".to_string()), None, None, None, Some("a\nb".to_string())]
    );
}

#[test]
fn kernel_spec_is_read_from_the_metadata() {
    let mut cx = Buffers::new();
    let (notebook, _) = sample(&mut cx).build(&mut cx);
    let spec = notebook.kernel_spec().unwrap();
    assert_eq!(spec.display_name, "Python 3");
    assert_eq!(spec.language, "python");
    assert!(spec.argv.is_none());
    assert!(spec.env.is_none());
}

#[test]
fn kernel_spec_fields() {
    let full = Json::Object(vec![
        pair("argv", Json::Array(vec![text("python"), text("-m")])),
        pair("display_name", text("P")),
        pair("language", text("julia")),
        pair("interrup_mode", text("signal")),
        pair("env", Json::Object(vec![pair("A", text("1"))])),
        pair("metadata", Json::Object(vec![pair("k", Json::Bool(true))])),
    ]);
    let spec = KernelSpec::from_json(&full).unwrap();
    assert_eq!(spec.argv.unwrap(), vec!["python", "-m"]);
    assert_eq!(spec.interrup_mode.as_deref(), Some("signal"));
    assert_eq!(spec.env.unwrap(), vec![("A".to_string(), "1".to_string())]);
    assert_eq!(spec.metadata.unwrap().len(), 1);

    let without_language = Json::Object(vec![pair("display_name", text("P"))]);
    assert!(KernelSpec::from_json(&without_language).is_none());
    let wrong_env = Json::Object(vec![
        pair("display_name", text("P")),
        pair("language", text("julia")),
        pair("env", Json::Object(vec![pair("A", count(1))])),
    ]);
    assert!(KernelSpec::from_json(&wrong_env).is_none());
    let in_order = Json::Array(vec![
        Json::Null,
        text("P"),
        text("julia"),
        Json::Null,
        Json::Null,
        Json::Null,
    ]);
    assert_eq!(KernelSpec::from_json(&in_order).unwrap().language, "julia");
    assert!(KernelSpec::from_json(&Json::Array(vec![text("P"), text("julia")])).is_none());
    assert!(KernelSpec::from_json(&text("P")).is_none());
}

fn notebook_with_spec(spec: Option<Json>) -> Notebook {
    let mut cx = Buffers::new();
    let mut entries =
        vec![entry("nbformat", count(4)), entry("nbformat_minor", count(0))];
    if let Some(spec) = spec {
        entries.push(entry("metadata", Json::Object(vec![pair("kernelspec", spec)])));
    }
    NotebookBuilder::new(None).visit_map(entries, true, &mut cx).build(&mut cx).0
}

#[test]
fn language_comes_from_the_kernel_spec() {
    let without = notebook_with_spec(None);
    assert!(matches!(
        without.try_get_notebook_language(),
        LanguageStep::Settled(Err(error)) if error.message == "No kernel spec"
    ));
    let julia = notebook_with_spec(Some(Json::Object(vec![
        pair("display_name", text("Julia")),
        pair("language", text("julia")),
    ])));
    assert!(matches!(julia.try_get_notebook_language(), LanguageStep::Settled(Ok(()))));
    let mut python = notebook_with_spec(Some(Json::Object(vec![
        pair("display_name", text("Python")),
        pair("language", text("python")),
    ])));
    assert!(
        matches!(python.try_get_notebook_language(), LanguageStep::Load(name) if name == "Python")
    );
    python.language_loaded(Err(NotebookError::new("gone")));
    assert!(python.language.is_none());
    python.language_loaded(Ok(Language {
        name: "Python".to_string(),
        block_comment_delimiters: None,
    }));
    assert!(matches!(python.try_get_notebook_language(), LanguageStep::Settled(Ok(()))));
}

#[test]
fn sources_are_written_in_the_language() {
    let mut cx = Buffers::new();
    let (mut notebook, _) = sample(&mut cx).build(&mut cx);
    assert!(notebook.try_set_source_languages(&mut cx, None).is_empty());
    let language = Language { name: "Python".to_string(), block_comment_delimiters: None };
    notebook.settle_language(Some(Ok(language)), true, &mut cx);
    let cells = notebook.cells.iter();
    assert_eq!(cx.read(cells[0].source).language().unwrap().name, "Python");
    assert_eq!(cx.read(cells[1].source).language().unwrap().name, "Python");
    assert!(cx.read(cells[0].output_content.unwrap()).language().is_none());
    let ids = notebook.try_set_source_languages(&mut cx, Some(vec![&notebook.cells.tree[1]]));
    assert_eq!(ids, vec![CellId(2)]);
}

#[test]
fn sources_of_a_closed_project_keep_their_language() {
    let mut cx = Buffers::new();
    let (mut notebook, _) = sample(&mut cx).build(&mut cx);
    let language = Language { name: "Python".to_string(), block_comment_delimiters: None };
    notebook.settle_language(Some(Ok(language)), false, &mut cx);
    assert!(notebook.language.is_some());
    assert!(cx.read(notebook.cells.iter()[0].source).language().is_none());
}

#[test]
fn file_of_a_notebook() {
    let mut notebook = notebook_with_spec(None);
    assert!(notebook.entry_id().is_none());
    assert!(notebook.project_path().is_none());
    notebook.file = Some(NotebookFile::Other);
    assert!(notebook.project_path().is_none());
    notebook.file = Some(NotebookFile::Worktree(WorktreeFile {
        worktree_id: 3,
        path: "a/b.ipynb".to_string(),
        entry_id: Some(9),
    }));
    assert_eq!(notebook.entry_id(), Some(9));
    let path = notebook.project_path().unwrap();
    assert_eq!(path.worktree_id, 3);
    assert_eq!(path.path, "a/b.ipynb");
}

#[test]
fn entries_are_found() {
    let entries = vec![pair("a", count(1)), pair("b", count(2)), pair("a", count(3))];
    assert!(matches!(
        get_entry(&entries, "a"),
        Some(Json::Number(JsonNumber::Unsigned(1)))
    ));
    assert!(matches!(
        get_entry(&entries, "b"),
        Some(Json::Number(JsonNumber::Unsigned(2)))
    ));
    assert!(get_entry(&entries, "c").is_none());
}

#[test]
fn copies_of_values() {
    let value = Json::Object(vec![
        pair("list", Json::Array(vec![Json::Null, Json::Bool(false), text("x")])),
        pair("number", Json::Number(JsonNumber::Float("1.5".to_string()))),
    ]);
    assert_eq!(format!("{:?}", value.clone()), format!("{:?}", value));
}

/// The text of the source that a document gives as `value`.
fn source_of(value: Json) -> String {
    let mut cx = Buffers::new();
    let map = vec![pair("source", value)];
    let builder = CellBuilder::new(1).process_map(map, true, &mut cx);
    cx.read(builder.source.unwrap()).text()
}

#[test]
fn the_form_of_a_source_makes_no_difference() {
    let with_breaks = Json::Array(vec![text("a\n"), text("\n"), text("b\n")]);
    let without = Json::Array(vec![text("a"), text(""), text("b")]);
    for source in [with_breaks, without, text("a\n\nb")] {
        assert_eq!(source_of(source), "a\n\nb\n");
    }
}

#[test]
fn lines_of_a_source_end_with_line_feeds() {
    assert_eq!(source_of(text("a\r\nb\rc")), "a\nb\nc\n");
    assert_eq!(source_of(Json::Array(vec![text("a\r\n"), text("b\r\n")])), "a\nb\n");
}

#[test]
fn cells_that_are_given_twice_are_not_in_order() {
    let mut cx = Buffers::new();
    let cells = || {
        let cell = Json::Object(vec![pair("source", text("x"))]);
        entry("cells", Json::Array(vec![cell]))
    };
    let entries =
        vec![entry("nbformat", count(4)), entry("nbformat_minor", count(5))];
    let builder = NotebookBuilder::new(None).visit_map(entries, true, &mut cx);
    let once = builder.visit_map(vec![cells()], true, &mut cx);
    let (notebook, _) = once.build(&mut cx);
    assert!(notebook.cells.is_in_order(&cx));

    let entries = vec![
        entry("nbformat", count(4)),
        entry("nbformat_minor", count(5)),
        cells(),
        cells(),
    ];
    let builder = NotebookBuilder::new(None).visit_map(entries, true, &mut cx);
    let (notebook, _) = builder.build(&mut cx);
    assert!(!notebook.cells.is_in_order(&cx));
}

fn array(items: Vec<Json>) -> Json {
    Json::Array(items)
}

fn object(entries: Vec<(&str, Json)>) -> Json {
    Json::Object(entries.into_iter().map(|(key, value)| pair(key, value)).collect())
}

#[test]
fn streams_are_read() {
    let stream = |name: Json, value: Json| {
        IpynbCodeOutput::from_json(&object(vec![
            ("text", value),
            ("name", name),
            ("output_type", text("stream")),
            ("other", Json::Null),
        ]))
    };
    assert!(matches!(
        stream(text("stdout"), text("a")),
        Some(IpynbCodeOutput::Stream {
            name: StreamOutputTarget::Stdout,
            text: StreamOutputText::Text(written),
        }) if written == "a"
    ));
    assert!(matches!(
        stream(text("Stderr"), array(vec![text("a\n"), text("b")])),
        Some(IpynbCodeOutput::Stream {
            name: StreamOutputTarget::Stderr,
            text: StreamOutputText::MultiLineText(lines),
        }) if lines == vec!["a\n", "b"]
    ));
    assert!(stream(object(vec![("stdout", Json::Null)]), text("a")).is_some());
    assert!(stream(object(vec![("stdout", object(vec![]))]), text("a")).is_some());
    assert!(stream(object(vec![("stdout", text("x"))]), text("a")).is_none());
    assert!(stream(object(vec![]), text("a")).is_none());
    assert!(stream(text("stdin"), text("a")).is_none());
    assert!(stream(text("stdout"), count(1)).is_none());
    assert!(stream(text("stdout"), array(vec![count(1)])).is_none());
}

#[test]
fn data_are_read() {
    let data = object(vec![
        ("text/plain", array(vec![text("x")])),
        ("application/x-first", object(vec![("a", count(1))])),
        ("application/x-second", array(vec![])),
    ]);
    let metadata = object(vec![("image/png", object(vec![("width", count(2))]))]);
    let read = IpynbCodeOutput::from_json(&object(vec![
        ("output_type", text("execute_result")),
        ("execution_count", count(7)),
        ("data", data),
        ("metadata", metadata),
    ]));
    let Some(IpynbCodeOutput::ExecutionResult { execution_count, data, metadata }) = read else {
        panic!("not read");
    };
    assert_eq!(execution_count, 7);
    let natures: Vec<MimeType> = data.iter().map(|item| item.0).collect();
    assert_eq!(natures, vec![MimeType::Plain, MimeType::Other]);
    assert!(matches!(&data[0].1, MimeData::MultiLineText(lines) if lines == &vec!["x"]));
    assert!(matches!(&data[1].1, MimeData::MultiLineText(lines) if lines.is_empty()));
    assert_eq!(metadata.len(), 1);
    assert_eq!(metadata[0].0, MimeType::Png);
    assert_eq!(metadata[0].1[0].0, "width");

    let display = |data: Json, metadata: Json| {
        IpynbCodeOutput::from_json(&object(vec![
            ("output_type", text("DisplayData")),
            ("data", data),
            ("metadata", metadata),
        ]))
    };
    assert!(display(object(vec![]), object(vec![])).is_some());
    assert!(display(object(vec![("text/html", text("x"))]), object(vec![])).is_none());
    assert!(display(object(vec![]), object(vec![("text/html", Json::Null)])).is_none());
    assert!(display(array(vec![]), object(vec![])).is_none());
    assert!(display(object(vec![]), Json::Null).is_none());
}

#[test]
fn outputs_in_the_form_of_arrays() {
    let stream = array(vec![text("stream"), text("stdout"), text("a")]);
    assert!(matches!(
        IpynbCodeOutput::from_json(&stream),
        Some(IpynbCodeOutput::Stream { .. })
    ));
    let result =
        array(vec![text("ExecutionResult"), count(1), object(vec![]), object(vec![])]);
    assert!(matches!(
        IpynbCodeOutput::from_json(&result),
        Some(IpynbCodeOutput::ExecutionResult { execution_count: 1, .. })
    ));
    let long = array(vec![text("stream"), text("stdout"), text("a"), Json::Null]);
    assert!(IpynbCodeOutput::from_json(&long).is_none());
    assert!(IpynbCodeOutput::from_json(&array(vec![])).is_none());
    assert!(IpynbCodeOutput::from_json(&array(vec![count(0)])).is_none());
}

#[test]
fn outputs_of_the_wrong_form() {
    assert!(IpynbCodeOutput::from_json(&object(vec![("output_type", text("error"))])).is_none());
    assert!(IpynbCodeOutput::from_json(&object(vec![("output_type", text("stream"))])).is_none());
    assert!(IpynbCodeOutput::from_json(&object(vec![("name", text("stdout"))])).is_none());
    assert!(IpynbCodeOutput::from_json(&Json::Null).is_none());
    let negative = object(vec![
        ("output_type", text("execute_result")),
        ("execution_count", Json::Number(JsonNumber::Negative(-1))),
        ("data", object(vec![])),
        ("metadata", object(vec![])),
    ]);
    assert!(IpynbCodeOutput::from_json(&negative).is_none());

    assert!(matches!(IpynbCodeOutput::list_from_json(&Json::Null), Ok(None)));
    assert!(matches!(IpynbCodeOutput::list_from_json(&array(vec![])), Ok(Some(list)) if list.is_empty()));
    assert!(IpynbCodeOutput::list_from_json(&object(vec![])).is_err());
    let mixed = array(vec![written("stdout", text("a")), Json::Null]);
    assert!(IpynbCodeOutput::list_from_json(&mixed).is_err());
}

#[test]
fn outputs_that_cannot_be_read_leave_the_cell_as_it_is() {
    let mut cx = Buffers::new();
    let outputs = array(vec![written("stdout", text("a"))]);
    let map = vec![pair("outputs", outputs)];
    let builder = CellBuilder::new(1).process_map(map, true, &mut cx);
    assert_eq!(cx.read(builder.output_content.unwrap()).text(), "a\n");
    let output = builder.output_content;
    let builder = builder.process_map(vec![pair("outputs", text("x"))], true, &mut cx);
    assert_eq!(builder.output_content, output);
    assert_eq!(builder.outputs.as_ref().map(|list| list.len()), Some(1));
    let builder = builder.process_map(vec![pair("outputs", array(vec![]))], true, &mut cx);
    assert!(builder.output_content.is_none());
    assert_eq!(builder.outputs.map(|list| list.len()), Some(0));
}

#[test]
fn copies_of_texts_keep_their_form() {
    let lines = StreamOutputText::MultiLineText(vec!["a".to_string()]);
    assert!(matches!(lines.clone(), StreamOutputText::MultiLineText(copy) if copy == vec!["a"]));
    let whole = StreamOutputText::Text("a".to_string());
    assert!(matches!(whole.clone(), StreamOutputText::Text(copy) if copy == "a"));
}

#[test]
fn texts_of_two_lists_of_outputs() {
    let shown = |outputs: Vec<IpynbCodeOutput>| {
        let mut cx = Buffers::new();
        let title = notebook::cell::title_for_cell_excerpt(1, None, &CellType::Code, true);
        let id = OutputHandler::try_as_buffer(&outputs, title, &mut cx).unwrap();
        cx.read(id).text()
    };
    let first = || vec![stdout("a"), stdout("b")];
    let second = || vec![stdout("c")];
    let both = first().into_iter().chain(second()).collect();
    assert_eq!(shown(both), shown(first()) + &shown(second()));
}

#[test]
fn what_can_be_read_and_built() {
    let mut cx = Buffers::new();
    let cells = entry("cells", array(vec![object(vec![("source", text("x"))])]));
    assert!(cells.can_read());
    assert!(entry("cells", text("none")).can_read());
    let builder = NotebookBuilder::new(None).visit_map(vec![cells], true, &mut cx);
    assert!(!builder.can_build(&cx));
    let format = vec![entry("nbformat", count(4)), entry("nbformat_minor", count(5))];
    let builder = builder.visit_map(format, true, &mut cx);
    assert!(builder.can_build(&cx));
    assert!(!builder.can_build(&Buffers::new()));
    let sourceless = entry("cells", array(vec![object(vec![])]));
    assert!(!builder.visit_map(vec![sourceless], true, &mut cx).can_build(&cx));
}
