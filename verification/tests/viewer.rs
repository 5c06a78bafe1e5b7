use notebook::buffer::{Buffer, Buffers};
use notebook::json::{Json, JsonNumber};
use notebook::notebook::NotebookFile;
use notebook::viewer::{
    CellBuilder, CellId, CellSummary, CellType, Notebook, NotebookBuilder, NotebookEditor,
    ToggleNotebookView, ViewError,
};

fn text(value: &str) -> Json {
    Json::String(value.to_string())
}

fn count(value: u64) -> Json {
    Json::Number(JsonNumber::Unsigned(value))
}

fn pair(key: &str, value: Json) -> (String, Json) {
    (key.to_string(), value)
}

fn head() -> Vec<(String, Json)> {
    vec![pair("nbformat", count(4)), pair("nbformat_minor", count(5))]
}

#[test]
fn numbers_of_cells_are_not_zero() {
    assert!(CellId::new(0).is_none());
    assert_eq!(CellId::new(3).unwrap().get(), 3);
}

#[test]
fn documents_without_cells_are_read() {
    let mut cx = Buffers::new();
    let mut map = head();
    map.push(pair("metadata", Json::Object(vec![pair("k", text("v"))])));
    map.push(pair("cells", Json::Array(vec![])));
    map.push(pair("other", Json::Null));
    let builder = NotebookBuilder::new(Some(NotebookFile::Other)).visit_map(map, &mut cx).unwrap();
    let notebook = builder.build();
    assert_eq!(notebook.nbformat, 4);
    assert_eq!(notebook.nbformat_minor, 5);
    assert_eq!(notebook.metadata.unwrap(), vec![("k".to_string(), "v".to_string())]);
    assert!(notebook.cells.is_empty());
    assert!(matches!(notebook.file, Some(NotebookFile::Other)));
}

#[test]
fn documents_with_cells_are_refused() {
    let mut cx = Buffers::new();
    let mut map = head();
    map.push(pair("cells", Json::Array(vec![Json::Object(vec![])])));
    let error = NotebookBuilder::new(None).visit_map(map, &mut cx).unwrap_err();
    assert_eq!(error, ViewError::Number);
    assert_eq!(error.message(), Some("Nope"));
}

#[test]
fn entries_of_the_wrong_form_are_refused() {
    let wrong = vec![
        pair("nbformat", text("4")),
        pair("nbformat_minor", Json::Bool(true)),
        pair("metadata", Json::Object(vec![pair("k", count(1))])),
        pair("cells", text("x")),
    ];
    for entry in wrong {
        let mut cx = Buffers::new();
        let error = NotebookBuilder::new(None).visit_map(vec![entry], &mut cx).unwrap_err();
        assert_eq!(error, ViewError::Form);
        assert_eq!(error.message(), None);
    }
}

#[test]
fn refused_documents_are_shown_empty() {
    let mut cx = Buffers::new();
    let file = Some(NotebookFile::Other);
    let notebook = Notebook::from_document(file, Some(vec![pair("cells", text("x"))]), &mut cx);
    assert!(notebook.file.is_none());
    assert_eq!(notebook.nbformat, 0);
    let unread = Notebook::from_document(None, None, &mut cx);
    assert!(unread.cells.is_empty());
    let read = Notebook::from_document(None, Some(head()), &mut cx);
    assert_eq!(read.nbformat, 4);
    assert!(read.entry_id().is_none());
    assert!(read.project_path().is_none());
}

#[test]
fn parts_of_a_cell() {
    let mut cx = Buffers::new();
    let map = vec![
        pair("cell_id", text("id")),
        pair("cell_type", text("Markdown")),
        pair("metadata", Json::Object(vec![])),
        pair("source", text("a\nb")),
        pair("execution_count", count(2)),
        pair("other", Json::Null),
    ];
    let cell = CellBuilder::new(CellId::new(1).unwrap(), map, &mut cx).build();
    assert_eq!(cell.cell_id.as_deref(), Some("id"));
    assert_eq!(cell.cell_type, CellType::Markdown);
    assert_eq!(cell.execution_count, Some(2));
    assert_eq!(cx.read(cell.source).text(), "a\nb");
    let mut summary = cell.summary();
    summary.add_summary(&CellSummary { cell_type: CellType::Raw });
    assert_eq!(summary.cell_type, CellType::Markdown);
}

#[test]
fn parts_of_the_wrong_form() {
    let mut cx = Buffers::new();
    let map = vec![
        pair("cell_id", count(1)),
        pair("cell_type", text("markdown")),
        pair("metadata", text("m")),
        pair("source", Json::Array(vec![text("a")])),
        pair("execution_count", text("2")),
    ];
    let builder = CellBuilder::new(CellId::new(1).unwrap(), map, &mut cx);
    assert!(builder.cell_id.is_none());
    assert!(builder.cell_type.is_none());
    assert!(builder.metadata.is_none());
    assert!(builder.execution_count.is_none());
    assert_eq!(cx.read(builder.source.unwrap()).text(), "");
}

#[test]
fn names_of_cell_types() {
    assert_eq!(CellType::from_json(&text("Raw")), Some(CellType::Raw));
    assert_eq!(CellType::from_json(&text("Code")), Some(CellType::Code));
    let tagged = Json::Object(vec![pair("Code", Json::Null)]);
    assert_eq!(CellType::from_json(&tagged), Some(CellType::Code));
    let filled = Json::Object(vec![pair("Code", count(1))]);
    assert_eq!(CellType::from_json(&filled), None);
    assert_eq!(CellType::from_json(&Json::Null), None);
    assert_eq!(CellType::default(), CellType::Code);
}

#[test]
fn cells_are_shown_one_after_the_other() {
    let mut cx = Buffers::new();
    let mut cells = Vec::new();
    for source in ["a\nb\nc", "d"] {
        let map = vec![
            pair("cell_type", text("Code")),
            pair("metadata", Json::Object(vec![])),
            pair("source", text(source)),
        ];
        cells.push(CellBuilder::new(CellId::new(1).unwrap(), map, &mut cx).build());
    }
    let notebook =
        Notebook { file: None, metadata: None, nbformat: 4, nbformat_minor: 5, cells };
    let editor = NotebookEditor::new(notebook, &cx);
    let ranges: Vec<(usize, usize)> =
        editor.multi.excerpts.iter().map(|excerpt| excerpt.range(&cx)).collect();
    assert_eq!(ranges, vec![(0, 3), (0, 1)]);
    assert_eq!(editor.multi.excerpts[1].buffer, editor.notebook.cells[1].source);
    assert_eq!(Buffer::local("x\n".to_string()).row_count(), 2);
}

#[test]
fn ways_to_look_at_a_notebook() {
    assert!(ToggleNotebookView::NotebookEditor != ToggleNotebookView::Raw);
}
