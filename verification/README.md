# notebook

Notebooks whose cells are edited as one text. A notebook is read from a document, shown as the
excerpts of the buffers of its cells, run by a kernel or answered by a language model.

- `src/` is the library. It is written in [Verus](https://github.com/verus-lang/verus): what each
  function does is stated in its contract and proved. The one call out of it that is not proved is
  that of `std::path::Path::extension`, in `open`.
  - `text`, `summary`, `json`: texts, their extents, and JSON values.
  - `buffer`, `multi_buffer`: the buffers that cells are made of, and the excerpts that show them.
  - `cell`, `cells`, `cell_summary`, `cell_update`, `output`, `output_reading`, `order`: cells, and
    notebooks of them.
  - `kernel_spec`, `notebook`, `notebook_builder`, `open`: how notebooks are opened and read.
  - `editor`, `editing`, `selection`, `run`: what is done with a notebook in an editor.
  - `room`: whether there is room for it.
  - `chat`, `chat_turn`: the chat about a notebook.
  - `kernel`, `jupyter`: what is asked of a kernel, and what it says.
  - `viewer`: a plain view of a notebook.
  - `laws`: what holds of notebooks as a whole.
- `tests/` runs the library on concrete notebooks.
- `app/` connects it to serde, Python and a host application.

A notebook is in order (`Cells::wf`) if its cells are numbered from 1 on and the excerpts show
their buffers, each once, as a whole, and in that order. What is done with it in an editor keeps it
so. `Cells::is_in_order` decides whether it is.
