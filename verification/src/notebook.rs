//! Notebooks, their languages, and the files that they are kept in.
use crate::buffer::{BufferView, Buffers, Language, LanguageView};
use crate::cell::{Cell, CellId};
use crate::cells::Cells;
use crate::common::NotebookError;
use crate::json::{get_entry, Json, JsonView};
use crate::kernel::JupyterKernelClient;
use crate::kernel_spec::{KernelSpec, KernelSpecView};
use vstd::prelude::*;
use vstd::string::*;

verus! {

/// A file of a worktree.
#[derive(Debug)]
pub struct WorktreeFile {
    pub worktree_id: usize,
    pub path: String,
    /// The entry of the file in its project, unless it was deleted.
    pub entry_id: Option<usize>,
}

/// The file that a notebook is kept in.
#[derive(Debug)]
pub enum NotebookFile {
    /// A file of a worktree.
    Worktree(WorktreeFile),
    /// Any other file.
    Other,
}

/// A path in a project.
#[derive(Debug)]
pub struct ProjectPath {
    pub worktree_id: usize,
    pub path: String,
}

/// A notebook.
/// <https://nbformat.readthedocs.io/en/latest/format_description.html#top-level-structure>
#[derive(Debug)]
pub struct Notebook {
    pub file: Option<NotebookFile>,
    pub language: Option<Language>,
    pub metadata: Option<Vec<(String, Json)>>,
    pub nbformat: usize,
    pub nbformat_minor: usize,
    pub cells: Cells,
    pub client_handle: Option<JupyterKernelClient>,
}

/// How a notebook comes by its language.
#[derive(Debug)]
pub enum LanguageStep {
    /// There is nothing to load.
    Settled(Result<(), NotebookError>),
    /// The language of this name is to be loaded.
    Load(String),
}

/// What the metadata of a notebook says of its kernel, if it has the form of that.
pub open spec fn kernel_spec_of(metadata: Option<Seq<(Seq<char>, JsonView)>>) -> Option<
    KernelSpecView,
> {
    match metadata {
        Some(entries) => match crate::json::lookup(entries, "kernelspec"@) {
            Some(value) => KernelSpecView::of(value),
            None => None,
        },
        None => None,
    }
}

/// `buffers` with the sources of `cells` written in `language`.
pub open spec fn sources_in_language(
    buffers: Seq<BufferView>,
    cells: Seq<Cell>,
    language: LanguageView,
) -> Seq<BufferView>
    decreases cells.len(),
{
    if cells.len() == 0 {
        buffers
    } else {
        crate::buffer::with_language(
            sources_in_language(buffers, cells.drop_last(), language),
            cells.last().source,
            Some(language),
        )
    }
}

/// The cells behind references.
pub open spec fn referents(cells: Seq<&Cell>) -> Seq<Cell> {
    Seq::new(cells.len(), |i: int| *cells[i])
}

/// The numbers of `cells`.
pub open spec fn cell_ids(cells: Seq<Cell>) -> Seq<CellId> {
    cells.map_values(|cell: Cell| cell.id)
}

impl Notebook {
    /// Whether the cells are in order.
    pub open spec fn wf(self, buffers: Seq<BufferView>) -> bool {
        self.cells.wf(buffers)
    }

    /// Whether `step` is how the notebook comes by its language.
    pub open spec fn language_step(self, step: LanguageStep) -> bool {
        let kernel_spec = kernel_spec_of(crate::json::optional_entries_view(self.metadata));
        if self.language is Some {
            step matches LanguageStep::Settled(Ok(_))
        } else if kernel_spec is None {
            step matches LanguageStep::Settled(Err(error)) && error@ == "No kernel spec"@
        } else if kernel_spec->0.language == "python"@ {
            step matches LanguageStep::Load(name) && name@ == "Python"@
        } else {
            step matches LanguageStep::Settled(Ok(_))
        }
    }

    /// What the metadata says of the kernel, if it has the form of that.
    pub fn kernel_spec(&self) -> (kernel_spec: Option<KernelSpec>)
        ensures
            crate::kernel_spec::optional_kernel_spec_view(kernel_spec) == kernel_spec_of(
                crate::json::optional_entries_view(self.metadata),
            ),
    {
        match &self.metadata {
            Some(metadata) => KernelSpec::from_json(get_entry(metadata, "kernelspec")?),
            None => None,
        }
    }

    /// Takes a client of a kernel in, unless that could not be had.
    pub fn try_init_kernel_client(
        &mut self,
        client: Result<JupyterKernelClient, NotebookError>,
    ) -> (result: Result<(), NotebookError>)
        ensures
            match client {
                Ok(client) => result is Ok && *final(self) == (Notebook {
                    client_handle: Some(client),
                    ..*old(self)
                }),
                Err(error) => result == Err::<(), NotebookError>(error) && *final(self) == *old(
                    self,
                ),
            },
    {
        match client {
            Ok(client) => {
                self.client_handle = Some(client);
                Ok(())
            },
            Err(error) => Err(error),
        }
    }

    /// Finds out how the notebook comes by its language: by what the metadata says of the kernel,
    /// unless it has a language already.
    pub fn try_get_notebook_language(&self) -> (step: LanguageStep)
        ensures
            self.language_step(step),
    {
        if self.language.is_some() {
            return LanguageStep::Settled(Ok(()));
        }
        match self.kernel_spec() {
            None => LanguageStep::Settled(Err(NotebookError::new("No kernel spec"))),
            Some(kernel_spec) => if crate::text::same_text(
                kernel_spec.language.as_str(),
                "python",
            ) {
                LanguageStep::Load("Python".to_owned())
            } else {
                LanguageStep::Settled(Ok(()))
            },
        }
    }

    /// Takes the language in that was loaded. There is none if it could not be.
    pub fn language_loaded(&mut self, language: Result<Language, NotebookError>)
        ensures
            *final(self) == (Notebook {
                language: match language {
                    Ok(language) => Some(language),
                    Err(_) => None,
                },
                ..*old(self)
            }),
    {
        self.language = language.ok();
    }

    /// Writes the sources of `for_cells`, or else of all cells, in the language of the notebook.
    /// Returns the numbers of those cells: none if the notebook has no language.
    pub fn try_set_source_languages(&self, cx: &mut Buffers, for_cells: Option<Vec<&Cell>>) -> (
        ids: Vec<CellId>)
        requires
            for_cells is None ==> crate::cells::all_valid(old(cx)@, self.cells.tree@),
            for_cells matches Some(cells) ==> crate::cells::all_valid(
                old(cx)@,
                referents(cells@),
            ),
        ensures
            ({
                let cells = match for_cells {
                    Some(cells) => referents(cells@),
                    None => self.cells.tree@,
                };
                match self.language {
                    Some(language) => {
                        &&& ids@ == cell_ids(cells)
                        &&& final(cx)@ == sources_in_language(old(cx)@, cells, language@)
                    },
                    None => ids@.len() == 0 && final(cx)@ == old(cx)@,
                }
            }),
            final(cx)@.len() == old(cx)@.len(),
    {
        let mut res: Vec<CellId> = Vec::new();
        let Some(language) = &self.language else {
            return res;
        };
        let cells: Vec<&Cell> = match for_cells {
            Some(cells) => cells,
            None => {
                let mut cells: Vec<&Cell> = Vec::new();
                let mut i: usize = 0;
                while i < self.cells.tree.len()
                    invariant
                        i <= self.cells.tree.len(),
                        cells.len() == i,
                        forall|j: int|
                            0 <= j < i ==> *(#[trigger] cells@[j]) == self.cells.tree@[j],
                    decreases self.cells.tree.len() - i,
                {
                    cells.push(&self.cells.tree[i]);
                    i += 1;
                }
                assert(referents(cells@) =~= self.cells.tree@);
                cells
            },
        };
        let ghost start = cx@;
        let ghost all = referents(cells@);
        let mut i: usize = 0;
        while i < cells.len()
            invariant
                i <= cells.len(),
                all == referents(cells@),
                crate::cells::all_valid(start, all),
                res@ == cell_ids(all.take(i as int)),
                cx@ == sources_in_language(start, all.take(i as int), language@),
                cx@.len() == start.len(),
            decreases cells.len() - i,
        {
            assert(all[i as int] == *cells@[i as int]);
            assert(all[i as int].valid(start));
            cx.set_language(cells[i].source, Some(language.clone()));
            res.push(cells[i].id);
            i += 1;
            proof {
                assert(all.take(i as int).drop_last() =~= all.take(i - 1));
                assert(res@ =~= cell_ids(all.take(i as int)));
            }
        }
        assert(all.take(i as int) =~= all);
        res
    }

    /// The entry of the file of the notebook in its project.
    pub fn entry_id(&self) -> (entry_id: Option<usize>)
        ensures
            entry_id == (match self.file {
                Some(NotebookFile::Worktree(file)) => file.entry_id,
                _ => None,
            }),
    {
        match &self.file {
            Some(NotebookFile::Worktree(file)) => file.entry_id,
            _ => None,
        }
    }

    /// Where the file of the notebook lies in its project.
    pub fn project_path(&self) -> (path: Option<ProjectPath>)
        ensures
            match self.file {
                Some(NotebookFile::Worktree(file)) => path matches Some(path) && path.worktree_id
                    == file.worktree_id && path.path@ == file.path@,
                _ => path is None,
            },
    {
        match &self.file {
            Some(NotebookFile::Worktree(file)) => Some(
                ProjectPath { worktree_id: file.worktree_id, path: file.path.clone() },
            ),
            _ => None,
        }
    }
}

} // verus!
