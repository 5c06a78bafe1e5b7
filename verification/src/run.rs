//! How cells are run, and how what a kernel says of them is shown.
use crate::buffer::{BufferId, Buffers};
use crate::cell::{Cell, CellId, CellType};
use crate::chat::ChatRequest;
use crate::chat_turn::ChatTurn;
use crate::common::NotebookError;
use crate::editor::NotebookEditor;
use crate::kernel::{KernelCommand, KernelEvent};
use crate::notebook::Notebook;
use crate::summary::Point;
use vstd::prelude::*;

verus! {

/// What is done in order to run a cell.
#[derive(Debug)]
pub enum RunAction<S, P> {
    Nothing,
    /// Something is asked of the kernel.
    Run(KernelCommand<S, P>),
    /// Something is asked of a language model, whose answer is on its way.
    Answer(ChatTurn, ChatRequest),
}

impl NotebookEditor {
    /// Runs the cell whose source is the buffer of the active excerpt, and focuses the next one:
    /// code is handed to the kernel, where there is a client for one, and a turn of the chat to the
    /// language model. Returns where the next cell starts, and what is done. Does nothing if there
    /// is no such excerpt or no such cell.
    pub fn run_current_cell<S, P>(&mut self, active: Option<BufferId>, cx: &mut Buffers) -> (run:
        Option<(Option<Point>, RunAction<S, P>)>)
        requires
            old(self).measurable(old(cx)@),
            old(self).notebook.cells.multi.next_id < u64::MAX,
        ensures
            final(self).notebook.wf(final(cx)@),
            ({
                let tree = old(self).notebook.cells.tree@;
                let measured = crate::cell_update::all_measured(old(cx)@, tree);
                match crate::editing::active_place(tree, active) {
                    Some(at) => {
                        let cell = tree[at];
                        let text = old(cx)@[cell.source.index as int].text;
                        let next = CellId((cell.id.0 + 1) as u64);
                        &&& run matches Some((point, action))
                        &&& point == crate::editor::focus_point(measured, next)
                        &&& match (cell.cell_type, old(self).notebook.client_handle) {
                            (CellType::Code, Some(_)) => {
                                &&& action matches RunAction::Run(
                                    KernelCommand::Run { cell_id, code },
                                ) && cell_id == cell.id && code@ == text
                                &&& only_measured(*old(self), measured, *final(self))
                                &&& final(cx)@ == old(cx)@
                            },
                            (CellType::Chat, _) => action matches RunAction::Answer(turn, request)
                                && crate::chat_turn::turn_begun(
                                *old(self),
                                measured.update(at, cell),
                                old(cx)@,
                                at,
                                *final(self),
                                final(cx)@,
                                turn,
                                request,
                            ),
                            _ => {
                                &&& action is Nothing
                                &&& only_measured(*old(self), measured, *final(self))
                                &&& final(cx)@ == old(cx)@
                            },
                        }
                    },
                    None => {
                        &&& run is None
                        &&& *final(self) == *old(self)
                        &&& final(cx)@ == old(cx)@
                    },
                }
            }),
    {
        let ghost before = *self;
        let ghost tree = self.notebook.cells.tree@;
        let ghost measured = crate::cell_update::all_measured(cx@, tree);
        let Some(buffer) = active else {
            return None;
        };
        let Some(index) = self.notebook.cells.index_by_buffer(buffer) else {
            return None;
        };
        let ghost at = index as int;
        proof {
            crate::cells::lemma_place_of_source(tree, buffer);
            assert(tree[at].id.0 == at + 1);
            assert(tree[at].valid(cx@));
        }
        let cell_type = self.notebook.cells.tree[index].cell_type;
        let cell_id = self.notebook.cells.tree[index].id;
        let extent = self.notebook.cells.tree[index].text_summary;
        let mut next_cell_id = cell_id;
        let next_cell_id = next_cell_id.pre_inc();
        let point = self.focus_cell(&next_cell_id, cx);
        match cell_type {
            CellType::Code => match &self.notebook.client_handle {
                Some(client) => {
                    let command = client.run_cell(&self.notebook.cells.tree[index], cx);
                    Some((point, RunAction::Run(command)))
                },
                None => Some((point, RunAction::Nothing)),
            },
            CellType::Chat => {
                // The cell keeps the extent with which it was asked.
                self.notebook.cells.tree[index].text_summary = extent;
                proof {
                    let now = self.notebook.cells.tree@;
                    assert(now =~= measured.update(at, tree[at]));
                    crate::cell_update::lemma_same_places(measured, now, at);
                    assert forall|i: int| 0 <= i < now.len() implies (#[trigger] now[i]).valid(cx@)
                        && now[i].id.0 == i + 1 by {
                        assert(measured[i].valid(cx@));
                        assert(measured[i].id.0 == i + 1);
                    }
                }
                let (turn, request) = self.next_chat_turn(&cell_id, cx);
                Some((point, RunAction::Answer(turn, request)))
            },
            _ => Some((point, RunAction::Nothing)),
        }
    }

    /// Shows what happened in the kernel in the output of the cell at the place `cell_id`.
    pub fn handle_kernel_event(&mut self, event: KernelEvent, cell_id: &CellId, cx: &mut Buffers)
        -> (result: Result<(), NotebookError>)
        requires
            ({
                let KernelEvent::ReceivedKernelMessage(msg) = event;
                crate::cell_update::printable(
                    old(self).notebook.cells,
                    old(cx)@,
                    *cell_id,
                    msg,
                )
            }),
        ensures
            final(self).notebook.wf(final(cx)@),
            final(self).chat == old(self).chat,
            final(self).notebook == (Notebook {
                cells: final(self).notebook.cells,
                ..old(self).notebook
            }),
            ({
                let KernelEvent::ReceivedKernelMessage(msg) = event;
                crate::cell_update::printed(
                    old(self).notebook.cells,
                    old(cx)@,
                    *cell_id,
                    msg,
                    final(self).notebook.cells,
                    final(cx)@,
                    result,
                )
            }),
    {
        let KernelEvent::ReceivedKernelMessage(msg) = event;
        self.notebook.cells.update_cell_from_msg(cell_id, msg, cx)
    }
}

/// Whether `after` is `before` with the cells `measured`.
pub open spec fn only_measured(
    before: NotebookEditor,
    measured: Seq<Cell>,
    after: NotebookEditor,
) -> bool {
    &&& after.notebook.cells.tree@ == measured
    &&& after.notebook.cells.multi == before.notebook.cells.multi
    &&& after.notebook == (Notebook { cells: after.notebook.cells, ..before.notebook })
    &&& after.chat == before.chat
}

} // verus!
