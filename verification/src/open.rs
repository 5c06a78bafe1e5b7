//! How a notebook is opened.
use crate::common::NotebookError;
use vstd::prelude::*;
use vstd::string::*;

verus! {

/// How far the opening of a notebook has come.
#[derive(Clone, Copy, Debug, PartialEq, Eq, Structural)]
pub enum OpenPhase {
    OpeningFile,
    LoadingFile,
    ReadingFile,
    Deserializing,
    Building,
    StartingPython,
    StartingClient,
    AddingModel,
    Finished,
}

/// What is done next in order to open a notebook.
#[derive(Debug)]
pub enum OpenAction {
    /// Asks the project for the file.
    OpenFile,
    /// Waits for the file.
    LoadFile,
    /// Reads the bytes of the file.
    ReadFile,
    /// Reads the parts of the notebook from the bytes.
    Deserialize,
    /// Puts the notebook together.
    Build,
    /// Makes Python ready.
    StartPython,
    /// Makes a client of the kernel.
    StartClient,
    /// Hands the notebook to the application.
    AddModel,
    /// There is nothing more to do.
    Finish(Result<(), NotebookError>),
}

/// Why a part of the opening failed.
#[derive(Debug)]
pub struct OpenFailure {
    /// What the error says.
    pub text: String,
    /// The error with all that is known of it.
    pub details: String,
}

/// The opening of a notebook.
#[derive(Debug)]
pub struct OpenTask {
    pub phase: OpenPhase,
    /// The path of the file, with all that is known of it.
    pub path: String,
}

impl OpenPhase {
    /// The phase after one that came to a good end.
    pub open spec fn next(self) -> OpenPhase {
        match self {
            OpenPhase::OpeningFile => OpenPhase::LoadingFile,
            OpenPhase::LoadingFile => OpenPhase::ReadingFile,
            OpenPhase::ReadingFile => OpenPhase::Deserializing,
            OpenPhase::Deserializing => OpenPhase::Building,
            OpenPhase::Building => OpenPhase::StartingPython,
            OpenPhase::StartingPython => OpenPhase::StartingClient,
            OpenPhase::StartingClient => OpenPhase::AddingModel,
            OpenPhase::AddingModel => OpenPhase::Finished,
            OpenPhase::Finished => OpenPhase::Finished,
        }
    }

    /// How many phases are still to come.
    pub open spec fn remaining(self) -> nat {
        match self {
            OpenPhase::OpeningFile => 8,
            OpenPhase::LoadingFile => 7,
            OpenPhase::ReadingFile => 6,
            OpenPhase::Deserializing => 5,
            OpenPhase::Building => 4,
            OpenPhase::StartingPython => 3,
            OpenPhase::StartingClient => 2,
            OpenPhase::AddingModel => 1,
            OpenPhase::Finished => 0,
        }
    }

    /// What is said when the phase fails.
    pub open spec fn failure(self, path: Seq<char>, failure: OpenFailure) -> Seq<char> {
        match self {
            OpenPhase::OpeningFile => "Failed to open file: "@ + failure.details@,
            OpenPhase::ReadingFile => "Failed to read notebook from notebook file `"@ + path
                + "`: "@ + failure.details@,
            OpenPhase::Deserializing => "Failed to deserialize notebook from path `"@ + path
                + "`: "@ + failure.details@,
            _ => failure.text@,
        }
    }

    /// Whether `action` is what is done in the phase, unless that is the last one.
    pub open spec fn does(self, action: OpenAction) -> bool {
        match self {
            OpenPhase::OpeningFile => action is OpenFile,
            OpenPhase::LoadingFile => action is LoadFile,
            OpenPhase::ReadingFile => action is ReadFile,
            OpenPhase::Deserializing => action is Deserialize,
            OpenPhase::Building => action is Build,
            OpenPhase::StartingPython => action is StartPython,
            OpenPhase::StartingClient => action is StartClient,
            OpenPhase::AddingModel => action is AddModel,
            OpenPhase::Finished => action matches OpenAction::Finish(Ok(_)),
        }
    }
}

/// What follows the last slash of `path`; all of `path` if it holds none.
pub open spec fn last_part(path: Seq<char>) -> Seq<char>
    decreases path.len(),
{
    if path.len() == 0 || path.last() == '/' {
        Seq::empty()
    } else {
        last_part(path.drop_last()).push(path.last())
    }
}

/// The name of the file at `path`: its last part, where empty parts and those that stand for the
/// directory itself do not count. There is none where that part stands for the parent directory.
pub open spec fn file_name(path: Seq<char>) -> Option<Seq<char>>
    decreases path.len(),
{
    let last = last_part(path);
    if last == ""@ || last == "."@ {
        if last.len() < path.len() {
            file_name(path.take(path.len() - last.len() - 1))
        } else {
            None
        }
    } else if last == ".."@ {
        None
    } else {
        Some(last)
    }
}

/// What follows the last dot of `name`, unless `name` holds none but at its start.
pub open spec fn extension(name: Seq<char>) -> Option<Seq<char>>
    decreases name.len(),
{
    if name.len() <= 1 {
        None
    } else if name.last() == '.' {
        Some(Seq::empty())
    } else {
        match extension(name.drop_last()) {
            Some(extension) => Some(extension.push(name.last())),
            None => None,
        }
    }
}

/// The extension of the file at `path`.
pub open spec fn path_extension(path: Seq<char>) -> Option<Seq<char>> {
    match file_name(path) {
        Some(name) => extension(name),
        None => None,
    }
}

/// Whether `path` has the same parts on Unix and on Windows: it holds neither backslashes nor
/// colons, and does not start with two slashes.
pub open spec fn is_portable(path: Seq<char>) -> bool {
    &&& !path.contains('\\')
    &&& !path.contains(':')
    &&& path.len() < 2 || path[0] != '/' || path[1] != '/'
}

/// Whether `extension` stands somewhere in `path`, right after a dot.
pub open spec fn follows_dot(path: Seq<char>, extension: Seq<char>) -> bool {
    exists|i: int|
        0 <= i && i + 1 + extension.len() <= path.len() && #[trigger] path[i] == '.'
            && path.subrange(i + 1, i + 1 + extension.len()) == extension
}

/// The extension of the file at `path`.
///
/// Calls [`std::path::Path::extension`]. The contract claims what the documentation of that
/// function, and of `file_name` and `components`, says: the extension is what follows the last dot
/// of the last part of the path, unless there is no dot but at the start of that part. Which
/// characters separate the parts, and whether a drive or a server comes before them, depends on the
/// platform. So the claim is exact only for paths that have the same parts on Unix and on Windows.
/// Of all others it is said that the extension holds no dot, and follows one.
#[verifier::external_body]
fn extension_of(path: &str) -> (found: Option<String>)
    ensures
        is_portable(path@) ==> crate::text::optional_text(found) == path_extension(path@),
        found matches Some(found) ==> !found@.contains('.') && follows_dot(path@, found@),
{
    Some(std::path::Path::new(path).extension()?.to_str()?.to_owned())
}

impl OpenTask {
    /// Begins to open the file at `path`, if its extension is that of a notebook. Messages show the
    /// path as `shown`.
    pub fn try_open(path: &str, shown: String) -> (task: Option<(OpenTask, OpenAction)>)
        ensures
            is_portable(path@) ==> (task is Some <==> path_extension(path@) == Some("ipynb"@)),
            task matches Some(task) ==> {
                &&& task.0.phase is OpeningFile
                &&& task.0.path@ == shown@
                &&& task.1 is OpenFile
                &&& follows_dot(path@, "ipynb"@)
            },
    {
        match extension_of(path) {
            Some(extension) => OpenTask::begin(Some(extension.as_str()), shown),
            None => OpenTask::begin(None, shown),
        }
    }

    /// Begins to open a file, if `extension`, which is the one that its path has, is that of a
    /// notebook. Messages show the path as `shown`.
    pub fn begin(extension: Option<&str>, shown: String) -> (task: Option<(OpenTask, OpenAction)>)
        ensures
            match extension {
                Some(extension) if extension@ == "ipynb"@ => task matches Some(task)
                    && task.0.phase is OpeningFile && task.0.path@ == shown@ && task.1 is OpenFile,
                _ => task is None,
            },
    {
        match extension {
            Some(extension) => if crate::text::same_text(extension, "ipynb") {
                Some(
                    (
                        OpenTask { phase: OpenPhase::OpeningFile, path: shown },
                        OpenAction::OpenFile,
                    ),
                )
            } else {
                None
            },
            None => None,
        }
    }

    /// Goes on after the latest action came to an end.
    pub fn step(&mut self, outcome: Result<(), OpenFailure>) -> (action: OpenAction)
        requires
            old(self).phase !is Finished,
        ensures
            final(self).path == old(self).path,
            match outcome {
                Ok(_) => final(self).phase == old(self).phase.next() && final(self).phase.does(
                    action,
                ),
                Err(failure) => {
                    &&& final(self).phase is Finished
                    &&& action matches OpenAction::Finish(Err(error))
                    &&& error@ == old(self).phase.failure(old(self).path@, failure)
                },
            },
    {
        match outcome {
            Ok(_) => {
                let (phase, action) = match self.phase {
                    OpenPhase::OpeningFile => (OpenPhase::LoadingFile, OpenAction::LoadFile),
                    OpenPhase::LoadingFile => (OpenPhase::ReadingFile, OpenAction::ReadFile),
                    OpenPhase::ReadingFile => (OpenPhase::Deserializing, OpenAction::Deserialize),
                    OpenPhase::Deserializing => (OpenPhase::Building, OpenAction::Build),
                    OpenPhase::Building => (OpenPhase::StartingPython, OpenAction::StartPython),
                    OpenPhase::StartingPython => (
                        OpenPhase::StartingClient,
                        OpenAction::StartClient,
                    ),
                    OpenPhase::StartingClient => (OpenPhase::AddingModel, OpenAction::AddModel),
                    _ => (OpenPhase::Finished, OpenAction::Finish(Ok(()))),
                };
                self.phase = phase;
                action
            },
            Err(failure) => {
                let error = match self.phase {
                    OpenPhase::OpeningFile => NotebookError::caused(
                        "Failed to open file: ",
                        failure.details.as_str(),
                    ),
                    OpenPhase::ReadingFile => {
                        let mut message =
                            "Failed to read notebook from notebook file `".to_owned();
                        message.append(self.path.as_str());
                        message.append("`: ");
                        message.append(failure.details.as_str());
                        NotebookError { message }
                    },
                    OpenPhase::Deserializing => {
                        let mut message =
                            "Failed to deserialize notebook from path `".to_owned();
                        message.append(self.path.as_str());
                        message.append("`: ");
                        message.append(failure.details.as_str());
                        NotebookError { message }
                    },
                    _ => NotebookError { message: failure.text },
                };
                self.phase = OpenPhase::Finished;
                OpenAction::Finish(Err(error))
            },
        }
    }
}

/// The phase after `outcomes`, of which the first that fails ends the opening.
pub open spec fn after(phase: OpenPhase, outcomes: Seq<bool>) -> OpenPhase
    decreases outcomes.len(),
{
    if outcomes.len() == 0 || phase is Finished {
        phase
    } else if outcomes[0] {
        after(phase.next(), outcomes.drop_first())
    } else {
        OpenPhase::Finished
    }
}

/// The opening comes to its end, whatever the outcomes of its actions are.
pub proof fn lemma_opening_ends(phase: OpenPhase, outcomes: Seq<bool>)
    requires
        outcomes.len() >= phase.remaining(),
    ensures
        after(phase, outcomes) is Finished,
    decreases outcomes.len(),
{
    if outcomes.len() > 0 && phase !is Finished && outcomes[0] {
        lemma_opening_ends(phase.next(), outcomes.drop_first());
    }
}

} // verus!
