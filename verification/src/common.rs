//! Errors, and how they are passed on.
use vstd::prelude::*;
use vstd::string::*;

verus! {

/// What went wrong.
#[derive(Debug)]
pub struct NotebookError {
    pub message: String,
}

impl View for NotebookError {
    type V = Seq<char>;

    open spec fn view(&self) -> Seq<char> {
        self.message@
    }
}

impl NotebookError {
    /// The error that `message` describes.
    pub fn new(message: &str) -> (error: NotebookError)
        ensures
            error@ == message@,
    {
        NotebookError { message: message.to_owned() }
    }

    /// The error that `message` and what caused it describe, in this order.
    pub fn caused(message: &str, cause: &str) -> (error: NotebookError)
        ensures
            error@ == message@ + cause@,
    {
        let mut text = message.to_owned();
        text.append(cause);
        NotebookError { message: text }
    }
}

/// Passes errors on with the description that `format` gives of them.
pub fn forward_err_with<E, F: FnOnce(E) -> String>(format: F) -> (forward: impl FnOnce(
    E,
) -> NotebookError)
    ensures
        forall|err: E| call_requires(format, (err,)) ==> call_requires(forward, (err,)),
        forall|err: E, error: NotebookError|
            #[trigger] call_ensures(forward, (err,), error) ==> call_ensures(
                format,
                (err,),
                error.message,
            ),
{
    move |err: E| -> (error: NotebookError)
        requires
            call_requires(format, (err,)),
        ensures
            call_ensures(format, (err,), error.message),
        { NotebookError { message: format(err) } }
}

} // verus!
