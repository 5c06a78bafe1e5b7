//! How the results of Python coroutines are waited for.
use crate::common::NotebookError;
use vstd::prelude::*;
use vstd::string::*;

verus! {

/// Takes the result of a future and hands it on. `S` and `R` are the two ends of the channel that
/// the result goes through.
#[derive(Debug)]
pub struct Callback<S, R> {
    pub tx: Option<S>,
    pub rx: Option<R>,
}

impl<S, R> Callback<S, R> {
    /// A callback that sends the result through `channel`.
    pub fn new(channel: (S, R)) -> (callback: Callback<S, R>)
        ensures
            callback.tx == Some(channel.0),
            callback.rx == Some(channel.1),
    {
        let (tx, rx) = channel;
        Callback { tx: Some(tx), rx: Some(rx) }
    }

    /// Takes the result of a future. Returns what is sent, and through which end: nothing if the
    /// future failed, or if something was sent before.
    pub fn call<V, E>(&mut self, result: Result<V, E>) -> (step: (Option<(S, V)>, Result<(), E>))
        ensures
            final(self).rx == old(self).rx,
            match result {
                Ok(value) => {
                    &&& step.0 == (match old(self).tx {
                        Some(tx) => Some((tx, value)),
                        None => None,
                    })
                    &&& step.1 is Ok
                    &&& final(self).tx is None
                },
                Err(error) => {
                    &&& step.0 is None
                    &&& step.1 == Err::<(), E>(error)
                    &&& final(self).tx == old(self).tx
                },
            },
    {
        match result {
            Ok(value) => {
                let sent = match self.tx.take() {
                    Some(tx) => Some((tx, value)),
                    None => None,
                };
                (sent, Ok(()))
            },
            Err(error) => (None, Err(error)),
        }
    }
}

/// A coroutine `coro` whose result is waited for.
#[derive(Debug)]
pub struct Coroutine<C, S, R> {
    pub coro: C,
    pub callback: Option<Callback<S, R>>,
}

/// Why a call of a coroutine failed.
#[derive(Debug)]
pub enum CallError<E> {
    /// Python raised an error.
    Raised(E),
    /// Something went wrong on the way.
    Runtime(NotebookError),
}

/// What a call of a coroutine does next.
#[derive(Debug)]
pub enum CallStep<S, R, E> {
    /// Adds the callback to the future, and waits at the other end of its channel, if it has one.
    /// Whether the callback could be added makes no difference.
    Await { callback: Callback<S, R>, rx: Option<R> },
    /// Fails.
    Fail(CallError<E>),
}

impl<C, S, R> Coroutine<C, S, R> {
    /// Whether a call that begins as `ensured` says does `step` and leaves `after`.
    pub open spec fn calls<E>(
        self,
        ensured: Result<(), E>,
        step: CallStep<S, R, E>,
        after: Coroutine<C, S, R>,
    ) -> bool {
        &&& after.coro == self.coro
        &&& match (ensured, self.callback) {
            (Err(error), _) => {
                &&& step == CallStep::<S, R, E>::Fail(CallError::Raised(error))
                &&& after.callback == self.callback
            },
            (Ok(_), Some(callback)) => {
                &&& step == (CallStep::<S, R, E>::Await {
                    callback: Callback { tx: callback.tx, rx: None },
                    rx: callback.rx,
                })
                &&& after.callback is None
            },
            (Ok(_), None) => {
                &&& step matches CallStep::Fail(CallError::Runtime(error))
                &&& error@ == "Nope"@
                &&& after.callback is None
            },
        }
    }

    /// Begins a call of the coroutine, of which a future was made as `ensured` says. The callback
    /// is given away, so that a second call fails.
    pub fn call<E>(&mut self, ensured: Result<(), E>) -> (step: CallStep<S, R, E>)
        ensures
            old(self).calls(ensured, step, *final(self)),
    {
        if let Err(error) = ensured {
            return CallStep::Fail(CallError::Raised(error));
        }
        match self.callback.take() {
            Some(callback) => {
                let mut callback = callback;
                let rx = callback.rx.take();
                CallStep::Await { callback, rx }
            },
            None => CallStep::Fail(CallError::Runtime(NotebookError::new("Nope"))),
        }
    }

    /// The result of a call of the coroutine, after what came out of the channel: `none` where
    /// there was none to wait at. An error of the channel itself is given as its description.
    pub fn received<V, E>(outcome: Option<Result<Result<V, E>, String>>, none: V) -> (result: Result<
        V,
        CallError<E>,
    >)
        ensures
            match outcome {
                Some(Ok(Ok(value))) => result == Ok::<V, CallError<E>>(value),
                Some(Ok(Err(error))) => result == Err::<V, CallError<E>>(CallError::Raised(error)),
                Some(Err(cause)) => result matches Err(CallError::Runtime(error)) && error@
                    == "Error receiving result: "@ + cause@,
                None => result == Ok::<V, CallError<E>>(none),
            },
    {
        match outcome {
            Some(Ok(Ok(value))) => Ok(value),
            Some(Ok(Err(error))) => Err(CallError::Raised(error)),
            Some(Err(cause)) => Err(
                CallError::Runtime(
                    NotebookError::caused("Error receiving result: ", cause.as_str()),
                ),
            ),
            None => Ok(none),
        }
    }
}

/// A model whose data Python describes.
#[derive(Clone, Copy, Debug, PartialEq, Eq, Structural)]
pub struct Pydantic;

impl Pydantic {
    /// The description of the data of a model, unless Python could not give it.
    pub fn dumped<E>(json: Result<String, E>) -> (result: Result<String, NotebookError>)
        ensures
            match json {
                Ok(json) => result == Ok::<String, NotebookError>(json),
                Err(_) => result matches Err(error) && error@ == "Failed to dump model"@,
            },
    {
        match json {
            Ok(json) => Ok(json),
            Err(_) => Err(NotebookError::new("Failed to dump model")),
        }
    }
}

/// The first call of a coroutine takes its callback, so that every later one fails.
pub proof fn lemma_called_once<C, S, R, E>(
    before: Coroutine<C, S, R>,
    first: CallStep<S, R, E>,
    between: Coroutine<C, S, R>,
    ensured: Result<(), E>,
    second: CallStep<S, R, E>,
    after: Coroutine<C, S, R>,
)
    requires
        before.calls(Ok(()), first, between),
        between.calls(ensured, second, after),
    ensures
        second is Fail,
{
}

} // verus!
