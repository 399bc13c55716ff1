//! The errors a pipeline can end in.

use vstd::prelude::*;

verus! {

/// The ways in which building or running a pipeline can fail.
#[derive(Debug, Clone, Copy, PartialEq, Eq, Structural)]
pub enum ErrorKind {
    /// A requested step name has no entry in the registry.
    NotFound,
    /// A business function reported an error of its own.
    StepFailure,
    /// A business function of the optional shape produced no value.
    AbsentOutcome,
}

/// A pipeline-level error: what kind of failure it is, and a text for the reader.
#[derive(Debug)]
pub struct Error {
    pub kind: ErrorKind,
    pub message: String,
}

/// The mathematical content of an [`Error`].
pub struct ErrorView {
    pub kind: ErrorKind,
    pub message: Seq<char>,
}

impl View for Error {
    type V = ErrorView;

    open spec fn view(&self) -> ErrorView {
        ErrorView { kind: self.kind, message: self.message@ }
    }
}

/// The text of the error that reports `name` as missing from a registry.
pub open spec fn not_found_text(name: Seq<char>) -> Seq<char> {
    "no function found with name "@ + name + " exiting"@
}

/// The text of the error that reports a business function without a value.
pub open spec fn absent_text() -> Seq<char> {
    "step produced no outcome"@
}

impl Error {
    /// The error for a step name that no registry entry carries.
    pub fn not_found(name: &str) -> (e: Error)
        ensures
            e@ == (ErrorView { kind: ErrorKind::NotFound, message: not_found_text(name@) }),
    {
        let mut message = String::from_str("no function found with name ");
        message.append(name);
        message.append(" exiting");
        Error { kind: ErrorKind::NotFound, message }
    }

    /// The error for a business function that failed with `message`.
    pub fn step_failure(message: String) -> (e: Error)
        ensures
            e.kind == ErrorKind::StepFailure,
            e.message == message,
    {
        Error { kind: ErrorKind::StepFailure, message }
    }

    /// The error for a business function that produced no value.
    pub fn absent_outcome() -> (e: Error)
        ensures
            e@ == (ErrorView { kind: ErrorKind::AbsentOutcome, message: absent_text() }),
    {
        Error { kind: ErrorKind::AbsentOutcome, message: String::from_str("step produced no outcome") }
    }
}

} // verus!
