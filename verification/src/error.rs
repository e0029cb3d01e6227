//! Errors of planning and execution.
use vstd::prelude::*;

use crate::text::text_of;

verus! {

/// What an error is about.
#[derive(Debug, Clone, Copy, PartialEq, Eq, Structural)]
pub enum ErrorKind {
    /// The plan is malformed.
    Plan,
    /// A step of planning, coding or execution failed.
    Internal,
    /// The caller's settings are not acceptable.
    Configuration,
}

/// An error with its message.
#[derive(Debug, Clone)]
pub struct PlanError {
    pub kind: ErrorKind,
    pub message: String,
}

impl View for PlanError {
    type V = (ErrorKind, Seq<char>);

    open spec fn view(&self) -> (ErrorKind, Seq<char>) {
        (self.kind, self.message@)
    }
}

/// An internal error that says `context` and then `detail`.
pub open spec fn internal_error(context: Seq<char>, detail: Seq<char>) -> (ErrorKind, Seq<char>) {
    (ErrorKind::Internal, context + detail)
}

impl PlanError {
    /// An error of `kind` that says `message`.
    pub fn new(kind: ErrorKind, message: &str) -> (error: PlanError)
        ensures
            error@ == (kind, message@),
    {
        PlanError { kind, message: message.to_owned() }
    }

    /// An internal error that says `context` and then `detail`.
    pub fn internal(context: &str, detail: &str) -> (error: PlanError)
        ensures
            error@ == internal_error(context@, detail@),
    {
        PlanError { kind: ErrorKind::Internal, message: text_of(context, detail) }
    }
}

/// An error of this library, or one of a step outside of it.
#[derive(Debug)]
pub enum Fault<E> {
    Plan(PlanError),
    Outside(E),
}

} // verus!
