//! Runtime failures of the evaluator.
//!
//! Every failure carries a kind, a human-readable message and optionally the
//! error that caused it: a failure inside a called function is wrapped with
//! the caller's context rather than discarded.  Contracts speak only of the
//! kind; messages are for people.

use vstd::prelude::*;

verus! {

/// The closed set of runtime failure kinds.
#[derive(Debug, Clone, Copy, PartialEq, Eq, Structural)]
pub enum ErrorKind {
    /// A function was called with the wrong number of arguments.
    ArityMismatch,
    /// A list head named a symbol that is not bound to a function, in a
    /// position that requires one.
    UnboundFunction,
    /// An operand had the wrong type: a non-numeric value in arithmetic, a
    /// non-symbol where a name is required, a non-quotable value to `quote`.
    TypeMismatch,
    /// A special form was malformed, such as `setq` with an odd number of
    /// arguments.
    MalformedForm,
    /// Arithmetic could not produce a representable result: overflow or
    /// division by zero.
    Arithmetic,
    /// The evaluation depth limit was reached.
    RecursionLimit,
    /// The operation is outside the core's scope, such as folding float
    /// literals.
    Unsupported,
    /// The source text could not be read as a form.
    Parse,
}

/// A runtime error: a kind, a message, and optionally the error it wraps.
/// Wrapping preserves the inner kind, so the kind visible at the top level
/// is the kind of the original failure.
#[derive(Debug)]
pub struct RuntimeError {
    kind: ErrorKind,
    message: String,
    cause: Option<Box<RuntimeError>>,
}

impl View for RuntimeError {
    type V = ErrorKind;

    closed spec fn view(&self) -> ErrorKind {
        self.kind
    }
}

impl RuntimeError {
    /// A fresh error of the given kind, carrying the message and no cause.
    pub fn new(kind: ErrorKind, message: String) -> (r: RuntimeError)
        ensures
            r@ == kind,
            r.spec_message() == message@,
            !r.spec_has_cause(),
    {
        RuntimeError { kind, message, cause: None }
    }

    /// Wrap this error with a caller's context: the kind is preserved and
    /// the wrapped error is kept as the chained cause, never discarded.
    pub fn wrap(self, message: String) -> (r: RuntimeError)
        ensures
            r@ == self@,
            r.spec_message() == message@,
            r.spec_has_cause(),
    {
        let kind = self.kind;
        RuntimeError { kind, message, cause: Some(Box::new(self)) }
    }

    /// The kind of the failure.
    pub fn kind(&self) -> (r: ErrorKind)
        ensures
            r == self@,
    {
        self.kind
    }

    /// The message attached to the outermost error.
    pub fn message(&self) -> (r: &str)
        ensures
            r@ == self.spec_message(),
    {
        self.message.as_str()
    }

    /// The message, as an abstract sequence of characters.
    pub closed spec fn spec_message(&self) -> Seq<char> {
        self.message@
    }

    /// Whether the error wraps an earlier cause.
    pub closed spec fn spec_has_cause(&self) -> bool {
        self.cause is Some
    }

    /// The wrapped cause, if any.
    pub fn cause(&self) -> (r: Option<&RuntimeError>)
        ensures
            (r is Some) == self.spec_has_cause(),
    {
        match &self.cause {
            Option::Some(e) => Some(&**e),
            Option::None => None,
        }
    }
}

} // verus!
