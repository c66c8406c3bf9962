//! Errors raised while interpreting a program. Errors are accumulated on the
//! execution context rather than thrown: every evaluation step appends to the
//! context's error buffer and signals failure by returning no instance.

use vstd::prelude::*;

verus! {

/// The family an error belongs to: parse-time errors, scope and binding
/// errors, interpreter-level errors (lookups, includes, arity), and errors
/// raised by the advisory type checker.
#[derive(Clone, Copy, Debug, PartialEq, Eq, Structural)]
pub enum ErrKind {
    Parsing,
    Context,
    Interpreter,
    TypeChecker,
}

/// Mathematical model of an [`Error`]: its kind and its message text.
#[verifier::ext_equal]
pub struct ErrorV {
    pub kind: ErrKind,
    pub msg: Seq<char>,
}

/// An interpreter error: a kind together with a human-readable message.
#[derive(Debug, Clone, PartialEq)]
pub struct Error {
    kind: ErrKind,
    msg: String,
}

impl View for Error {
    type V = ErrorV;

    closed spec fn view(&self) -> ErrorV {
        ErrorV { kind: self.kind, msg: self.msg@ }
    }
}

impl Error {
    /// Create a new error of the given kind, with an empty message.
    pub fn new(kind: ErrKind) -> (r: Error)
        ensures
            r@.kind == kind,
            r@.msg == Seq::<char>::empty(),
    {
        Error { kind, msg: String::new() }
    }

    /// Attach a message to the error, replacing any previous one.
    pub fn with_msg(self, msg: String) -> (r: Error)
        ensures
            r@.kind == self@.kind,
            r@.msg == msg@,
    {
        Error { kind: self.kind, msg }
    }

    /// The kind of the error.
    pub fn kind(&self) -> (k: ErrKind)
        ensures
            k == self@.kind,
    {
        self.kind
    }

    /// The message carried by the error.
    pub fn msg(&self) -> (m: &String)
        ensures
            m@ == self@.msg,
    {
        &self.msg
    }
}

} // verus!
