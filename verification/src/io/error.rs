//! Errors of input and output.

use vstd::prelude::*;

verus! {

/// What kind of error it is.
#[derive(Clone, Copy, Debug, PartialEq, Eq, Structural)]
pub enum ErrorKind {
    NotFound,
    PermissionDenied,
    ConnectionRefused,
    ConnectionReset,
    ConnectionAborted,
    NotConnected,
    AddrInUse,
    AddrNotAvailable,
    BrokenPipe,
    AlreadyExists,
    WouldBlock,
    InvalidInput,
    InvalidData,
    TimedOut,
    WriteZero,
    Interrupted,
    UnexpectedEof,
    Other,
}

/// An error of input or output.
#[derive(Debug)]
pub struct Error {
    pub kind: ErrorKind,
    /// The number that the operating system gave it.
    pub os: Option<i32>,
    pub text: String,
}

impl Error {
    /// The error is of this kind, with this text, and not from the operating system.
    pub open spec fn says(&self, kind: ErrorKind, text: Seq<char>) -> bool {
        self.kind == kind && self.os is None && self.text@ == text
    }

    pub fn new(kind: ErrorKind, text: &str) -> (r: Self)
        ensures
            r.says(kind, text@),
    {
        Error { kind, os: None, text: text.to_string() }
    }

    /// An error that says no more than its kind.
    pub fn of(kind: ErrorKind) -> (r: Self)
        ensures
            r.says(kind, ""@),
    {
        Error::new(kind, "")
    }

    pub fn kind(&self) -> (r: ErrorKind)
        ensures
            r == self.kind,
    {
        self.kind
    }
}

} // verus!
