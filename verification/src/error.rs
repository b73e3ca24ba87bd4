//! The failures that the operations of the tree report.

use vstd::prelude::*;
use vstd::string::StringExecFns;

verus! {

/// Why an operation on the tree failed.
#[derive(Debug, Clone, Copy, PartialEq, Eq, Structural)]
pub enum ErrorKind {
    /// A path, a segment or a child that was named does not exist.
    NotFound,
    /// The target of a new directory or file is taken.
    AlreadyExists,
    /// A `#n` suffix asks for an occurrence that is not there; the number is
    /// how many children bear the name.
    Ambiguous(usize),
    /// A name holds a reserved character, or is empty where one is needed.
    InvalidName,
    /// The file system refused; the message is the one it gave.
    Io,
}

/// A failure of an operation on the tree, with a message for the user.
#[derive(Debug)]
pub struct TreeError {
    pub kind: ErrorKind,
    pub msg: String,
}

impl Clone for TreeError {
    fn clone(&self) -> (r: Self)
        ensures
            r.kind == self.kind,
            r.msg@ == self.msg@,
    {
        TreeError { kind: self.kind, msg: self.msg.clone() }
    }
}

impl TreeError {
    /// A failure of the file system with the message `msg`.
    pub fn new(msg: String) -> (e: Self)
        ensures
            e.kind == ErrorKind::Io,
            e.msg@ == msg@,
    {
        TreeError { kind: ErrorKind::Io, msg }
    }

    /// A failure of the given kind whose message is `prefix` followed by
    /// `subject`.
    pub fn about(kind: ErrorKind, prefix: &str, subject: &str) -> (e: Self)
        ensures
            e.kind == kind,
            e.msg@ == prefix@ + subject@,
    {
        let mut msg = String::from_str(prefix);
        msg.append(subject);
        TreeError { kind, msg }
    }

    /// The message, as it is shown to the user.
    pub fn to_string(&self) -> (s: String)
        ensures
            s@ == self.msg@,
    {
        self.msg.clone()
    }
}

/// A failure outside the tree: of the storage directory or of the session.
#[derive(Debug)]
pub struct VTreeError {
    pub msg: String,
}

impl VTreeError {
    /// A failure with the message `msg`.
    pub fn new(msg: &str) -> (e: Self)
        ensures
            e.msg@ == msg@,
    {
        VTreeError { msg: String::from_str(msg) }
    }

    /// The message, as it is shown to the user.
    pub fn to_string(&self) -> (s: String)
        ensures
            s@ == self.msg@,
    {
        self.msg.clone()
    }
}

} // verus!
