use vstd::prelude::*;
use crate::value::Interval;

verus! {

/// The class of a diagnostic.
#[derive(Clone, Copy, Debug, PartialEq, Eq, Structural)]
pub enum ErrorKind {
    /// A node of the wrong shape where another was required.
    Structure,
    /// Arguments that do not fit the callee.
    Binding,
    /// A name, scope or step that does not resolve.
    Resolution,
}

/// What a diagnostic says, without its message text.
#[derive(Clone, Copy, Debug, PartialEq, Eq, Structural)]
pub struct Fault {
    pub kind: ErrorKind,
    pub interval: Interval,
}

/// A diagnostic: its kind, a message and the source position it points at.
#[derive(Debug)]
pub struct ErrorInfo {
    pub kind: ErrorKind,
    pub message: String,
    pub interval: Interval,
}

impl ErrorInfo {
    pub open spec fn fault(&self) -> Fault {
        Fault { kind: self.kind, interval: self.interval }
    }

    pub fn new(kind: ErrorKind, message: &str, interval: Interval) -> (r: ErrorInfo)
        ensures
            r.fault() == (Fault { kind, interval }),
            r.message@ == message@,
    {
        ErrorInfo { kind, message: message.to_owned(), interval }
    }
}

/// A result seen up to its message texts.
pub open spec fn outcome<T>(r: Result<T, ErrorInfo>) -> Result<T, Fault> {
    match r {
        Ok(v) => Ok(v),
        Err(e) => Err(e.fault()),
    }
}

} // verus!
