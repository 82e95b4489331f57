//! Structured failure values: a kind, an optional message, an optional
//! chained cause and a source location, built by fluent value
//! transformations from a kind-less default.

use vstd::prelude::*;
use crate::loc::SourceLoc;
use crate::loc::LocView;
use crate::loc::empty_loc;
use crate::loc::render_loc;

verus! {

/// The closed classification of failures: `IO` when the underlying byte
/// source cannot be opened or read, `Encoding` when bytes are not valid
/// text, `Unknown` for not yet classified scanning failures.
#[derive(Copy, Clone, Debug, PartialEq, Eq, PartialOrd, Ord, Hash, Structural)]
pub enum ErrorKind {
    IO,
    Encoding,
    Unknown,
}

/// A failure value: every fallible operation of this crate reports one,
/// anchored at the most precise source location known at the failure site.
#[derive(Debug)]
pub struct Error {
    pub kind: ErrorKind,
    pub message: Option<String>,
    pub cause: Option<Box<Error>>,
    pub location: SourceLoc,
}

/// The display name of a kind.
pub open spec fn kind_name(k: ErrorKind) -> Seq<char> {
    match k {
        ErrorKind::IO => "I/O"@,
        ErrorKind::Encoding => "Encoding"@,
        ErrorKind::Unknown => "Unknown"@,
    }
}

/// The display form of an error: the kind's name, then `: message` when a
/// message is present, then a `Caused By:` line when a cause is chained.
pub open spec fn render_error(e: Error) -> Seq<char>
    decreases e,
{
    kind_name(e.kind) + (match e.message {
        Some(m) => ": "@ + m@,
        None => Seq::<char>::empty(),
    }) + (match e.cause {
        Some(c) => "\nCaused By: "@ + render_error(*c),
        None => Seq::<char>::empty(),
    })
}

impl Default for Error {
    /// The starting point of the builder: kind `Unknown`, no message, no
    /// cause, the empty location.
    fn default() -> (r: Self)
        ensures
            r.kind == ErrorKind::Unknown,
            r.message is None,
            r.cause is None,
            r.location@ == empty_loc(),
    {
        Error {
            kind: ErrorKind::Unknown,
            message: None,
            cause: None,
            location: SourceLoc::empty(),
        }
    }
}

impl Error {
    /// An error assembled from all four components at once.
    pub fn new(k: ErrorKind, message: Option<String>, cause: Option<Box<Error>>, loc: SourceLoc) -> (r: Self)
        ensures
            r.kind == k,
            r.message == message,
            r.cause == cause,
            r.location == loc,
    {
        Error { kind: k, message, cause, location: loc }
    }

    /// The same error with its kind replaced.
    pub fn with_kind(self, k: ErrorKind) -> (r: Self)
        ensures
            r.kind == k,
            r.message == self.message,
            r.cause == self.cause,
            r.location == self.location,
    {
        Error { kind: k, ..self }
    }

    /// The same error with its message replaced.
    pub fn with_message(self, m: &str) -> (r: Self)
        ensures
            r.kind == self.kind,
            r.message matches Some(msg) && msg@ == m@,
            r.cause == self.cause,
            r.location == self.location,
    {
        Error { message: Some(m.to_owned()), ..self }
    }

    /// The same error with the given error chained as its cause.
    pub fn with_cause(self, c: Error) -> (r: Self)
        ensures
            r.kind == self.kind,
            r.message == self.message,
            r.cause matches Some(cc) && *cc == c,
            r.location == self.location,
    {
        Error { cause: Some(Box::new(c)), ..self }
    }

    /// The same error with its location replaced.
    pub fn with_location(self, l: SourceLoc) -> (r: Self)
        ensures
            r.kind == self.kind,
            r.message == self.message,
            r.cause == self.cause,
            r.location == l,
    {
        Error { location: l, ..self }
    }

    /// The kind of the failure; callers switch on this, not on the message.
    pub fn kind(&self) -> (r: ErrorKind)
        ensures
            r == self.kind,
    {
        self.kind
    }

    /// The display name of this error's kind.
    pub fn kind_str(&self) -> (r: &'static str)
        ensures
            r@ == kind_name(self.kind),
    {
        match self.kind {
            ErrorKind::IO => "I/O",
            ErrorKind::Encoding => "Encoding",
            ErrorKind::Unknown => "Unknown",
        }
    }

    /// The human-readable message, if one was attached.
    pub fn message(&self) -> (r: &Option<String>)
        ensures
            r == &self.message,
    {
        &self.message
    }

    /// The chained underlying error, if one was attached.
    pub fn cause(&self) -> (r: &Option<Box<Error>>)
        ensures
            r == &self.cause,
    {
        &self.cause
    }

    /// The source location the failure is anchored at.
    pub fn location(&self) -> (r: &SourceLoc)
        ensures
            r == &self.location,
    {
        &self.location
    }

    /// The display form of this error, per `render_error`.
    pub fn render(&self) -> (r: String)
        ensures
            r@ == render_error(*self),
        decreases *self,
    {
        proof {
            reveal_strlit(": ");
            reveal_strlit("\nCaused By: ");
        }
        let mut s = String::new();
        let k = self.kind_str();
        s.append(k);
        match &self.message {
            Some(m) => {
                s.append(": ");
                s.append(m.as_str());
            },
            None => (),
        }
        match &self.cause {
            Some(c) => {
                s.append("\nCaused By: ");
                let inner = c.render();
                s.append(inner.as_str());
            },
            None => (),
        }
        proof {
            assert(s@ =~= render_error(*self));
        }
        s
    }

    /// The display form of this error's location, per `render_loc`.
    pub fn location_str(&self) -> (r: String)
        ensures
            r@ == render_loc(self.location@),
    {
        self.location.render()
    }
}

} // verus!
