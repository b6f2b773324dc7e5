//! The failures of decoding and assembly.

use vstd::prelude::*;
use vstd::string::StringExecFns;

verus! {

/// Why a conversion failed.
#[derive(Debug, Clone, Copy, PartialEq, Eq, Structural)]
pub enum ErrorKind {
    /// The element data-type tag is none of the supported ones.
    UnsupportedType,
    /// A token could not be read as a number under the detected encoding.
    Decode,
    /// The stream ends in the middle of an element.
    Incomplete,
    /// A decoded value cannot be represented in the requested number type.
    Conversion,
    /// A block or index source that is referred to carries no payload.
    MissingData,
    /// The number of decoded elements differs from the declared one.
    CountMismatch,
    /// A failure described by its message alone.
    Other,
}

/// A typed failure that carries a human-readable cause.
#[derive(Debug)]
pub struct ParseError {
    pub kind: ErrorKind,
    pub msg: String,
}

/// A failure as contracts speak of it: its kind and the text of its cause.
pub type Failure = (ErrorKind, Seq<char>);

impl View for ParseError {
    type V = Failure;

    open spec fn view(&self) -> Failure {
        (self.kind, self.msg@)
    }
}

impl ParseError {
    /// A failure with a free-form cause.
    pub fn new(msg: &str) -> (e: Self)
        ensures
            e@ == (ErrorKind::Other, msg@),
    {
        ParseError { kind: ErrorKind::Other, msg: msg.to_owned() }
    }

    /// The failure of the given kind and cause.
    pub fn of_kind(kind: ErrorKind, msg: &str) -> (e: Self)
        ensures
            e@ == (kind, msg@),
    {
        ParseError { kind, msg: msg.to_owned() }
    }

    /// The failure of the given kind whose cause is `head` followed by `tail`.
    pub fn with_detail(kind: ErrorKind, head: &str, tail: &str) -> (e: Self)
        ensures
            e@ == (kind, head@ + tail@),
    {
        let mut msg = String::new();
        msg.append(head);
        msg.append(tail);
        assert(msg@ =~= head@ + tail@);
        ParseError { kind, msg }
    }

    /// The human-readable cause.
    pub fn message(&self) -> (s: String)
        ensures
            s@ == self.msg@,
    {
        self.msg.clone()
    }
}

} // verus!
