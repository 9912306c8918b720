//! The library's error type.

use vstd::prelude::*;

verus! {

/// What went wrong, in broad terms.
#[derive(Debug, Clone, Copy, PartialEq, Eq, Structural)]
pub enum ErrorKind {
    /// The input could not be opened or read.
    IO,
    /// The bytes are not a well-formed sequence.
    Midly,
    /// The sequence is well-formed but of a shape that is not supported.
    Generic,
}

/// An error with its kind and a description of the underlying cause.
#[derive(Debug, Clone)]
pub struct Error {
    pub kind: ErrorKind,
    pub message: String,
}

/// The name under which a kind is rendered.
pub open spec fn kind_name(kind: ErrorKind) -> Seq<char> {
    match kind {
        ErrorKind::IO => "IO"@,
        ErrorKind::Midly => "Midly"@,
        ErrorKind::Generic => "Generic"@,
    }
}

/// The rendering of an error: its kind in brackets, then the cause.
pub open spec fn rendered(kind: ErrorKind, message: Seq<char>) -> Seq<char> {
    "[evalpy err: "@ + kind_name(kind) + "]: "@ + message
}

/// `String::push_str`: appends `tail` to `text`.
#[verifier::external_body]
fn push_str(text: &mut String, tail: &str)
    ensures
        final(text)@ == old(text)@ + tail@,
{
    text.push_str(tail)
}

impl Error {
    pub fn new(kind: ErrorKind, message: String) -> (r: Error)
        ensures
            r.kind == kind,
            r.message@ == message@,
    {
        Error { kind, message }
    }

    /// An error of kind `Generic` with the given cause.
    pub fn generic(cause: &str) -> (r: Error)
        ensures
            r.kind == ErrorKind::Generic,
            r.message@ == cause@,
    {
        Error { kind: ErrorKind::Generic, message: cause.to_owned() }
    }

    pub fn to_string(&self) -> (r: String)
        ensures
            r@ == rendered(self.kind, self.message@),
    {
        let mut text: String = "[evalpy err: ".to_owned();
        match self.kind {
            ErrorKind::IO => push_str(&mut text, "IO"),
            ErrorKind::Midly => push_str(&mut text, "Midly"),
            ErrorKind::Generic => push_str(&mut text, "Generic"),
        }
        push_str(&mut text, "]: ");
        push_str(&mut text, self.message.as_str());
        text
    }
}

} // verus!
