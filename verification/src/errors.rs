//! The library's error type: a plain message.
use vstd::prelude::*;

verus! {

/// An error carrying a human-readable message.
#[derive(Debug)]
pub struct Error {
    pub msg: String,
}

impl View for Error {
    type V = Seq<char>;

    open spec fn view(&self) -> Seq<char> {
        self.msg@
    }
}

impl Error {
    /// The message, for callers that display errors.
    pub fn message(&self) -> (r: &String)
        ensures
            r@ == self@,
    {
        &self.msg
    }
}

/// Builds an error from a message.
pub fn error(msg: &str) -> (r: Error)
    ensures
        r@ == msg@,
{
    Error { msg: msg.to_owned() }
}

/// A result that fails with the library's error.
pub type Res<T> = Result<T, Error>;

} // verus!
