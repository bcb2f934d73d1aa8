//! The recoverable error type shared by the memo cache and the stash.
//!
//! Every fallible operation reports a message describing the cause and,
//! where one exists, the context it occurred in.

use vstd::prelude::*;
use vstd::string::StringExecFns;

verus! {

/// A recoverable error carrying a human-readable message.
#[derive(Debug)]
pub struct Error {
    msg: String,
}

impl View for Error {
    type V = Seq<char>;

    closed spec fn view(&self) -> Seq<char> {
        self.msg@
    }
}

impl Error {
    /// Builds an error from a plain description.
    pub fn new(s: &str) -> (e: Error)
        ensures
            e@ == s@,
    {
        Error { msg: s.to_owned() }
    }

    /// Builds an error from a description and the underlying cause,
    /// joined as `description: cause`.
    pub fn with_cause(desc: &str, cause: &str) -> (e: Error)
        ensures
            e@ == desc@ + ": "@ + cause@,
    {
        let mut msg = desc.to_owned();
        msg.append(": ");
        msg.append(cause);
        Error { msg }
    }

    /// The full message text.
    pub fn message(&self) -> (r: &str)
        ensures
            r@ == self@,
    {
        self.msg.as_str()
    }
}

} // verus!
