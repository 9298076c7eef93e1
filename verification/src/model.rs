//! Common data model.

use vstd::prelude::*;
use vstd::string::StringExecFns;

verus! {

/// Error emitted by the shell: a single human-readable reason.
#[derive(Debug, PartialEq, Eq)]
pub struct Error {
    reason: String,
}

impl View for Error {
    type V = Seq<char>;

    /// The reason text.
    closed spec fn view(&self) -> Seq<char> {
        self.reason@
    }
}

impl Clone for Error {
    fn clone(&self) -> (e: Error)
        ensures
            e@ == self@,
    {
        Error { reason: self.reason.clone() }
    }
}

impl Error {
    /// Creates a new instance of error.
    pub fn new(reason: &str) -> (e: Error)
        ensures
            e@ == reason@,
    {
        Error { reason: String::from_str(reason) }
    }

    /// The reason this error carries.
    pub fn reason(&self) -> (r: &str)
        ensures
            r@ == self@,
    {
        self.reason.as_str()
    }

    /// The reason as an owned string, as printed to the user.
    pub fn to_string(&self) -> (r: String)
        ensures
            r@ == self@,
    {
        self.reason.clone()
    }
}

/// Trusted, not proved: `String::push` of the standard library appends
/// the given character to the end of the string and changes nothing else
/// of it.
pub assume_specification[ String::push ](s: &mut String, ch: char)
    ensures
        final(s)@ == old(s)@.push(ch),
;

/// The path of the shell's executable, or the reason why it is not known,
/// as sequences of characters.
pub open spec fn exe_view(current_exe: Result<String, Error>) -> Result<Seq<char>, Seq<char>> {
    match current_exe {
        Ok(path) => Ok(path@),
        Err(e) => Err(e@),
    }
}

} // verus!
