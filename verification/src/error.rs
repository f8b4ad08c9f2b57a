use vstd::prelude::*;
use crate::text::{append_str, chars_of, string_of};

verus! {

/// An input or output error of the standard library, carried as it is.
#[verifier::external_type_specification]
#[verifier::external_body]
pub struct ExIoError(std::io::Error);

/// The errors of the library.
#[derive(Debug)]
pub enum Error {
    Io(std::io::Error),
    Limb(String),
    Program(String),
}

pub type Result<T> = std::result::Result<T, Error>;

/// The text of an input or output error, through its `Display`; it depends
/// on the operating system's message for the error, and nothing is stated of it.
#[verifier::external_body]
fn io_error_text(e: &std::io::Error) -> String {
    e.to_string()
}

/// The text of an input or output error whose message is `text`: the
/// heading `IO error:`, a line break, a space and the message.
pub fn io_error_report(text: &str) -> (s: String)
    ensures
        s@ == "IO error:\n "@ + text@,
{
    let mut v = chars_of("IO error:\n ");
    append_str(&mut v, text);
    string_of(v.as_slice())
}

impl Error {
    /// The error as text: a heading for its kind, a line break, a space and
    /// the message.
    pub fn to_string(&self) -> (s: String)
        ensures
            self matches Error::Limb(m) ==> s@ == "Limb error:\n "@ + m@,
            self matches Error::Program(m) ==> s@ == "Program error:\n "@ + m@,
            self is Io ==> exists|m: Seq<char>| s@ == "IO error:\n "@ + m,
    {
        match self {
            Error::Io(err) => {
                let text = io_error_text(err);
                io_error_report(text.as_str())
            },
            Error::Limb(err) => {
                let mut v = chars_of("Limb error:\n ");
                append_str(&mut v, err.as_str());
                string_of(v.as_slice())
            },
            Error::Program(err) => {
                let mut v = chars_of("Program error:\n ");
                append_str(&mut v, err.as_str());
                string_of(v.as_slice())
            },
        }
    }
}

} // verus!
