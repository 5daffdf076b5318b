//! The errors that the library reports.
use vstd::prelude::*;

use crate::text::{debug_text, quote};

verus! {

/// A failure raised while a computation is put together.
#[derive(Debug)]
pub struct Exception {
    pub what: String,
}

impl Exception {
    /// An exception with the given description.
    pub fn custom(what: &str) -> (r: Exception)
        ensures
            r.what@ == what@,
    {
        Exception { what: what.to_string() }
    }
}

/// The errors of loading and running a model.
#[derive(Debug)]
pub enum Error {
    UnsupportedModelType(String),
    UnsupportedArchitecture(String),
    Exception(Exception),
    /// Parameters that no weight file filled, and weights that no parameter took.
    StrictLoadValidation { missing: Vec<String>, unused: Vec<String> },
}

/// The text that describes `e` to a user, where `location` is the place in the source that an
/// exception was raised at.
pub open spec fn message_text(e: Error, location: Seq<char>) -> Seq<char> {
    match e {
        Error::UnsupportedModelType(name) => "unsupported model type: "@ + name@,
        Error::UnsupportedArchitecture(name) => "unsupported model architecture: "@ + name@,
        Error::Exception(e) => debug_text(e.what@) + " at "@ + location,
        Error::StrictLoadValidation { .. } => "weights do not match the model's parameters"@,
    }
}

/// The text of an exception with the quoted description `quoted`, raised at `location`.
pub fn exception_text(quoted: &str, location: &str) -> (r: String)
    ensures
        r@ == quoted@ + " at "@ + location@,
{
    quoted.to_string().concat(" at ").concat(location)
}

impl Error {
    /// The text that describes this error to a user. An exception is described by its quoted
    /// description and the place in the source that it was raised at, `file:line:column`; it does
    /// not know that place itself, so `location` gives it. Other errors have no place.
    pub fn message(&self, location: &str) -> (r: String)
        ensures
            r@ == message_text(*self, location@),
    {
        match self {
            Error::UnsupportedModelType(name) => "unsupported model type: ".to_string().concat(
                name.as_str(),
            ),
            Error::UnsupportedArchitecture(name) => {
                "unsupported model architecture: ".to_string().concat(name.as_str())
            },
            Error::Exception(e) => exception_text(quote(e.what.as_str()).as_str(), location),
            Error::StrictLoadValidation { .. } => {
                "weights do not match the model's parameters".to_string()
            },
        }
    }
}

} // verus!
