//! The errors of the mod client's core, with the message each one shows.
use vstd::prelude::*;
use crate::chars::append_str;

verus! {

/// An error of the client's core.
pub enum Error {
    Io(String),
    Json(String),
    Toml(String),
    Config(String),
    NotFound(String),
    Integrity { what: String, expected: String, actual: String },
    Other(String),
}

/// The message an error shows.
pub open spec fn error_message(e: Error) -> Seq<char> {
    match e {
        Error::Io(m) => "io: "@ + m@,
        Error::Json(m) => "json: "@ + m@,
        Error::Toml(m) => "toml: "@ + m@,
        Error::Config(m) => "config: "@ + m@,
        Error::NotFound(m) => "not found: "@ + m@,
        Error::Integrity { what, expected, actual } => "integrity check failed for "@ + what@ + ": expected "@
            + expected@ + ", got "@ + actual@,
        Error::Other(m) => m@,
    }
}

impl Error {
    /// The message this error shows (see `error_message`).
    pub fn message(&self) -> (r: String)
        ensures
            r@ == error_message(*self),
    {
        let mut s = String::new();
        match self {
            Error::Io(m) => {
                append_str(&mut s, "io: ");
                append_str(&mut s, m.as_str());
            },
            Error::Json(m) => {
                append_str(&mut s, "json: ");
                append_str(&mut s, m.as_str());
            },
            Error::Toml(m) => {
                append_str(&mut s, "toml: ");
                append_str(&mut s, m.as_str());
            },
            Error::Config(m) => {
                append_str(&mut s, "config: ");
                append_str(&mut s, m.as_str());
            },
            Error::NotFound(m) => {
                append_str(&mut s, "not found: ");
                append_str(&mut s, m.as_str());
            },
            Error::Integrity { what, expected, actual } => {
                append_str(&mut s, "integrity check failed for ");
                append_str(&mut s, what.as_str());
                append_str(&mut s, ": expected ");
                append_str(&mut s, expected.as_str());
                append_str(&mut s, ", got ");
                append_str(&mut s, actual.as_str());
            },
            Error::Other(m) => {
                append_str(&mut s, m.as_str());
            },
        }
        assert(s@ =~= error_message(*self));
        s
    }
}

} // verus!
