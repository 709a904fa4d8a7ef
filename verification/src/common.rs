//! The error that crosses component boundaries, for callers that need
//! one type whatever went wrong.

use vstd::prelude::*;

verus! {

use crate::render::{push_text, string_from_chars};

#[verifier::external_type_specification]
#[verifier::external_body]
pub struct ExIoError(std::io::Error);

/// A configuration problem, with its explanation, or an I/O failure.
#[derive(Debug)]
pub enum Error {
    Configuration(String),
    Io(std::io::Error),
}

/// The text of a configuration error.
pub open spec fn configuration_error_text(detail: Seq<char>) -> Seq<char> {
    "configuration error: "@ + detail
}

/// `<io::Error as Display>`: the error's message. What the operating
/// system's message says is not stated.
#[verifier::external_body]
fn io_error_text(e: &std::io::Error) -> String {
    e.to_string()
}

/// The text of an I/O error whose cause reads `cause`.
pub open spec fn io_error_prefixed(cause: Seq<char>) -> Seq<char> {
    "io error: "@ + cause
}

impl Error {
    /// The error's message.
    pub fn to_string(&self) -> (r: String)
        ensures
            self matches Error::Configuration(detail) ==> r@ == configuration_error_text(detail@),
            self is Io ==> exists|cause: Seq<char>| r@ == #[trigger] io_error_prefixed(cause),
    {
        proof {
            reveal_strlit("configuration error: ");
        }
        match self {
            Error::Configuration(detail) => {
                let mut out: Vec<char> = Vec::new();
                push_text(&mut out, "configuration error: ");
                push_text(&mut out, detail.as_str());
                string_from_chars(out)
            },
            Error::Io(e) => {
                let cause = io_error_text(e);
                let mut out: Vec<char> = Vec::new();
                push_text(&mut out, "io error: ");
                push_text(&mut out, cause.as_str());
                proof {
                    reveal_strlit("io error: ");
                    assert(out@ =~= io_error_prefixed(cause@));
                }
                string_from_chars(out)
            },
        }
    }
}

impl From<std::io::Error> for Error {
    fn from(e: std::io::Error) -> (r: Error) {
        Error::Io(e)
    }
}

impl vstd::std_specs::convert::FromSpecImpl<std::io::Error> for Error {
    open spec fn obeys_from_spec() -> bool {
        true
    }

    open spec fn from_spec(e: std::io::Error) -> Error {
        Error::Io(e)
    }
}

} // verus!
