//! Errors reported while turning a partition request string into a request.

use vstd::prelude::*;

verus! {

/// Why a partition request was rejected before it reached the table.
#[derive(Debug)]
pub enum Error {
    /// A boolean field of a request did not parse.
    Bool,
    /// A type code was neither a known alias nor a nonzero hex byte.
    Int,
    /// A request was malformed; the message says how.
    Msg(String),
    /// Reading a partition's source failed; the message says how.
    Io(String),
}

impl Error {
    /// What [`Error::message`] returns, per variant.
    pub open spec fn spec_message(&self) -> Seq<char> {
        match self {
            Error::Bool => "error parsing bool"@,
            Error::Int => "error parsing int"@,
            Error::Msg(m) => m@,
            Error::Io(m) => "io error: "@ + m@,
        }
    }

    /// A human-readable description of the error.
    pub fn message(&self) -> (r: String)
        ensures
            r@ == self.spec_message(),
    {
        match self {
            Error::Bool => String::from_str("error parsing bool"),
            Error::Int => String::from_str("error parsing int"),
            Error::Msg(m) => m.clone(),
            Error::Io(m) => String::from_str("io error: ").concat(m.as_str()),
        }
    }
}

impl From<String> for Error {
    /// Wraps a free-form message.
    fn from(value: String) -> (r: Self) {
        Error::Msg(value)
    }
}

impl vstd::std_specs::convert::FromSpecImpl<String> for Error {
    open spec fn obeys_from_spec() -> bool {
        true
    }

    open spec fn from_spec(value: String) -> Self {
        Error::Msg(value)
    }
}

} // verus!
