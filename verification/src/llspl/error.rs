//! What can go wrong when a program runs.
use vstd::prelude::*;

verus! {

/// An error of a running program.  Errors of the outside services (storage,
/// HTTP, the JSON library) carry the message those services gave.
#[derive(Debug)]
pub enum Error {
    Storage(String),
    Http(String),
    Hyper(String),
    Json(String),
    /// A transformer had no value, or JSON was not of the shape required.
    JsonEval,
    InvokeError(String),
}

/// The mathematical form of an error.
pub enum ErrorV {
    Storage(Seq<char>),
    Http(Seq<char>),
    Hyper(Seq<char>),
    Json(Seq<char>),
    JsonEval,
    InvokeError(Seq<char>),
}

impl View for Error {
    type V = ErrorV;

    open spec fn view(&self) -> ErrorV {
        match self {
            Error::Storage(m) => ErrorV::Storage(m@),
            Error::Http(m) => ErrorV::Http(m@),
            Error::Hyper(m) => ErrorV::Hyper(m@),
            Error::Json(m) => ErrorV::Json(m@),
            Error::JsonEval => ErrorV::JsonEval,
            Error::InvokeError(m) => ErrorV::InvokeError(m@),
        }
    }
}

impl ErrorV {
    /// The text that describes the error: the service's message, or
    /// `JsonEval`.
    pub open spec fn description(self) -> Seq<char> {
        match self {
            ErrorV::Storage(m) => m,
            ErrorV::Http(m) => m,
            ErrorV::Hyper(m) => m,
            ErrorV::Json(m) => m,
            ErrorV::JsonEval => "JsonEval"@,
            ErrorV::InvokeError(m) => m,
        }
    }
}

impl Error {
    /// The text that describes the error.
    pub fn description(&self) -> (d: &str)
        ensures
            d@ == self@.description(),
    {
        match self {
            Error::Storage(m) => m.as_str(),
            Error::Http(m) => m.as_str(),
            Error::Hyper(m) => m.as_str(),
            Error::Json(m) => m.as_str(),
            Error::JsonEval => "JsonEval",
            Error::InvokeError(m) => m.as_str(),
        }
    }

    /// A copy of the error.
    pub fn copy(&self) -> (e: Error)
        ensures
            e@ == self@,
    {
        match self {
            Error::Storage(m) => Error::Storage(m.clone()),
            Error::Http(m) => Error::Http(m.clone()),
            Error::Hyper(m) => Error::Hyper(m.clone()),
            Error::Json(m) => Error::Json(m.clone()),
            Error::JsonEval => Error::JsonEval,
            Error::InvokeError(m) => Error::InvokeError(m.clone()),
        }
    }
}

} // verus!
