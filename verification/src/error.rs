use vstd::prelude::*;

verus! {

/// The library's error kinds.
#[derive(Debug, Clone, PartialEq)]
pub enum Error {
    /// No route, entry or value was found.
    NotFound,
    /// The dispatcher could not accept a batch.
    SendError,
    /// An invalid input or a failed fetch, with its description.
    Invalid(String),
    /// A template failed to compile or render, with its description.
    Template(String),
}

/// The mathematical counterpart of `Error`.
pub enum ErrV {
    NotFound,
    SendError,
    Invalid(Seq<char>),
    Template(Seq<char>),
}

impl ErrV {
    /// The human-readable description of the error.
    pub open spec fn msg(self) -> Seq<char> {
        match self {
            ErrV::NotFound => "Not found"@,
            ErrV::SendError => "Send error"@,
            ErrV::Invalid(m) => m,
            ErrV::Template(m) => m,
        }
    }
}

impl View for Error {
    type V = ErrV;

    open spec fn view(&self) -> ErrV {
        match self {
            Error::NotFound => ErrV::NotFound,
            Error::SendError => ErrV::SendError,
            Error::Invalid(m) => ErrV::Invalid(m@),
            Error::Template(m) => ErrV::Template(m@),
        }
    }
}

impl Error {
    /// The human-readable description of the error.
    pub fn message<'a>(&'a self) -> (r: &'a str)
        ensures
            r@ == self@.msg(),
    {
        match self {
            Error::NotFound => "Not found",
            Error::SendError => "Send error",
            Error::Invalid(m) => m.as_str(),
            Error::Template(m) => m.as_str(),
        }
    }
}

} // verus!
