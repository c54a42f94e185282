//! The error taxonomy: one kind per failure class, with a context label
//! for grammar violations.

use vstd::prelude::*;

verus! {

/// Why a parse was aborted. No kind is ever recovered from: the grammar
/// offers no resynchronization point.
#[derive(Debug, Clone, Copy)]
pub enum Error {
    /// An underlying read or write failed. The library itself performs no
    /// I/O; callers that do may carry their failures under this kind.
    Io,
    /// A fixed-width integer column did not parse as a 32-bit integer.
    ParseInt,
    /// A float column did not parse as a 64-bit float.
    ParseFloat,
    /// Wrong token count or another grammar violation, with the label of
    /// the field or section concerned.
    InvalidFormat(&'static str),
    /// The input ended before the grammar was fully consumed.
    UnexpectedEnd,
}

pub ghost enum ErrorModel {
    Io,
    ParseInt,
    ParseFloat,
    InvalidFormat(Seq<char>),
    UnexpectedEnd,
}

impl View for Error {
    type V = ErrorModel;

    open spec fn view(&self) -> ErrorModel {
        match self {
            Error::Io => ErrorModel::Io,
            Error::ParseInt => ErrorModel::ParseInt,
            Error::ParseFloat => ErrorModel::ParseFloat,
            Error::InvalidFormat(label) => ErrorModel::InvalidFormat(label@),
            Error::UnexpectedEnd => ErrorModel::UnexpectedEnd,
        }
    }
}

impl Error {
    /// A short human-readable description of the kind.
    pub fn describe(&self) -> &'static str {
        match self {
            Error::Io => "IO error",
            Error::ParseInt => "integer field did not parse",
            Error::ParseFloat => "float field did not parse",
            Error::InvalidFormat(label) => label,
            Error::UnexpectedEnd => "unexpected end of input",
        }
    }
}

} // verus!
