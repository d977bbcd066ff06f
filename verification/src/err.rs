//! The errors that a statement can end with.

use vstd::prelude::*;

verus! {

/// What an `Error` stands for.
pub enum ErrorView {
    Parse,
    Lex,
    Unexpected,
    InvalidUrl(Seq<char>),
    InvalidFunction { name: Seq<char>, message: Seq<char> },
    InvalidArguments { name: Seq<char>, message: Seq<char> },
    PermissionDenied,
    Timeout,
    Arithmetic,
    Conversion,
    Ignore,
    Http(Seq<char>),
    Serialization,
    Deserialization,
    Conflict,
    NotFound,
    AlreadyExists,
    Unsupported,
    Internal,
}

#[derive(Debug)]
pub enum Error {
    /// The statement could not be parsed.
    Parse,
    /// The source could not be split into tokens.
    Lex,
    /// Something else was expected at this place.
    Unexpected,
    /// The text is no valid URL.
    InvalidUrl(String),
    /// There is no function of this name.
    InvalidFunction { name: String, message: String },
    /// The function was called with a count of arguments that it does not take.
    InvalidArguments { name: String, message: String },
    /// The caller may not do this.
    PermissionDenied,
    /// The statement took longer than it was given.
    Timeout,
    /// A number was divided by zero, or left its range.
    Arithmetic,
    /// A value could not be turned into the type asked for.
    Conversion,
    /// The record is to be skipped. This one never reaches the caller.
    Ignore,
    /// A remote server answered with an error status.
    Http(String),
    /// A value could not be written.
    Serialization,
    /// Bytes could not be read as a value.
    Deserialization,
    /// Another transaction wrote what this one wrote. The statement may be tried again.
    Conflict,
    /// What was asked for is not there.
    NotFound,
    /// What was to be created is there already.
    AlreadyExists,
    /// This is not supported.
    Unsupported,
    /// A fault inside the database.
    Internal,
}

impl View for Error {
    type V = ErrorView;

    open spec fn view(&self) -> ErrorView {
        match self {
            Error::Parse => ErrorView::Parse,
            Error::Lex => ErrorView::Lex,
            Error::Unexpected => ErrorView::Unexpected,
            Error::InvalidUrl(url) => ErrorView::InvalidUrl(url@),
            Error::InvalidFunction { name, message } => ErrorView::InvalidFunction {
                name: name@,
                message: message@,
            },
            Error::InvalidArguments { name, message } => ErrorView::InvalidArguments {
                name: name@,
                message: message@,
            },
            Error::PermissionDenied => ErrorView::PermissionDenied,
            Error::Timeout => ErrorView::Timeout,
            Error::Arithmetic => ErrorView::Arithmetic,
            Error::Conversion => ErrorView::Conversion,
            Error::Ignore => ErrorView::Ignore,
            Error::Http(reason) => ErrorView::Http(reason@),
            Error::Serialization => ErrorView::Serialization,
            Error::Deserialization => ErrorView::Deserialization,
            Error::Conflict => ErrorView::Conflict,
            Error::NotFound => ErrorView::NotFound,
            Error::AlreadyExists => ErrorView::AlreadyExists,
            Error::Unsupported => ErrorView::Unsupported,
            Error::Internal => ErrorView::Internal,
        }
    }
}

impl ErrorView {
    /// The code under which the error goes over the wire. It does not change between
    /// versions.
    pub open spec fn code(self) -> Seq<char> {
        match self {
            ErrorView::Parse => "Parse"@,
            ErrorView::Lex => "Lex"@,
            ErrorView::Unexpected => "Unexpected"@,
            ErrorView::InvalidUrl(_) => "InvalidUrl"@,
            ErrorView::InvalidFunction { .. } => "InvalidFunction"@,
            ErrorView::InvalidArguments { .. } => "InvalidArguments"@,
            ErrorView::PermissionDenied => "PermissionDenied"@,
            ErrorView::Timeout => "Timeout"@,
            ErrorView::Arithmetic => "Arithmetic"@,
            ErrorView::Conversion => "Conversion"@,
            ErrorView::Ignore => "Ignore"@,
            ErrorView::Http(_) => "Http"@,
            ErrorView::Serialization => "Serialization"@,
            ErrorView::Deserialization => "Deserialization"@,
            ErrorView::Conflict => "Conflict"@,
            ErrorView::NotFound => "NotFound"@,
            ErrorView::AlreadyExists => "AlreadyExists"@,
            ErrorView::Unsupported => "Unsupported"@,
            ErrorView::Internal => "Internal"@,
        }
    }

    /// Whether the statement may be tried again after this error.
    pub open spec fn retriable(self) -> bool {
        self is Conflict
    }

}

impl Error {
    /// The code under which the error goes over the wire.
    pub fn code(&self) -> (code: &'static str)
        ensures
            code@ == self@.code(),
    {
        match self {
            Error::Parse => "Parse",
            Error::Lex => "Lex",
            Error::Unexpected => "Unexpected",
            Error::InvalidUrl(_) => "InvalidUrl",
            Error::InvalidFunction { .. } => "InvalidFunction",
            Error::InvalidArguments { .. } => "InvalidArguments",
            Error::PermissionDenied => "PermissionDenied",
            Error::Timeout => "Timeout",
            Error::Arithmetic => "Arithmetic",
            Error::Conversion => "Conversion",
            Error::Ignore => "Ignore",
            Error::Http(_) => "Http",
            Error::Serialization => "Serialization",
            Error::Deserialization => "Deserialization",
            Error::Conflict => "Conflict",
            Error::NotFound => "NotFound",
            Error::AlreadyExists => "AlreadyExists",
            Error::Unsupported => "Unsupported",
            Error::Internal => "Internal",
        }
    }

    /// Whether the statement may be tried again after this error.
    pub fn is_retriable(&self) -> (retriable: bool)
        ensures
            retriable == self@.retriable(),
    {
        match self {
            Error::Conflict => true,
            _ => false,
        }
    }
}

} // verus!
