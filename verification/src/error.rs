use vstd::prelude::*;

verus! {

/// The error kinds of the library. Each carries a plain descriptive message;
/// no structured detail beyond the kind tag.
#[derive(Debug)]
pub enum AppError {
    /// A referenced file path is absent.
    FileNotFound(String),
    /// Name validation, sanitization collision, or a content-policy violation.
    InvalidPath(String),
    /// A filesystem or network failure, message-wrapped.
    IoError(String),
    /// A manifest or ledger could not be decoded.
    ParseError(String),
    /// A referenced ledger row or other record is absent.
    NotFound(String),
    /// A destination collision.
    AlreadyExists(String),
}

impl AppError {
    /// A human-readable description of the error.
    pub fn message(&self) -> (r: String)
        ensures
            r@ == self.spec_message(),
    {
        match self {
            AppError::FileNotFound(m) => m.clone(),
            AppError::InvalidPath(m) => m.clone(),
            AppError::IoError(m) => m.clone(),
            AppError::ParseError(m) => m.clone(),
            AppError::NotFound(m) => m.clone(),
            AppError::AlreadyExists(m) => m.clone(),
        }
    }

    pub open spec fn spec_message(&self) -> Seq<char> {
        match self {
            AppError::FileNotFound(m) => m@,
            AppError::InvalidPath(m) => m@,
            AppError::IoError(m) => m@,
            AppError::ParseError(m) => m@,
            AppError::NotFound(m) => m@,
            AppError::AlreadyExists(m) => m@,
        }
    }
}

impl Clone for AppError {
    fn clone(&self) -> (r: Self)
        ensures
            r == *self,
    {
        match self {
            AppError::FileNotFound(m) => AppError::FileNotFound(m.clone()),
            AppError::InvalidPath(m) => AppError::InvalidPath(m.clone()),
            AppError::IoError(m) => AppError::IoError(m.clone()),
            AppError::ParseError(m) => AppError::ParseError(m.clone()),
            AppError::NotFound(m) => AppError::NotFound(m.clone()),
            AppError::AlreadyExists(m) => AppError::AlreadyExists(m.clone()),
        }
    }
}

} // verus!
