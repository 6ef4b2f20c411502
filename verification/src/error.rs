//! The library's error type.
use vstd::prelude::*;

verus! {

/// Failures reported by the library, each with a human-readable message.
#[derive(Clone, Debug, PartialEq, Eq)]
pub enum AppError {
    /// A document being imported is malformed or unsupported.
    Import(String),
    /// An internal invariant of the application was violated.
    Internal(String),
    /// A caller supplied an invalid argument.
    InvalidInput(String),
    /// The language-model service is misconfigured or answered badly.
    LlmService(String),
    /// A requested item does not exist.
    NotFound(String),
}

/// The abstract value of an [`AppError`]: its kind and message.
pub enum ErrorView {
    Import(Seq<char>),
    Internal(Seq<char>),
    InvalidInput(Seq<char>),
    LlmService(Seq<char>),
    NotFound(Seq<char>),
}

impl View for AppError {
    type V = ErrorView;

    open spec fn view(&self) -> ErrorView {
        match self {
            AppError::Import(m) => ErrorView::Import(m@),
            AppError::Internal(m) => ErrorView::Internal(m@),
            AppError::InvalidInput(m) => ErrorView::InvalidInput(m@),
            AppError::LlmService(m) => ErrorView::LlmService(m@),
            AppError::NotFound(m) => ErrorView::NotFound(m@),
        }
    }
}

impl AppError {
    /// The message carried by the error.
    pub fn message(&self) -> (r: &str)
        ensures
            r@ == match self@ {
                ErrorView::Import(m) => m,
                ErrorView::Internal(m) => m,
                ErrorView::InvalidInput(m) => m,
                ErrorView::LlmService(m) => m,
                ErrorView::NotFound(m) => m,
            },
    {
        match self {
            AppError::Import(m) => m.as_str(),
            AppError::Internal(m) => m.as_str(),
            AppError::InvalidInput(m) => m.as_str(),
            AppError::LlmService(m) => m.as_str(),
            AppError::NotFound(m) => m.as_str(),
        }
    }
}

} // verus!
