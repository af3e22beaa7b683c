//! Error type shared by every service.
use vstd::prelude::*;
use vstd::string::*;

verus! {

/// Failure of a service call. Each variant carries a human-readable detail.
#[derive(Debug, Clone, PartialEq, Eq)]
pub enum AppError {
    NotFound(String),
    Invariant(String),
    Unsupported(String),
    Unexpected(String),
    AiProvider(String),
}

/// Result alias used by the services.
pub type AppResult<T> = Result<T, AppError>;

impl AppError {
    /// The label that prefixes the detail in `message`.
    pub open spec fn spec_prefix(&self) -> Seq<char> {
        match self {
            AppError::NotFound(_) => "not found: "@,
            AppError::Invariant(_) => "invalid: "@,
            AppError::Unsupported(_) => "unsupported: "@,
            AppError::Unexpected(_) => "unexpected error: "@,
            AppError::AiProvider(_) => "AI provider error: "@,
        }
    }

    /// The detail text carried by the error.
    pub open spec fn spec_detail(&self) -> Seq<char> {
        match self {
            AppError::NotFound(m) => m@,
            AppError::Invariant(m) => m@,
            AppError::Unsupported(m) => m@,
            AppError::Unexpected(m) => m@,
            AppError::AiProvider(m) => m@,
        }
    }

    /// One-line display form: a label for the kind, then the detail.
    pub fn message(&self) -> (r: String)
        ensures
            r@ == self.spec_prefix() + self.spec_detail(),
    {
        let (prefix, detail) = match self {
            AppError::NotFound(m) => ("not found: ", m),
            AppError::Invariant(m) => ("invalid: ", m),
            AppError::Unsupported(m) => ("unsupported: ", m),
            AppError::Unexpected(m) => ("unexpected error: ", m),
            AppError::AiProvider(m) => ("AI provider error: ", m),
        };
        let mut out = String::from_str(prefix);
        out.append(detail.as_str());
        out
    }
}

} // verus!
