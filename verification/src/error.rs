use vstd::prelude::*;

verus! {

/// The error taxonomy of the library.
///
/// `ValidationError` is recoverable (reject the input and re-prompt),
/// `GitError` carries the underlying tool's diagnostic text verbatim,
/// `IOError` reports a filesystem-level problem, `NotFound` marks a
/// selection that matches no entry, and `UserCancelled` marks the no-op
/// success path of an interactive flow.
#[derive(Debug, Clone, PartialEq, Eq)]
pub enum WtError {
    NotGitRepository,
    GitError(String),
    IOError(String),
    ValidationError(String),
    NotFound,
    UserCancelled,
}

pub type WtResult<T> = Result<T, WtError>;

/// The text that `WtError::message` renders for each variant.
pub open spec fn spec_message(e: WtError) -> Seq<char> {
    match e {
        WtError::NotGitRepository => "Not in a Git repository"@,
        WtError::GitError(m) => "Git error: "@ + m@,
        WtError::IOError(m) => "IO error: "@ + m@,
        WtError::ValidationError(m) => "Validation error: "@ + m@,
        WtError::NotFound => "No matching entry found"@,
        WtError::UserCancelled => "Operation cancelled by user"@,
    }
}

impl WtError {
    /// Renders the error as a human-readable line.
    pub fn message(&self) -> (r: String)
        ensures
            r@ == spec_message(*self),
    {
        match self {
            WtError::NotGitRepository => String::from_str("Not in a Git repository"),
            WtError::GitError(m) => String::from_str("Git error: ").concat(m.as_str()),
            WtError::IOError(m) => String::from_str("IO error: ").concat(m.as_str()),
            WtError::ValidationError(m) => String::from_str("Validation error: ").concat(
                m.as_str(),
            ),
            WtError::NotFound => String::from_str("No matching entry found"),
            WtError::UserCancelled => String::from_str("Operation cancelled by user"),
        }
    }
}

} // verus!
