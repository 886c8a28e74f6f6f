//! The failures that the shell reports.

use vstd::prelude::*;
use vstd::std_specs::convert::FromSpecImpl;

verus! {

/// Trusted: `std::io::Error`, carried through as an opaque value.
#[verifier::external_type_specification]
#[verifier::external_body]
pub struct ExIoError(std::io::Error);

/// Why a command line could not be carried out.
pub enum ShellError {
    /// An underlying I/O failure; it has no text of its own for the user.
    IoError(std::io::Error),
    /// A path or a command that does not exist.
    FileNotFound(String),
    /// A builtin that was called in the wrong way.
    InvalidArgument(String),
    /// An external command that ended with a failure; holds what it wrote to
    /// its error stream.
    ExecutionError(String),
    /// No directory of the search path holds the command.
    ExecutableNotFound(String),
    /// A redirection operator without a path after it.
    MalformedRedirection,
}

/// What is shown for a redirection operator that lacks its path.
pub open spec fn malformed_redirection_text() -> Seq<char> {
    "Redirection in wrong format."@
}

/// The text that an error shows to the user, where it has one.
pub open spec fn error_text(err: ShellError) -> Option<Seq<char>> {
    match err {
        ShellError::IoError(_) => None,
        ShellError::FileNotFound(msg) => Some(msg@),
        ShellError::InvalidArgument(msg) => Some(msg@),
        ShellError::ExecutionError(msg) => Some(msg@),
        ShellError::ExecutableNotFound(msg) => Some(msg@),
        ShellError::MalformedRedirection => Some(malformed_redirection_text()),
    }
}

impl From<std::io::Error> for ShellError {
    fn from(error: std::io::Error) -> (err: Self) {
        ShellError::IoError(error)
    }
}

impl FromSpecImpl<std::io::Error> for ShellError {
    open spec fn obeys_from_spec() -> bool {
        true
    }

    open spec fn from_spec(error: std::io::Error) -> Self {
        ShellError::IoError(error)
    }
}

/// The message of an error: every kind carries one but `IoError`.
pub fn get_error_message(err: &ShellError) -> (message: Option<&str>)
    ensures
        match message {
            Some(m) => error_text(*err) == Some(m@),
            None => *err is IoError,
        },
{
    match err {
        ShellError::FileNotFound(msg) => Some(msg.as_str()),
        ShellError::InvalidArgument(msg) => Some(msg.as_str()),
        ShellError::ExecutionError(msg) => Some(msg.as_str()),
        ShellError::ExecutableNotFound(msg) => Some(msg.as_str()),
        ShellError::MalformedRedirection => Some("Redirection in wrong format."),
        ShellError::IoError(_) => None,
    }
}

} // verus!
