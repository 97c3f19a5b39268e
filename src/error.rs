//! The library's error type.
use vstd::prelude::*;

verus! {

/// A coarse classification of an error, in the manner of `std::io::ErrorKind`.
#[derive(Debug, Clone, Copy, PartialEq, Eq, Structural)]
pub enum ErrorKind {
    NotFound,
    PermissionDenied,
    AlreadyExists,
    InvalidInput,
    Other,
}

/// Errors of the host-asset lifecycle.
#[derive(Debug)]
pub enum AppError {
    /// A filesystem failure, with its kind and description.
    Io { kind: ErrorKind, message: String },
    /// Configuration or environment issue that prevents command execution.
    ConfigError(String),
    /// Raised when a requested host cannot be located in managed assets.
    HostNotFound(String),
    /// Raised when a stored item that should exist does not.
    ItemNotFound(String),
    /// Indicates a validation problem with user-provided arguments or derived data.
    ValidationError(String),
    /// A spawned command exited unsuccessfully; `status` is its exit code, if it had one.
    CommandFailed { program: String, status: Option<i32> },
}

pub open spec fn kind_of(e: AppError) -> ErrorKind {
    match e {
        AppError::Io { kind, .. } => kind,
        AppError::ConfigError(_) => ErrorKind::InvalidInput,
        AppError::ValidationError(_) => ErrorKind::InvalidInput,
        AppError::HostNotFound(_) => ErrorKind::NotFound,
        AppError::ItemNotFound(_) => ErrorKind::NotFound,
        AppError::CommandFailed { .. } => ErrorKind::Other,
    }
}

impl AppError {
    /// A validation error whose message names the offending `value` between `before` and
    /// `after`.
    pub fn validation_error(before: &str, value: &str, after: &str) -> (r: AppError)
        ensures
            r matches AppError::ValidationError(m) && m@ == before@ + value@ + after@,
    {
        let mut message = before.to_owned();
        message.append(value);
        message.append(after);
        AppError::ValidationError(message)
    }

    /// The kind of this error; configuration and validation problems are invalid input.
    pub fn kind(&self) -> (r: ErrorKind)
        ensures
            r == kind_of(*self),
    {
        match self {
            AppError::Io { kind, .. } => *kind,
            AppError::ConfigError(_) => ErrorKind::InvalidInput,
            AppError::ValidationError(_) => ErrorKind::InvalidInput,
            AppError::HostNotFound(_) => ErrorKind::NotFound,
            AppError::ItemNotFound(_) => ErrorKind::NotFound,
            AppError::CommandFailed { .. } => ErrorKind::Other,
        }
    }

}

} // verus!
