//! Error kinds raised by the domain's validated constructors and state
//! transitions.

use vstd::prelude::*;

verus! {

/// A domain validation or transition failure. Every variant names the
/// exact rule that was violated.
#[derive(Debug, Clone, Copy, PartialEq, Eq, Structural)]
pub enum DomainError {
    /// A title was empty after trimming.
    EmptyTitle,
    /// Notes exceeded the given maximum number of characters.
    NotesTooLong { max: usize },
    /// A project name was empty after trimming.
    EmptyProjectName,
    /// A tag was empty after trimming.
    EmptyTag,
    /// A tag held a character outside `a-z`, `0-9`, `-`, `_` after
    /// case folding.
    InvalidTag,
    /// A priority was none of P1, P2, P3, P4.
    InvalidPriority,
    /// A due timestamp was not well-formed RFC 3339 text.
    InvalidDueAt,
    /// `mark_done` was called on a task already done.
    AlreadyDone,
    /// `mark_open` was called on a task already open.
    AlreadyOpen,
}

impl DomainError {
    /// A human-readable description of the failure.
    pub fn message(&self) -> String
    {
        match self {
            DomainError::EmptyTitle => "todo title cannot be empty".to_owned(),
            DomainError::NotesTooLong { max: _ } => "notes are too long".to_owned(),
            DomainError::EmptyProjectName => "project name cannot be empty".to_owned(),
            DomainError::EmptyTag => "tag cannot be empty".to_owned(),
            DomainError::InvalidTag =>
                "tag contains invalid characters (allowed: a-z, 0-9, '-', '_')".to_owned(),
            DomainError::InvalidPriority => "priority must be one of P1, P2, P3, P4".to_owned(),
            DomainError::InvalidDueAt =>
                "due datetime must be RFC3339, e.g. 2026-01-02T09:00:00Z".to_owned(),
            DomainError::AlreadyDone => "cannot mark as done: already done".to_owned(),
            DomainError::AlreadyOpen => "cannot mark as open: already open".to_owned(),
        }
    }
}

/// An application-level outcome a caller can act on.
#[derive(Debug, Clone, Copy, PartialEq, Eq, Structural)]
pub enum AppError {
    /// No stored task carries the requested identifier.
    TodoNotFound,
    /// The task is already done.
    AlreadyDone,
    /// The task is already open.
    AlreadyOpen,
    /// A destructive action was requested without confirmation.
    ConfirmationRequired,
}

impl AppError {
    /// A human-readable description of the outcome.
    pub fn message(&self) -> String
    {
        match self {
            AppError::TodoNotFound => "todo not found".to_owned(),
            AppError::AlreadyDone => "todo is already done".to_owned(),
            AppError::AlreadyOpen => "todo is already open".to_owned(),
            AppError::ConfirmationRequired =>
                "refusing destructive action without confirmation (use --yes)".to_owned(),
        }
    }
}

} // verus!
