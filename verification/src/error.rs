//! Errors of the live-query core.

use vstd::prelude::*;
use crate::ident::Uuid;

verus! {

/// What can go wrong inside the core.
#[derive(Clone, Copy, Debug, PartialEq, Eq, Structural)]
pub enum Error {
    /// A conditional write found a stored value other than the expected one,
    /// or a commit found that another transaction had committed first.
    ConditionNotMet,
    /// A transaction tried to register more live queries than it may.
    TooManyLiveQueries,
    /// The live query is not registered with this node.
    LiveQueryNotFound,
    /// A record was written by a later revision of the layout.
    UnsupportedRevision,
    /// A filter could not be evaluated.
    FilterEvaluation,
    /// A component gave up after its bounded number of retries.
    ConflictRetryable,
    /// The garbage collector gave up after its bounded number of attempts.
    BootstrapConflict,
    /// The store failed, or the transaction had already been aborted.
    StorageError,
    /// The store is corrupt, or the clock went backwards by more than a liveness window.
    FatalStorage,
    /// The one who asks may not do what the statement does.
    NotAllowed,
    /// The namespace is not defined, and the store is strict.
    NamespaceNotFound,
}

/// How an error is handled.
#[derive(Clone, Copy, Debug, PartialEq, Eq, Structural)]
pub enum ErrorClass {
    /// Handled inside the component by a bounded number of retries.
    Retryable,
    /// The caller broke a rule; the transaction is rolled back.
    ContractViolation,
    /// The store cannot be used.
    Fatal,
}

/// The class of each error.
pub open spec fn class_of(e: Error) -> ErrorClass {
    match e {
        Error::ConditionNotMet | Error::ConflictRetryable | Error::BootstrapConflict
        | Error::StorageError => ErrorClass::Retryable,
        Error::TooManyLiveQueries | Error::LiveQueryNotFound | Error::UnsupportedRevision
        | Error::FilterEvaluation | Error::NotAllowed | Error::NamespaceNotFound =>
            ErrorClass::ContractViolation,
        Error::FatalStorage => ErrorClass::Fatal,
    }
}

/// What the caller of the datastore sees of an internal error: a conflict
/// that was not resolved by retrying is reported as retryable by the caller,
/// every other error as itself.
pub open spec fn surfaced(e: Error) -> Error {
    match e {
        Error::ConditionNotMet => Error::ConflictRetryable,
        other => other,
    }
}

/// An error as the datastore hands it out: with the node it arose on.
#[derive(Clone, Copy, Debug, PartialEq, Eq, Structural)]
pub struct NodeError {
    pub kind: Error,
    pub node: Uuid,
}

impl Error {
    /// How this error is handled.
    pub fn class(&self) -> (class: ErrorClass)
        ensures
            class == class_of(*self),
    {
        match self {
            Error::ConditionNotMet | Error::ConflictRetryable | Error::BootstrapConflict
            | Error::StorageError => ErrorClass::Retryable,
            Error::TooManyLiveQueries | Error::LiveQueryNotFound | Error::UnsupportedRevision
            | Error::FilterEvaluation | Error::NotAllowed | Error::NamespaceNotFound =>
                ErrorClass::ContractViolation,
            Error::FatalStorage => ErrorClass::Fatal,
        }
    }

    /// Wraps the error for the caller of the datastore and attaches the node.
    pub fn at(self, node: Uuid) -> (wrapped: NodeError)
        ensures
            wrapped == (NodeError { kind: surfaced(self), node }),
    {
        let kind = match self {
            Error::ConditionNotMet => Error::ConflictRetryable,
            other => other,
        };
        NodeError { kind, node }
    }

    /// The name of the error.
    pub fn name(&self) -> (name: &'static str)
        ensures
            name@ == error_name(*self),
    {
        match self {
            Error::ConditionNotMet => "ConditionNotMet",
            Error::TooManyLiveQueries => "TooManyLiveQueries",
            Error::LiveQueryNotFound => "LiveQueryNotFound",
            Error::UnsupportedRevision => "UnsupportedRevision",
            Error::FilterEvaluation => "FilterEvaluation",
            Error::ConflictRetryable => "ConflictRetryable",
            Error::BootstrapConflict => "BootstrapConflict",
            Error::StorageError => "StorageError",
            Error::FatalStorage => "FatalStorage",
            Error::NotAllowed => "NotAllowed",
            Error::NamespaceNotFound => "NamespaceNotFound",
        }
    }
}

/// The name of each error.
pub open spec fn error_name(e: Error) -> Seq<char> {
    match e {
        Error::ConditionNotMet => "ConditionNotMet"@,
        Error::TooManyLiveQueries => "TooManyLiveQueries"@,
        Error::LiveQueryNotFound => "LiveQueryNotFound"@,
        Error::UnsupportedRevision => "UnsupportedRevision"@,
        Error::FilterEvaluation => "FilterEvaluation"@,
        Error::ConflictRetryable => "ConflictRetryable"@,
        Error::BootstrapConflict => "BootstrapConflict"@,
        Error::StorageError => "StorageError"@,
        Error::FatalStorage => "FatalStorage"@,
        Error::NotAllowed => "NotAllowed"@,
        Error::NamespaceNotFound => "NamespaceNotFound"@,
    }
}

} // verus!
