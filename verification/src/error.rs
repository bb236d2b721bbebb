//! Errors of the library.

use vstd::prelude::*;

verus! {

/// How the message store refused an operation.
#[derive(Debug, Clone, Copy, PartialEq, Eq, Structural)]
pub enum DbError {
    /// A query that must return a row found none.
    NoRows,
    /// A row would have repeated a value that must be unique.
    UniqueViolation,
    /// A row would have referred to a row that does not exist.
    ForeignKeyViolation,
    /// A counter would have left the range of `i64`.
    IntegerOverflow,
    /// The row identifiers of a table are exhausted.
    Full,
}

/// The library's error type.
#[derive(Debug, Clone)]
pub enum AppError {
    Database(DbError),
    Imap(String),
    Smtp(String),
    MimeParse(String),
    Keychain(String),
    Io(String),
    Serde(String),
    InvalidData(String),
    AccountNotFound(i64),
    ConversationNotFound(i64),
    MessageNotFound(i64),
    AuthFailed { email: String, reason: String },
    Connection(String),
    Tls(String),
    NotInitialized,
    Other(String),
}

/// Result of the library's fallible operations.
pub type AppResult<T> = Result<T, AppError>;

} // verus!
