//! The error taxonomy: store errors with unique- and foreign-key violations
//! told apart from the rest, content-source and gateway errors, and the
//! malformed persisted dialog state that must never be guessed away.

use vstd::prelude::*;

verus! {

/// What the persistent store can report. Unique-key and foreign-key
/// violations are distinguished so callers can turn them into user-facing
/// replies; everything else is generic.
#[derive(Debug, PartialEq)]
pub enum StoreError {
    UniqueViolation(String),
    ForeignKeyViolation(String),
    NotFound,
    Other(String),
}

impl StoreError {
    pub open spec fn spec_message(&self) -> Seq<char> {
        match self {
            StoreError::UniqueViolation(m) => m@,
            StoreError::ForeignKeyViolation(m) => m@,
            StoreError::NotFound => "Record not found"@,
            StoreError::Other(m) => m@,
        }
    }

    /// The text a diagnostic would carry.
    pub fn message(&self) -> (r: String)
        ensures
            r@ == self.spec_message(),
    {
        match self {
            StoreError::UniqueViolation(m) => m.clone(),
            StoreError::ForeignKeyViolation(m) => m.clone(),
            StoreError::NotFound => "Record not found".to_owned(),
            StoreError::Other(m) => m.clone(),
        }
    }
}

/// What the content source can report.
#[derive(Debug, PartialEq)]
pub enum RedditError {
    NetworkError,
    MalformedResponse,
    MissingData,
}

/// What the messaging gateway can report.
#[derive(Debug, PartialEq)]
pub enum TelegramError {
    NetworkError,
    MalformedResponse,
    Unsuccessful(String),
}

/// The bot-level error, one variant per collaborator, plus the corrupt
/// persisted dialog state that resuming refuses to guess away.
#[derive(Debug, PartialEq)]
pub enum BotError {
    TelegramError(TelegramError),
    DatabaseError(StoreError),
    RedditError(RedditError),
    MalformedState,
}

} // verus!
