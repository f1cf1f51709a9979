//! The data model: one submitted score, the submission payload, and the
//! error taxonomy of the service.

use vstd::prelude::*;

verus! {

/// One persisted score row. `timestamp` is assigned by the store at insert
/// time, never by the client, and entries are immutable once created.
#[derive(Debug, PartialEq, Eq, Clone)]
pub struct ScoreEntry {
    pub scoreboard_id: u32,
    pub signature_name: String,
    pub points: u32,
    pub timestamp: String,
}

impl ScoreEntry {
    /// A verified copy: the result equals the original in every field.
    pub fn duplicate(&self) -> (r: ScoreEntry)
        ensures
            r == *self,
    {
        ScoreEntry {
            scoreboard_id: self.scoreboard_id,
            signature_name: self.signature_name.clone(),
            points: self.points,
            timestamp: self.timestamp.clone(),
        }
    }
}

/// What a client submits: the target scoreboard, a display name and the
/// points. Any string and any point value are accepted.
#[derive(Debug, PartialEq, Eq, Clone)]
pub struct ScorePostPayload {
    pub scoreboard_id: u32,
    pub signature_name: String,
    pub points: u32,
}

impl ScorePostPayload {
    /// A verified copy: the result equals the original in every field.
    pub fn duplicate(&self) -> (r: ScorePostPayload)
        ensures
            r == *self,
    {
        ScorePostPayload {
            scoreboard_id: self.scoreboard_id,
            signature_name: self.signature_name.clone(),
            points: self.points,
        }
    }
}

/// A malformed request: the scoreboard identifier in the path is not a
/// decimal number, or does not fit the identifier type.
#[derive(Debug, PartialEq, Eq, Clone)]
pub enum ValidationError {
    NotANumber,
    OutOfRange,
}

/// A failure at the persistence layer: the connection could not be
/// established or the statement failed. Carries a diagnostic message.
#[derive(Debug, PartialEq, Eq, Clone)]
pub struct PersistenceError {
    pub message: String,
}

/// What the service reports to a client when a request cannot be served.
#[derive(Debug, PartialEq, Eq, Clone)]
pub enum ServiceError {
    Validation(ValidationError),
    Persistence(PersistenceError),
}

impl ServiceError {
    /// The HTTP-like status class of the error: client errors map to 400,
    /// persistence failures to 500.
    pub fn status_code(&self) -> (c: u16)
        ensures
            c == (match *self {
                ServiceError::Validation(_) => 400u16,
                ServiceError::Persistence(_) => 500u16,
            }),
    {
        match self {
            ServiceError::Validation(_) => 400,
            ServiceError::Persistence(_) => 500,
        }
    }

    /// The diagnostic the client receives with a non-2xx response.
    pub fn message(&self) -> (m: String)
        ensures
            (match *self {
                ServiceError::Validation(ValidationError::NotANumber) => m@
                    == "scoreboard id must be a decimal number"@,
                ServiceError::Validation(ValidationError::OutOfRange) => m@
                    == "scoreboard id is out of range"@,
                ServiceError::Persistence(p) => m@ == p.message@,
            }),
    {
        match self {
            ServiceError::Validation(ValidationError::NotANumber) => "scoreboard id must be a decimal number".to_owned(),
            ServiceError::Validation(ValidationError::OutOfRange) => "scoreboard id is out of range".to_owned(),
            ServiceError::Persistence(p) => p.message.clone(),
        }
    }
}

} // verus!
