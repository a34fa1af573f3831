//! Error kinds of the repository boundary.

use vstd::prelude::*;
use vstd::string::StringExecFns;

verus! {

/// The field of a stored item that a decode step was looking at.
#[derive(Clone, Copy, Debug, PartialEq, Eq, Structural)]
pub enum FieldName {
    Source,
    Id,
    UserId,
    Amount,
}

/// A recoverable failure while turning a stored item back into a
/// transaction: the attribute is absent, carries the wrong scalar kind,
/// is not a canonical numeral, or names an empty partition key.
#[derive(Clone, Copy, Debug, PartialEq, Eq, Structural)]
pub enum DecodeError {
    Missing(FieldName),
    WrongKind(FieldName),
    BadNumber(FieldName),
    EmptySource,
}

/// The one opaque error kind the repository port surfaces: a store-layer
/// failure with a human-readable message and no retry hint.
#[derive(Debug)]
pub struct RepositoryError {
    pub message: String,
}

impl RepositoryError {
    /// The error returned when the store rejected or failed a put.
    pub fn save_failure() -> (e: RepositoryError)
        ensures
            e.message@ == "Error saving event"@,
    {
        RepositoryError { message: "Error saving event".to_owned() }
    }

    /// The error returned when the store rejected or failed the
    /// latest-event query for `source`.
    pub fn query_failure(source: &str) -> (e: RepositoryError)
        ensures
            e.message@ == "Error retrieving item with source "@ + source@,
    {
        let mut message = "Error retrieving item with source ".to_owned();
        message.append(source);
        RepositoryError { message }
    }
}

} // verus!
