//! The failures that the store reports.

use vstd::prelude::*;

verus! {

/// Why an operation on the store was refused. A refused operation leaves the
/// store as it was.
#[derive(Clone, Copy, Debug, PartialEq, Eq, Structural)]
pub enum WikiError {
    /// The page, section or revision named does not exist.
    NotFound,
    /// The section still has child sections or resident pages.
    Conflict,
    /// The root section cannot be deleted.
    InvalidOperation,
    /// The backing records cannot take the change: they are malformed, or no
    /// unused identifier is left for a new record.
    PersistenceFailure,
}

/// What the result of an operation holds: the view of the value it gives, or
/// its failure.
pub open spec fn outcome_view<T: DeepView>(r: Result<T, WikiError>) -> Result<T::V, WikiError> {
    match r {
        Ok(value) => Ok(value.deep_view()),
        Err(e) => Err(e),
    }
}

/// The sentence that describes a failure.
pub open spec fn message_of(error: WikiError) -> Seq<char> {
    match error {
        WikiError::NotFound => "Not found"@,
        WikiError::Conflict => "Section has child sections or pages; move or delete them first"@,
        WikiError::InvalidOperation => "Cannot delete root section"@,
        WikiError::PersistenceFailure => "Store records are malformed or out of identifiers"@,
    }
}

impl WikiError {
    /// The sentence that describes this failure, for showing to a user.
    pub fn message(&self) -> (r: String)
        ensures
            r@ == message_of(*self),
    {
        match self {
            WikiError::NotFound => "Not found".to_owned(),
            WikiError::Conflict => "Section has child sections or pages; move or delete them first".to_owned(),
            WikiError::InvalidOperation => "Cannot delete root section".to_owned(),
            WikiError::PersistenceFailure => "Store records are malformed or out of identifiers".to_owned(),
        }
    }
}

} // verus!
