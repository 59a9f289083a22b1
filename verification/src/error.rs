use vstd::prelude::*;

verus! {

/// The ways in which a storage operation fails.
#[derive(Clone, Copy, Debug, PartialEq, Eq, Structural)]
pub enum StoreError {
    /// A point lookup found no row.
    NotFound,
    /// A row with the same level or the same hash is already present.
    ConstraintViolation,
}

impl StoreError {
    /// What this error says, in words.
    pub open spec fn message_text(self) -> Seq<char> {
        match self {
            StoreError::NotFound => "Record not found"@,
            StoreError::ConstraintViolation => "UNIQUE constraint failed"@,
        }
    }

    /// What this error says, in words.
    pub fn message(&self) -> (text: String)
        ensures
            text@ == self.message_text(),
    {
        match self {
            StoreError::NotFound => "Record not found".to_owned(),
            StoreError::ConstraintViolation => "UNIQUE constraint failed".to_owned(),
        }
    }
}

} // verus!
