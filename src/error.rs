use vstd::prelude::*;

verus! {

/// The failures that store operations report.
#[derive(Debug, Clone, PartialEq, Eq)]
pub enum StoreErrorType {
    NotFound(String),
    DatabaseError(String),
    JsonError(String),
    EnvVarError(String),
    IntError(String),
    MessageExists(String),
}

impl StoreErrorType {
    /// The text that travels with the error.
    pub fn detail(&self) -> (r: &String)
        ensures
            r@ == self.detail_spec(),
    {
        match self {
            StoreErrorType::NotFound(s) => s,
            StoreErrorType::DatabaseError(s) => s,
            StoreErrorType::JsonError(s) => s,
            StoreErrorType::EnvVarError(s) => s,
            StoreErrorType::IntError(s) => s,
            StoreErrorType::MessageExists(s) => s,
        }
    }

    pub open spec fn detail_spec(&self) -> Seq<char> {
        match self {
            StoreErrorType::NotFound(s) => s@,
            StoreErrorType::DatabaseError(s) => s@,
            StoreErrorType::JsonError(s) => s@,
            StoreErrorType::EnvVarError(s) => s@,
            StoreErrorType::IntError(s) => s@,
            StoreErrorType::MessageExists(s) => s@,
        }
    }
}

} // verus!
