//! What can go wrong.

use vstd::prelude::*;
use vstd::string::StringExecFns;

verus! {

/// An error of the authority.
#[derive(Debug, PartialEq, Eq)]
pub enum MgoError {
    /// The request cannot be served; the text says why.
    GenericAuthorityError { error: String },
    /// What the store holds does not fit together; the text says what.
    StorageCorruptedFieldError(String),
}

/// The outcome of an operation of the authority.
pub type MgoResult<T> = Result<T, MgoError>;

/// An error met while reading an object for someone who knows nothing of the authority.
#[derive(Debug, PartialEq, Eq)]
pub struct StorageError {
    pub cause: MgoError,
}

impl MgoError {
    /// The text of the error.
    pub open spec fn text(self) -> Seq<char> {
        match self {
            MgoError::GenericAuthorityError { error } => error@,
            MgoError::StorageCorruptedFieldError(text) => text@,
        }
    }

    /// The text of the error.
    pub fn message(&self) -> (r: String)
        ensures
            r@ == self.text(),
    {
        match self {
            MgoError::GenericAuthorityError { error } => error.clone(),
            MgoError::StorageCorruptedFieldError(text) => text.clone(),
        }
    }

    /// The store holds an object in a form that no object can be built from.
    pub open spec fn is_inconsistent_object(self) -> bool {
        &&& self is StorageCorruptedFieldError
        &&& self.text() == "inconsistent object representation"@
    }

    /// The error for an object in a form that no object can be built from.
    pub fn inconsistent_object() -> (r: Self)
        ensures
            r.is_inconsistent_object(),
    {
        MgoError::StorageCorruptedFieldError(
            String::from_str("inconsistent object representation"),
        )
    }
}

impl StorageError {
    /// Wraps an error of the authority.
    pub fn custom(cause: MgoError) -> (r: Self)
        ensures
            r.cause == cause,
    {
        StorageError { cause }
    }
}

} // verus!
