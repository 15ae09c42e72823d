use vstd::prelude::*;

verus! {

/// The kinds of failure that the service reports to its callers.
#[derive(Clone, Copy, Debug, PartialEq, Eq, Structural)]
pub enum ServiceError {
    /// Malformed payload, missing query or empty text.
    BadRequest,
    /// The content store failed.
    Storage,
    /// The embedder failed.
    Embedding,
    /// The vector index failed (add, search, save).
    Index,
    /// A vector's length differs from the index's dimensionality.
    DimensionMismatch,
}

/// The HTTP status that an error kind maps to.
pub open spec fn status_of(e: ServiceError) -> u16 {
    match e {
        ServiceError::BadRequest => 400,
        _ => 500,
    }
}

impl ServiceError {
    pub fn status_code(&self) -> (r: u16)
        ensures
            r == status_of(*self),
    {
        match self {
            ServiceError::BadRequest => 400,
            _ => 500,
        }
    }
}

} // verus!
