//! Error taxonomies for the catalog and the enrichment data plane.

use vstd::prelude::*;

verus! {

/// Errors raised by the catalog store and its callers.
#[derive(Debug, PartialEq)]
pub enum Error {
    /// The store refused an operation (a duplicate key, a missing
    /// reference, or the like).
    Database(String),
    /// A filesystem problem, reported by the surrounding program.
    Io(String),
    /// An encode or decode of structured data failed.
    Serialization(String),
    /// A schema violation or a malformed rules document.
    InvalidData(String),
    /// A lookup missed: the entity kind and the identifier looked for.
    NotFound { entity: String, id: String },
}

impl Error {
    /// A short description of this error.
    pub fn describe(&self) -> (r: String) {
        match self {
            Error::Database(m) => m.clone(),
            Error::Io(m) => m.clone(),
            Error::Serialization(m) => m.clone(),
            Error::InvalidData(m) => m.clone(),
            Error::NotFound { entity, id: _ } => entity.clone(),
        }
    }
}

/// Errors raised by the source clients and the enrichment stage.
#[derive(Debug, PartialEq)]
pub enum EnrichError {
    /// An HTTP request to an external source failed.
    Http {
        /// The provider's name.
        source_name: String,
        /// What the transport reported.
        message: String,
    },
    /// The external source returned a rate-limit response.
    RateLimited {
        /// The provider's name.
        source_name: String,
    },
    /// The requested entity was not found at the external source.
    NotFound {
        /// What was looked for.
        entity: String,
        /// The provider's name.
        source_name: String,
    },
    /// A response from an external source could not be parsed.
    Parse {
        /// The provider's name.
        source_name: String,
        /// What the decoder reported.
        message: String,
    },
    /// An error propagated from the catalog store.
    Database(String),
    /// The circuit for a source is open (reserved).
    CircuitOpen {
        /// The provider's name.
        source_name: String,
    },
}

impl EnrichError {
    /// Whether the error is transient and the operation may succeed if
    /// retried: HTTP transport failures and rate limits are; everything
    /// else is not.
    pub fn is_transient(&self) -> (r: bool)
        ensures
            r == (self is Http || self is RateLimited),
    {
        match self {
            EnrichError::Http { .. } => true,
            EnrichError::RateLimited { .. } => true,
            _ => false,
        }
    }

    /// Whether the error says the entity was not found; callers treat
    /// this as "no enrichment from this source", not as a failure.
    pub fn is_not_found(&self) -> (r: bool)
        ensures
            r == (self is NotFound),
    {
        match self {
            EnrichError::NotFound { .. } => true,
            _ => false,
        }
    }
}

} // verus!
