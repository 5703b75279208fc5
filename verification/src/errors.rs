use vstd::prelude::*;

verus! {

/// Failure of one call to the storage backend, as classified by the backend
/// adapter: the requested key does not exist, the wait deadline passed, or the
/// service call itself failed (network, permissions, throttling, unexpected
/// response).
#[derive(Debug)]
pub enum BackendError {
    NotFound,
    Timeout { cause: String },
    Service { cause: String },
}

/// Failure of one facade operation. `NotFound` is the only kind meant for
/// normal branching; the others are exceptional. Each carries the name of the
/// failing operation and the underlying cause, for diagnostics only.
#[derive(Debug)]
pub enum S3Error {
    NotFound,
    CalloutError { operation: String, cause: String },
    InvalidOperation { operation: String, cause: String },
    ItemParsingError { operation: String, cause: String },
}

impl BackendError {
    /// A short description of the failure, for diagnostics.
    pub fn describe(self) -> (r: String)
        ensures
            self matches BackendError::Timeout { cause } ==> r@ == cause@,
            self matches BackendError::Service { cause } ==> r@ == cause@,
    {
        match self {
            BackendError::NotFound => "object not found".to_owned(),
            BackendError::Timeout { cause } => cause,
            BackendError::Service { cause } => cause,
        }
    }
}

impl S3Error {
    /// Wraps a backend failure as a callout error of the named operation.
    pub fn callout(operation: &str, underlying: BackendError) -> (r: S3Error)
        ensures
            r is CalloutError,
    {
        S3Error::CalloutError { operation: operation.to_owned(), cause: underlying.describe() }
    }

    /// A short description of the failure, for diagnostics.
    pub fn describe(&self) -> (r: String)
        ensures
            self matches S3Error::CalloutError { cause, .. } ==> r@ == cause@,
            self matches S3Error::InvalidOperation { cause, .. } ==> r@ == cause@,
            self matches S3Error::ItemParsingError { cause, .. } ==> r@ == cause@,
    {
        match self {
            S3Error::NotFound => "requested item does not exist".to_owned(),
            S3Error::CalloutError { cause, .. } => cause.clone(),
            S3Error::InvalidOperation { cause, .. } => cause.clone(),
            S3Error::ItemParsingError { cause, .. } => cause.clone(),
        }
    }
}

} // verus!
