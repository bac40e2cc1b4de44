use vstd::prelude::*;

verus! {

/// Failures that the request path can surface to the HTTP layer.
///
/// Background tasks (sweeping, eviction) never surface these: their
/// failures are logged by the caller and the task goes on.
#[derive(Clone, Copy, PartialEq, Eq, Structural, Debug)]
pub enum Error {
    /// The persistent table could not be reached or written.
    DatabaseConnectionFailure,
    /// The system clock could not produce a duration since the epoch.
    ExpirationCalculationFailure,
}

impl Error {
    /// HTTP status for each failure: every internal failure maps to 500.
    pub fn status_code(&self) -> (code: u16)
        ensures
            code == 500,
    {
        match self {
            Error::DatabaseConnectionFailure => 500,
            Error::ExpirationCalculationFailure => 500,
        }
    }
}

/// The HTTP status for a request body that cannot be decoded under its
/// declared content type, or that declares an unsupported one.
pub fn malformed_request_status() -> (code: u16)
    ensures
        code == 400,
{
    400
}

} // verus!
