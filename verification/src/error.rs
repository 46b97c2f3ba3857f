use vstd::prelude::*;
use vstd::string::*;

verus! {

/// The backend's error taxonomy, as the HTTP layer reports it. Each
/// variant carries the text of what went wrong.
#[derive(Debug)]
pub enum BackendError {
    ContentNotFound(String),
    EnvError(String),
    DbError(String),
    FileNotFound(String),
    FileReadError(String),
    FileWriteError(String),
    ResourceLocked(String),
    SerializationError(String),
    DeserializationError(String),
    PaymentError(String),
    Unauthorized,
    RateLimitError,
}

/// The user-facing text of a `BackendError`, variant by variant.
pub open spec fn spec_error_message(e: BackendError) -> Seq<char> {
    match e {
        BackendError::ContentNotFound(s) => "Page call "@ + s@ + " not found"@,
        BackendError::FileNotFound(s) => "API does not contain "@ + s@,
        BackendError::FileReadError(s) => "Cannot read file "@ + s@,
        BackendError::FileWriteError(s) => "Cannot write file "@ + s@,
        BackendError::ResourceLocked(s) => "Resource "@ + s@ + " currently locked"@,
        BackendError::SerializationError(s) => "Cannot serialize struct "@ + s@,
        BackendError::DeserializationError(s) => "Cannot deserialize file or http response "@
            + s@,
        BackendError::DbError(s) => "Error in database: "@ + s@,
        BackendError::Unauthorized => "YOU are not authorized to access this content . . ."@,
        BackendError::RateLimitError => "Unable to initialize rate limiter middleware"@,
        BackendError::EnvError(s) => "Environment error: "@ + s@,
        BackendError::PaymentError(s) => "Payment error: "@ + s@,
    }
}

/// The HTTP status each error variant answers with.
pub open spec fn spec_error_status(e: BackendError) -> u16 {
    match e {
        BackendError::ContentNotFound(_) | BackendError::FileNotFound(_) => 404,
        BackendError::SerializationError(_) | BackendError::DeserializationError(_)
            | BackendError::FileWriteError(_) | BackendError::EnvError(_)
            | BackendError::PaymentError(_) | BackendError::DbError(_) => 500,
        BackendError::FileReadError(_) => 424,
        BackendError::ResourceLocked(_) => 423,
        BackendError::Unauthorized => 403,
        BackendError::RateLimitError => 200,
    }
}

impl BackendError {
    /// The user-facing text of this error.
    pub fn message(&self) -> (r: String)
        ensures
            r@ == spec_error_message(*self),
    {
        match self {
            BackendError::ContentNotFound(s) => String::from_str("Page call ").concat(
                s.as_str(),
            ).concat(" not found"),
            BackendError::FileNotFound(s) => String::from_str("API does not contain ").concat(
                s.as_str(),
            ),
            BackendError::FileReadError(s) => String::from_str("Cannot read file ").concat(
                s.as_str(),
            ),
            BackendError::FileWriteError(s) => String::from_str("Cannot write file ").concat(
                s.as_str(),
            ),
            BackendError::ResourceLocked(s) => String::from_str("Resource ").concat(
                s.as_str(),
            ).concat(" currently locked"),
            BackendError::SerializationError(s) => String::from_str(
                "Cannot serialize struct ",
            ).concat(s.as_str()),
            BackendError::DeserializationError(s) => String::from_str(
                "Cannot deserialize file or http response ",
            ).concat(s.as_str()),
            BackendError::DbError(s) => String::from_str("Error in database: ").concat(s.as_str()),
            BackendError::Unauthorized => String::from_str(
                "YOU are not authorized to access this content . . .",
            ),
            BackendError::RateLimitError => String::from_str(
                "Unable to initialize rate limiter middleware",
            ),
            BackendError::EnvError(s) => String::from_str("Environment error: ").concat(s.as_str()),
            BackendError::PaymentError(s) => String::from_str("Payment error: ").concat(s.as_str()),
        }
    }

    /// The HTTP status class this error answers with: not-found errors
    /// are 404, a read of a missing dependency is 424, a locked resource
    /// is 423, authorization failures are 403, a rate-limiter fault is
    /// answered 200 so traffic keeps flowing, and the rest are 500.
    pub fn status_code(&self) -> (r: u16)
        ensures
            r == spec_error_status(*self),
    {
        match self {
            BackendError::ContentNotFound(_) | BackendError::FileNotFound(_) => 404,
            BackendError::SerializationError(_)
            | BackendError::DeserializationError(_)
            | BackendError::FileWriteError(_)
            | BackendError::EnvError(_)
            | BackendError::PaymentError(_)
            | BackendError::DbError(_) => 500,
            BackendError::FileReadError(_) => 424,
            BackendError::ResourceLocked(_) => 423,
            BackendError::Unauthorized => 403,
            BackendError::RateLimitError => 200,
        }
    }
}

} // verus!
