use vstd::prelude::*;
use vstd::string::*;

verus! {

/// The failures that the store's operations report.
#[derive(Debug)]
pub enum ServiceError {
    /// A storage failure or an unexpected state.
    InternalServerError,
    /// The request itself is not acceptable.
    BadRequest(String),
    /// A missing, malformed or rejected credential.
    Unauthorized(String),
    /// A valid credential for a user who does not own the record.
    Forbidden(String),
    /// No such record.
    NotFound(String),
    /// A uniqueness rule would be broken.
    Conflict(String),
}

impl ServiceError {
    /// The HTTP status that a boundary layer reports for this error. A
    /// uniqueness conflict (a duplicate tag name) is answered as a bad
    /// request.
    pub open spec fn spec_status(&self) -> u16 {
        match self {
            ServiceError::InternalServerError => 500,
            ServiceError::BadRequest(_) => 400,
            ServiceError::Unauthorized(_) => 401,
            ServiceError::Forbidden(_) => 403,
            ServiceError::NotFound(_) => 404,
            ServiceError::Conflict(_) => 400,
        }
    }

    /// The text shown to a client: the message, or a fixed text for an
    /// internal failure, whose details are never exposed.
    pub open spec fn spec_message(&self) -> Seq<char> {
        match self {
            ServiceError::InternalServerError => "Internal Server Error"@,
            ServiceError::BadRequest(m) => m@,
            ServiceError::Unauthorized(m) => m@,
            ServiceError::Forbidden(m) => m@,
            ServiceError::NotFound(m) => m@,
            ServiceError::Conflict(m) => m@,
        }
    }

    pub fn status_code(&self) -> (r: u16)
        ensures
            r == self.spec_status(),
    {
        match self {
            ServiceError::InternalServerError => 500,
            ServiceError::BadRequest(_) => 400,
            ServiceError::Unauthorized(_) => 401,
            ServiceError::Forbidden(_) => 403,
            ServiceError::NotFound(_) => 404,
            ServiceError::Conflict(_) => 400,
        }
    }

    pub fn error_message(&self) -> (r: String)
        ensures
            r@ == self.spec_message(),
    {
        match self {
            ServiceError::InternalServerError => String::from_str("Internal Server Error"),
            ServiceError::BadRequest(m) => m.clone(),
            ServiceError::Unauthorized(m) => m.clone(),
            ServiceError::Forbidden(m) => m.clone(),
            ServiceError::NotFound(m) => m.clone(),
            ServiceError::Conflict(m) => m.clone(),
        }
    }
}

/// Builds an error message from a literal.
pub fn msg(s: &str) -> (r: String)
    ensures
        r@ == s@,
{
    String::from_str(s)
}

} // verus!
