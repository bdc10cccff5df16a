//! The error type shared by every request handler, with its HTTP status
//! mapping and its user-visible rendering.

use vstd::prelude::*;
use vstd::string::StringExecFns;

verus! {

/// A failure of one request or one configuration step.
///
/// `Unauthorized` answers a missing or wrong credential, `BadRequest` a
/// malformed or escaping input; everything else is a server-side failure.
#[derive(Debug)]
pub enum AppError {
    /// The configuration could not be used.
    Config(String),
    /// A filesystem or PTY operation failed; the payload is the
    /// operating system's rendering of the failure.
    Io(String),
    /// The configuration file could not be parsed.
    Toml(String),
    /// No valid session, or a wrong password.
    Unauthorized,
    /// The request itself is invalid; the payload says why.
    BadRequest(String),
    /// An internal invariant failed.
    Internal(String),
    /// The scientific-data preview failed.
    Hdf5(String),
}

impl AppError {
    /// The HTTP status code this error answers with: 401 for a failed
    /// credential, 400 for an invalid request, 500 for everything else.
    pub fn status_code(&self) -> (r: u16)
        ensures
            self is Unauthorized ==> r == 401,
            self is BadRequest ==> r == 400,
            !(self is Unauthorized) && !(self is BadRequest) ==> r == 500,
    {
        match self {
            AppError::Unauthorized => 401,
            AppError::BadRequest(_) => 400,
            AppError::Config(_) => 500,
            AppError::Io(_) => 500,
            AppError::Toml(_) => 500,
            AppError::Internal(_) => 500,
            AppError::Hdf5(_) => 500,
        }
    }

    /// The message rendered for this error, as one category prefix
    /// followed by the detail carried in the variant.
    pub open spec fn spec_message(&self) -> Seq<char> {
        match self {
            AppError::Config(m) => "config error: "@ + m@,
            AppError::Io(m) => "io error: "@ + m@,
            AppError::Toml(m) => "toml parse error: "@ + m@,
            AppError::Unauthorized => "unauthorized"@,
            AppError::BadRequest(m) => "bad request: "@ + m@,
            AppError::Internal(m) => "internal error: "@ + m@,
            AppError::Hdf5(m) => "hdf5 error: "@ + m@,
        }
    }

    /// The HTTP answer this error produces: its status code and the JSON
    /// error body carrying its message.
    pub fn response_parts(&self) -> (r: (u16, String))
        ensures
            self is Unauthorized ==> r.0 == 401,
            self is BadRequest ==> r.0 == 400,
            !(self is Unauthorized) && !(self is BadRequest) ==> r.0 == 500,
            r.1@ == crate::jsonfmt::spec_error_body_json(self.spec_message()),
    {
        let status = self.status_code();
        let msg = self.message();
        let body = crate::jsonfmt::error_body_json(msg.as_str());
        (status, crate::text::chars_to_string(&body))
    }

    /// Render the user-visible message of this error.
    pub fn message(&self) -> (r: String)
        ensures
            r@ == self.spec_message(),
    {
        match self {
            AppError::Config(m) => String::from_str("config error: ").concat(m.as_str()),
            AppError::Io(m) => String::from_str("io error: ").concat(m.as_str()),
            AppError::Toml(m) => String::from_str("toml parse error: ").concat(m.as_str()),
            AppError::Unauthorized => String::from_str("unauthorized"),
            AppError::BadRequest(m) => String::from_str("bad request: ").concat(m.as_str()),
            AppError::Internal(m) => String::from_str("internal error: ").concat(m.as_str()),
            AppError::Hdf5(m) => String::from_str("hdf5 error: ").concat(m.as_str()),
        }
    }
}

} // verus!
