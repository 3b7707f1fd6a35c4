use vstd::prelude::*;

verus! {

/// Every way a request can fail.
#[derive(Debug, Clone, Copy, PartialEq, Eq, Structural)]
pub enum APIError {
    InternalError,
    BadRequestData,
    Timeout,
    Auth,
    PayloadSize,
    MimeType,
    TagLimit,
    BadTags,
    PageSize,
    UserExists,
    BadPassword,
    BadCredentials,
}

impl APIError {
    /// The HTTP status of each error.
    pub open spec fn status(self) -> u16 {
        match self {
            APIError::InternalError => 500,
            APIError::Timeout => 504,
            APIError::Auth => 401,
            APIError::PayloadSize => 413,
            APIError::MimeType => 415,
            _ => 400,
        }
    }

    /// The body sent with each error: a JSON object with the one key `error`.
    pub open spec fn body(self) -> Seq<char> {
        match self {
            APIError::InternalError => "{\"error\":\"internal server error\"}"@,
            APIError::BadRequestData => "{\"error\":\"bad request\"}"@,
            APIError::Timeout => "{\"error\":\"timeout\"}"@,
            APIError::Auth => "{\"error\":\"unauthorised\"}"@,
            APIError::PayloadSize => "{\"error\":\"payload to large\"}"@,
            APIError::MimeType => "{\"error\":\"unsupported mime type\"}"@,
            APIError::TagLimit => "{\"error\":\"too many tags, please reduce amount\"}"@,
            APIError::BadTags => "{\"error\":\"one or more tags contained invalid characters\"}"@,
            APIError::PageSize => "{\"error\":\"too many items per page, please reduce amount\"}"@,
            APIError::UserExists => "{\"error\":\"account details have already been used\"}"@,
            APIError::BadPassword => "{\"error\":\"password is too weak\"}"@,
            APIError::BadCredentials => "{\"error\":\"password or username where not correct\"}"@,
        }
    }

    pub fn status_code(&self) -> (code: u16)
        ensures
            code == self.status(),
            400 <= code < 600,
    {
        match self {
            APIError::InternalError => 500,
            APIError::BadRequestData => 400,
            APIError::Timeout => 504,
            APIError::Auth => 401,
            APIError::PayloadSize => 413,
            APIError::MimeType => 415,
            APIError::TagLimit => 400,
            APIError::BadTags => 400,
            APIError::PageSize => 400,
            APIError::UserExists => 400,
            APIError::BadPassword => 400,
            APIError::BadCredentials => 400,
        }
    }

    /// The response body for this error.
    pub fn message(&self) -> (s: &'static str)
        ensures
            s@ == self.body(),
    {
        match self {
            APIError::InternalError => "{\"error\":\"internal server error\"}",
            APIError::BadRequestData => "{\"error\":\"bad request\"}",
            APIError::Timeout => "{\"error\":\"timeout\"}",
            APIError::Auth => "{\"error\":\"unauthorised\"}",
            APIError::PayloadSize => "{\"error\":\"payload to large\"}",
            APIError::MimeType => "{\"error\":\"unsupported mime type\"}",
            APIError::TagLimit => "{\"error\":\"too many tags, please reduce amount\"}",
            APIError::BadTags => "{\"error\":\"one or more tags contained invalid characters\"}",
            APIError::PageSize => "{\"error\":\"too many items per page, please reduce amount\"}",
            APIError::UserExists => "{\"error\":\"account details have already been used\"}",
            APIError::BadPassword => "{\"error\":\"password is too weak\"}",
            APIError::BadCredentials => "{\"error\":\"password or username where not correct\"}",
        }
    }
}

} // verus!
