//! The application's error taxonomy and how each member renders to a
//! status code, a message and an optional detail.

use vstd::prelude::*;
use vstd::string::StringExecFns;

verus! {

/// A serialized error body.
pub struct ErrorResponse {
    pub code: u16,
    pub message: String,
    pub details: Option<String>,
}

/// Model of an error body.
#[verifier::ext_equal]
pub struct ErrorResponseView {
    pub code: int,
    pub message: Seq<char>,
    pub details: Option<Seq<char>>,
}

impl View for ErrorResponse {
    type V = ErrorResponseView;

    open spec fn view(&self) -> ErrorResponseView {
        ErrorResponseView {
            code: self.code as int,
            message: self.message@,
            details: match self.details {
                Some(d) => Some(d@),
                None => None,
            },
        }
    }
}

/// The generalized error kinds of the application.
pub enum AppError {
    DatabaseError(String),
    EnvVarError(String),
    Unauthorized,
    Forbidden,
    BadRequest(String),
    NotFound(String),
    InternalServerError(String),
}

/// The one-line description of an error.
pub open spec fn message_spec(e: &AppError) -> Seq<char> {
    match e {
        AppError::DatabaseError(m) => "Database error: "@ + m@,
        AppError::EnvVarError(m) => "Environment variable error: "@ + m@,
        AppError::Unauthorized => "Unauthorized"@,
        AppError::Forbidden => "Forbidden"@,
        AppError::BadRequest(m) => "Bad request: "@ + m@,
        AppError::NotFound(m) => "Not found: "@ + m@,
        AppError::InternalServerError(m) => "Internal server error: "@ + m@,
    }
}

/// The body an error renders to: its status code, a generic message,
/// and the detail text for the kinds that carry one.
pub open spec fn response_parts_spec(e: &AppError) -> ErrorResponseView {
    match e {
        AppError::DatabaseError(m) => ErrorResponseView {
            code: 500,
            message: "Database connection error"@,
            details: Some(m@),
        },
        AppError::EnvVarError(m) => ErrorResponseView {
            code: 500,
            message: "Environment variable error"@,
            details: Some(m@),
        },
        AppError::Unauthorized => ErrorResponseView {
            code: 401,
            message: "Unauthorized"@,
            details: None,
        },
        AppError::Forbidden => ErrorResponseView {
            code: 403,
            message: "Forbidden"@,
            details: None,
        },
        AppError::BadRequest(m) => ErrorResponseView {
            code: 400,
            message: "Bad request"@,
            details: Some(m@),
        },
        AppError::NotFound(m) => ErrorResponseView {
            code: 404,
            message: m@ + " not found"@,
            details: None,
        },
        AppError::InternalServerError(m) => ErrorResponseView {
            code: 500,
            message: "Internal server error"@,
            details: Some(m@),
        },
    }
}

impl AppError {
    /// The one-line description, as `message_spec` says.
    pub fn message(&self) -> (r: String)
        ensures
            r@ == message_spec(self),
    {
        match self {
            AppError::DatabaseError(m) => "Database error: ".to_owned().concat(m.as_str()),
            AppError::EnvVarError(m) => "Environment variable error: ".to_owned().concat(
                m.as_str(),
            ),
            AppError::Unauthorized => "Unauthorized".to_owned(),
            AppError::Forbidden => "Forbidden".to_owned(),
            AppError::BadRequest(m) => "Bad request: ".to_owned().concat(m.as_str()),
            AppError::NotFound(m) => "Not found: ".to_owned().concat(m.as_str()),
            AppError::InternalServerError(m) => "Internal server error: ".to_owned().concat(
                m.as_str(),
            ),
        }
    }

    /// The serialized body, as `response_parts_spec` says.
    pub fn response_parts(&self) -> (r: ErrorResponse)
        ensures
            r@ == response_parts_spec(self),
    {
        let r = match self {
            AppError::DatabaseError(m) => ErrorResponse {
                code: 500,
                message: "Database connection error".to_owned(),
                details: Some(m.clone()),
            },
            AppError::EnvVarError(m) => ErrorResponse {
                code: 500,
                message: "Environment variable error".to_owned(),
                details: Some(m.clone()),
            },
            AppError::Unauthorized => ErrorResponse {
                code: 401,
                message: "Unauthorized".to_owned(),
                details: None,
            },
            AppError::Forbidden => ErrorResponse {
                code: 403,
                message: "Forbidden".to_owned(),
                details: None,
            },
            AppError::BadRequest(m) => ErrorResponse {
                code: 400,
                message: "Bad request".to_owned(),
                details: Some(m.clone()),
            },
            AppError::NotFound(m) => ErrorResponse {
                code: 404,
                message: m.clone().concat(" not found"),
                details: None,
            },
            AppError::InternalServerError(m) => ErrorResponse {
                code: 500,
                message: "Internal server error".to_owned(),
                details: Some(m.clone()),
            },
        };
        proof {
            assert(r@ =~= response_parts_spec(self));
        }
        r
    }
}

} // verus!
