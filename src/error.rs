use vstd::prelude::*;

verus! {

/// Why an identity was not accepted.
#[derive(Clone, Copy, Debug, PartialEq, Eq, Structural)]
pub enum AuthError {
    InvalidCredentials,
    InvalidToken,
    MissingCredentials,
    TokenCreation,
    ExpiredToken,
}

/// The error kinds that the forum operations report.
#[derive(Clone, Copy, Debug, PartialEq, Eq, Structural)]
pub enum AppError {
    /// A missing, invalid or expired identity.
    Auth(AuthError),
    /// A referenced user, topic or tag does not exist.
    NotFound,
    /// The identity is valid but does not own the resource.
    Forbidden,
    /// A unique key (id, username, email) is already taken.
    Duplicate,
    /// Malformed input: an empty required field or tag name.
    Invalid,
    /// The store could not complete the operation.
    Internal,
}

pub open spec fn auth_status(e: AuthError) -> u16 {
    match e {
        AuthError::TokenCreation => 500,
        _ => 401,
    }
}

pub open spec fn app_status(e: AppError) -> u16 {
    match e {
        AppError::Auth(a) => auth_status(a),
        AppError::NotFound => 404,
        AppError::Forbidden => 403,
        AppError::Duplicate => 409,
        AppError::Invalid => 422,
        AppError::Internal => 500,
    }
}

pub open spec fn auth_text(e: AuthError) -> Seq<char> {
    match e {
        AuthError::InvalidCredentials => "Invalid credentials."@,
        AuthError::InvalidToken => "Invalid token."@,
        AuthError::MissingCredentials => "Missing credentials."@,
        AuthError::TokenCreation => "Token creation error."@,
        AuthError::ExpiredToken => "Expired token."@,
    }
}

pub open spec fn app_text(e: AppError) -> Seq<char> {
    match e {
        AppError::Auth(a) => auth_text(a),
        AppError::NotFound => "Not found."@,
        AppError::Forbidden => "Forbidden."@,
        AppError::Duplicate => "Duplicate entry."@,
        AppError::Invalid => "Invalid input."@,
        AppError::Internal => "Something went wrong."@,
    }
}

impl AuthError {
    /// The HTTP status under which this error is reported.
    pub fn status_code(&self) -> (r: u16)
        ensures
            r == auth_status(*self),
    {
        match self {
            AuthError::TokenCreation => 500,
            _ => 401,
        }
    }

    /// The message shown to the client.
    pub fn message(&self) -> (r: &'static str)
        ensures
            r@ == auth_text(*self),
    {
        match self {
            AuthError::InvalidCredentials => "Invalid credentials.",
            AuthError::InvalidToken => "Invalid token.",
            AuthError::MissingCredentials => "Missing credentials.",
            AuthError::TokenCreation => "Token creation error.",
            AuthError::ExpiredToken => "Expired token.",
        }
    }
}

impl AppError {
    /// The HTTP status under which this error is reported.
    pub fn status_code(&self) -> (r: u16)
        ensures
            r == app_status(*self),
    {
        match self {
            AppError::Auth(a) => a.status_code(),
            AppError::NotFound => 404,
            AppError::Forbidden => 403,
            AppError::Duplicate => 409,
            AppError::Invalid => 422,
            AppError::Internal => 500,
        }
    }

    /// The message shown to the client.
    pub fn message(&self) -> (r: &'static str)
        ensures
            r@ == app_text(*self),
    {
        match self {
            AppError::Auth(a) => a.message(),
            AppError::NotFound => "Not found.",
            AppError::Forbidden => "Forbidden.",
            AppError::Duplicate => "Duplicate entry.",
            AppError::Invalid => "Invalid input.",
            AppError::Internal => "Something went wrong.",
        }
    }
}

impl From<AuthError> for AppError {
    fn from(e: AuthError) -> (r: AppError)
        ensures
            r == AppError::Auth(e),
    {
        AppError::Auth(e)
    }
}

impl vstd::std_specs::convert::FromSpecImpl<AuthError> for AppError {
    open spec fn obeys_from_spec() -> bool {
        true
    }

    open spec fn from_spec(e: AuthError) -> AppError {
        AppError::Auth(e)
    }
}

} // verus!
