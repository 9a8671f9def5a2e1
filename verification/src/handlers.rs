//! The decisions of the account endpoints: what a signup or login request is
//! answered, and how an auth error is reported. The HTTP plumbing and the
//! storage calls live in the server program.

use vstd::prelude::*;
use vstd::string::StringExecFns;
use vstd::string::StringSliceAdditionalSpecFns;
use vstd::utf8::encode_utf8;
use crate::auth::{
    argon2_verifies, email_problem, is_invalid_input, password_problem, username_problem,
    validate_email, validate_password, validate_username, validation_result, verify_password,
    AuthError,
};
use crate::db::StorageError;

verus! {

#[derive(Debug)]
pub struct SignupRequest {
    pub username: String,
    pub email: String,
    pub password: String,
}

#[derive(Debug)]
pub struct LoginRequest {
    /// Username OR email.
    pub identifier: String,
    pub password: String,
}

#[derive(Debug)]
pub struct PasswordResetRequest {
    pub email: String,
}

#[derive(Debug)]
pub struct PasswordResetConfirm {
    pub token: String,
    pub password: String,
}

impl vstd::std_specs::convert::FromSpecImpl<StorageError> for AuthError {
    open spec fn obeys_from_spec() -> bool {
        true
    }

    open spec fn from_spec(v: StorageError) -> AuthError {
        AuthError::Storage(v)
    }
}

impl From<StorageError> for AuthError {
    fn from(e: StorageError) -> (r: Self) {
        AuthError::Storage(e)
    }
}

/// A uniqueness conflict in storage is reported as a conflict on the same
/// field; any other storage error is passed on.
pub fn map_storage_conflict(e: StorageError) -> (r: AuthError)
    ensures
        match e {
            StorageError::Conflict(f) => r == AuthError::Conflict(f),
            _ => r == AuthError::Storage(e),
        },
{
    match e {
        StorageError::Conflict(field) => AuthError::Conflict(field),
        other => AuthError::Storage(other),
    }
}

/// Checks a signup request: username, then email, then password; the first
/// failure is the answer.
pub fn validate_signup(req: &SignupRequest) -> (res: Result<(), AuthError>)
    ensures
        match username_problem(encode_utf8(req.username@)) {
            Some(r) => is_invalid_input(res, "username"@, r),
            None => match email_problem(req.email@) {
                Some(r) => is_invalid_input(res, "email"@, r),
                None => validation_result(
                    res,
                    "password"@,
                    password_problem(encode_utf8(req.password@)),
                ),
            },
        },
{
    let r = validate_username(req.username.as_str());
    if r.is_err() {
        return r;
    }
    let r = validate_email(req.email.as_str());
    if r.is_err() {
        return r;
    }
    validate_password(req.password.as_str())
}

/// The answer to a password login for an account found by its identifier:
/// accounts without a password (OAuth-only) and wrong passwords are refused
/// alike; an unverified email is refused when verification is required.
pub fn check_login(
    password: &str,
    stored_hash: Option<&str>,
    email_verified: bool,
    require_email_verification: bool,
) -> (res: Result<(), AuthError>)
    ensures
        match stored_hash {
            None => res matches Err(AuthError::InvalidCredentials),
            Some(h) => if !argon2_verifies(password.spec_bytes(), h@) {
                res matches Err(AuthError::InvalidCredentials)
            } else if require_email_verification && !email_verified {
                is_invalid_input(res, "email"@, "not verified — check your inbox"@)
            } else {
                res is Ok
            },
        },
{
    let hash = match stored_hash {
        Some(h) => h,
        // OAuth-only account; password login isn't valid for this user.
        None => return Err(AuthError::InvalidCredentials),
    };
    if !verify_password(password, hash) {
        return Err(AuthError::InvalidCredentials);
    }
    if require_email_verification && !email_verified {
        return Err(
            AuthError::InvalidInput { field: "email", reason: "not verified — check your inbox" },
        );
    }
    Ok(())
}

/// The HTTP status, error code and message that an auth error is answered with.
pub open spec fn auth_error_parts(e: AuthError) -> (int, Seq<char>, Seq<char>) {
    match e {
        AuthError::InvalidCredentials => (401, "invalid_credentials"@, "invalid credentials"@),
        AuthError::InvalidInput { field, reason } => (
            400,
            "invalid_input"@,
            field@ + ": "@ + reason@,
        ),
        AuthError::Conflict(field) => (409, "conflict"@, field@ + " already in use"@),
        AuthError::NotAuthenticated => (401, "not_authenticated"@, "not authenticated"@),
        AuthError::Storage(_) => (500, "internal"@, "internal error"@),
        AuthError::Internal => (500, "internal"@, "internal error"@),
    }
}

impl AuthError {
    /// Status, error code and message of the response to this error; error
    /// bodies are kept small and generic.
    pub fn response_parts(&self) -> (r: (u16, &'static str, String))
        ensures
            auth_error_parts(*self) == (r.0 as int, r.1@, r.2@),
    {
        match self {
            AuthError::InvalidCredentials => (
                401,
                "invalid_credentials",
                String::from_str("invalid credentials"),
            ),
            AuthError::InvalidInput { field, reason } => {
                let mut m = String::from_str(field);
                m.append(": ");
                m.append(reason);
                (400, "invalid_input", m)
            },
            AuthError::Conflict(field) => {
                let mut m = String::from_str(field);
                m.append(" already in use");
                (409, "conflict", m)
            },
            AuthError::NotAuthenticated => (
                401,
                "not_authenticated",
                String::from_str("not authenticated"),
            ),
            AuthError::Storage(_) => (500, "internal", String::from_str("internal error")),
            AuthError::Internal => (500, "internal", String::from_str("internal error")),
        }
    }
}

} // verus!
