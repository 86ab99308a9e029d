use vstd::prelude::*;

verus! {

/// The boundary error taxonomy: each variant maps to one HTTP status.
#[derive(Clone, Copy, Debug, PartialEq, Eq, Structural)]
pub enum MyError {
    /// Malformed or mismatched client input.
    ValidationError,
    /// Bad credentials, or a missing, invalid or expired token.
    AuthenticationError,
    /// Unknown user, session or reset token.
    NotFoundError,
    /// A persistence failure.
    StorageError,
    /// A collaborator failure that does not fail the request.
    DependencyError,
}

impl MyError {
    pub open spec fn status_code_spec(self) -> u16 {
        match self {
            MyError::ValidationError => 400,
            MyError::AuthenticationError => 401,
            MyError::NotFoundError => 404,
            MyError::StorageError => 500,
            MyError::DependencyError => 500,
        }
    }

    /// The HTTP status this error maps to at the boundary.
    pub fn status_code(&self) -> (r: u16)
        ensures
            r == self.status_code_spec(),
    {
        match self {
            MyError::ValidationError => 400,
            MyError::AuthenticationError => 401,
            MyError::NotFoundError => 404,
            MyError::StorageError => 500,
            MyError::DependencyError => 500,
        }
    }
}

/// Failures of token validation.
#[derive(Clone, Copy, Debug, PartialEq, Eq, Structural)]
pub enum TokenError {
    /// The token's embedded expiry has passed.
    TokenExpired,
    /// The signature does not verify under the expected secret.
    TokenInvalidSignature,
    /// The token's structure cannot be parsed.
    TokenMalformed,
}

/// Failures of password hashing and checking.
#[derive(Clone, Copy, Debug, PartialEq, Eq, Structural)]
pub enum VaultError {
    /// Catastrophic failure while producing a salted hash.
    HashingError,
    /// The stored hash is not in the expected format.
    MalformedHashError,
}

/// Failures of session lookup.
#[derive(Clone, Copy, Debug, PartialEq, Eq, Structural)]
pub enum SessionError {
    /// No live record for the `(token, user)` pair.
    SessionNotFound,
    /// The record exists but its authoritative expiry has passed.
    SessionExpired,
}

/// Failures of recovery-token consumption.
#[derive(Clone, Copy, Debug, PartialEq, Eq, Structural)]
pub enum RecoveryError {
    /// No record holds this reset token.
    ResetTokenNotFound,
}

} // verus!
