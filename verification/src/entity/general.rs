use vstd::prelude::*;

verus! {

/// Envelope for a payload returned to a caller.
#[derive(Clone, Debug)]
pub struct ObjectResponse<T> {
    pub data: T,
}

/// Envelope for a human-readable outcome message.
#[derive(Clone, Debug)]
pub struct MessageResponse<T> {
    pub message: T,
}

/// Envelope for an issued token.
#[derive(Clone, Debug)]
pub struct TokenResponse<T> {
    pub token: T,
}

} // verus!
