use vstd::prelude::*;

use crate::crypto::{bcrypt_check, bcrypt_hash, bcrypt_verify};
use crate::error::VaultError;

verus! {

/// The default cost factor for the password hash.
pub const DEFAULT_COST: u32 = 12;

/// Hashes a plaintext password with a salted, adaptive one-way function.
/// On success the produced hash verifies against the same plaintext and is a
/// 60-character text beginning `$2b$`; the only failure is a catastrophic
/// entropy failure.
pub fn hash_password(plaintext: &String, cost: u32) -> (r: Result<String, VaultError>)
    requires
        4 <= cost <= 31,
    ensures
        match r {
            Ok(h) => {
                &&& bcrypt_check(plaintext@, h@) == Some(true)
                &&& h@.len() == 60
                &&& h@[0] == '$'
                &&& h@[1] == '2'
                &&& h@[2] == 'b'
                &&& h@[3] == '$'
            },
            Err(e) => e == VaultError::HashingError,
        },
{
    match bcrypt_hash(plaintext, cost) {
        Some(h) => Ok(h),
        None => Err(VaultError::HashingError),
    }
}

/// Checks a plaintext against a stored hash: exactly what the hash algorithm
/// answers, or the malformed-hash failure when the stored text is not a
/// well-formed hash.
pub fn verify_password(plaintext: &String, hashed: &String) -> (r: Result<bool, VaultError>)
    ensures
        r == match bcrypt_check(plaintext@, hashed@) {
            Some(b) => Ok::<bool, VaultError>(b),
            None => Err::<bool, VaultError>(VaultError::MalformedHashError),
        },
{
    match bcrypt_verify(plaintext, hashed) {
        Some(b) => Ok(b),
        None => Err(VaultError::MalformedHashError),
    }
}

/// The hash-then-verify law: a hash freshly produced from a password always
/// verifies against that password; only the entropy failure is possible.
pub fn hash_then_verify(plaintext: &String, cost: u32) -> (r: Result<bool, VaultError>)
    requires
        4 <= cost <= 31,
    ensures
        match r {
            Ok(b) => b == true,
            Err(e) => e == VaultError::HashingError,
        },
{
    let h = match hash_password(plaintext, cost) {
        Ok(h) => h,
        Err(e) => {
            return Err(e);
        },
    };
    let v = verify_password(plaintext, &h);
    proof {
        assert(v == Ok::<bool, VaultError>(true));
    }
    v
}

} // verus!
