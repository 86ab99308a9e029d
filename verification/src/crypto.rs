use vstd::prelude::*;

use crate::base64url::is_b64_byte;
use rand::distr::SampleString;

verus! {

/// The URL-safe base64 text of the HMAC-SHA256 tag that jsonwebtoken's
/// `crypto::sign` computes for a message under a secret. A pure function of
/// the secret and the message.
pub uninterp spec fn hs256_sig(secret: Seq<u8>, message: Seq<u8>) -> Seq<u8>;

/// Relies on jsonwebtoken::crypto::sign with Algorithm::HS256: it MACs the
/// message with HMAC-SHA256 and returns the unpadded URL-safe base64 text of
/// the tag, so every byte of the result is in that alphabet.
#[verifier::external_body]
pub fn hmac_sha256_sign(secret: &Vec<u8>, message: &Vec<u8>) -> (r: Vec<u8>)
    ensures
        r@ == hs256_sig(secret@, message@),
        forall|i: int| 0 <= i < r@.len() ==> is_b64_byte(#[trigger] r@[i]),
{
    jsonwebtoken::crypto::sign(
        message.as_slice(),
        &jsonwebtoken::EncodingKey::from_secret(secret.as_slice()),
        jsonwebtoken::Algorithm::HS256,
    )
        .unwrap()
        .into_bytes()
}

/// Relies on jsonwebtoken::crypto::verify with Algorithm::HS256: it strictly
/// base64-decodes the signature text and compares the bytes with a recomputed
/// HMAC-SHA256 tag, so it accepts exactly the text that `crypto::sign` returns
/// for the same secret and message. Bytes outside that canonical text - a
/// decode failure, or no UTF-8 at all - are never the signature, and answer
/// `false`.
#[verifier::external_body]
pub fn hmac_sha256_verify(secret: &Vec<u8>, message: &Vec<u8>, signature: &Vec<u8>) -> (r: bool)
    ensures
        r == (signature@ == hs256_sig(secret@, message@)),
{
    let sig = core::str::from_utf8(signature.as_slice()).unwrap_or("");
    match jsonwebtoken::crypto::verify(
        sig,
        message.as_slice(),
        &jsonwebtoken::DecodingKey::from_secret(secret.as_slice()),
        jsonwebtoken::Algorithm::HS256,
    ) {
        Ok(b) => b,
        Err(_) => false,
    }
}

/// What bcrypt::verify answers for a password and a stored hash text:
/// `None` when the hash text is not a well-formed bcrypt hash, otherwise
/// `Some` of whether the password matches. A pure function of the two.
pub uninterp spec fn bcrypt_check(password: Seq<char>, hashed: Seq<char>) -> Option<bool>;

/// Relies on bcrypt::verify: it re-derives the hash from the password and the
/// salt and cost embedded in the hash text, and compares in constant time.
#[verifier::external_body]
pub fn bcrypt_verify(password: &String, hashed: &String) -> (r: Option<bool>)
    ensures
        r == bcrypt_check(password@, hashed@),
{
    bcrypt::verify(password.as_bytes(), hashed.as_str()).ok()
}

/// Relies on bcrypt::hash: it hashes the password with a freshly drawn random
/// salt and the given cost, and the produced text is a well-formed bcrypt hash
/// that bcrypt::verify accepts for the same password; the text is always
/// exactly 60 characters and begins `$2b$`. `None` only on an entropy-source
/// failure.
#[verifier::external_body]
pub fn bcrypt_hash(password: &String, cost: u32) -> (r: Option<String>)
    requires
        4 <= cost <= 31,
    ensures
        match r {
            Some(h) => {
                &&& bcrypt_check(password@, h@) == Some(true)
                &&& h@.len() == 60
                &&& h@[0] == '$'
                &&& h@[1] == '2'
                &&& h@[2] == 'b'
                &&& h@[3] == '$'
            },
            None => true,
        },
{
    bcrypt::hash(password.as_bytes(), cost).ok()
}

/// Relies on uuid::Uuid::new_v4: a freshly drawn random 128-bit identifier.
/// Nothing can be promised of its value.
#[verifier::external_body]
pub fn fresh_uuid() -> u128 {
    uuid::Uuid::new_v4().as_u128()
}

pub open spec fn is_alnum_char(c: char) -> bool {
    ('A' <= c <= 'Z') || ('a' <= c <= 'z') || ('0' <= c <= '9')
}

/// Relies on rand's Alphanumeric distribution with SampleString: `len` chars
/// drawn uniformly from ASCII letters and digits. Only the alphabet and the
/// length hold of every outcome.
#[verifier::external_body]
pub fn random_alnum_token(len: usize) -> (r: String)
    ensures
        r@.len() == len,
        forall|i: int| 0 <= i < r@.len() ==> is_alnum_char(#[trigger] r@[i]),
{
    rand::distr::Alphanumeric.sample_string(&mut rand::rng(), len)
}

} // verus!
