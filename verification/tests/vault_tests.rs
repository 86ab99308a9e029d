use auth_core::crypto::{fresh_uuid, random_alnum_token};
use auth_core::error::VaultError;
use auth_core::vault::{hash_password, hash_then_verify, verify_password};

#[test]
fn password_verifies_against_its_own_hash() {
    let p = String::from("Secret123!");
    let h = hash_password(&p, 4).unwrap();
    assert_eq!(verify_password(&p, &h), Ok(true));
}

#[test]
fn wrong_password_fails_verification() {
    let p = String::from("Secret123!");
    let h = hash_password(&p, 4).unwrap();
    let wrong = String::from("secret123!");
    assert_eq!(verify_password(&wrong, &h), Ok(false));
    let empty = String::from("");
    assert_eq!(verify_password(&empty, &h), Ok(false));
}

#[test]
fn two_hashes_of_one_password_differ_but_both_verify() {
    let p = String::from("Secret123!");
    let h1 = hash_password(&p, 4).unwrap();
    let h2 = hash_password(&p, 4).unwrap();
    // Fresh random salts make the texts differ.
    assert_ne!(h1, h2);
    assert_eq!(verify_password(&p, &h1), Ok(true));
    assert_eq!(verify_password(&p, &h2), Ok(true));
}

#[test]
fn malformed_hash_is_reported() {
    let p = String::from("Secret123!");
    let junk = String::from("not-a-hash");
    assert_eq!(verify_password(&p, &junk), Err(VaultError::MalformedHashError));
}

#[test]
fn hash_then_verify_law_holds_at_runtime() {
    let p = String::from("pw");
    assert_eq!(hash_then_verify(&p, 4), Ok(true));
}

#[test]
fn hash_is_not_the_plaintext() {
    let p = String::from("Secret123!");
    let h = hash_password(&p, 4).unwrap();
    assert_ne!(h, p);
    assert_eq!(h.len(), 60);
    assert!(h.starts_with("$2b$"));
}

#[test]
fn random_token_has_length_and_alphabet() {
    let t = random_alnum_token(10);
    assert_eq!(t.len(), 10);
    assert!(t.chars().all(|c| c.is_ascii_alphanumeric()));
    let t2 = random_alnum_token(10);
    let t3 = random_alnum_token(0);
    assert_eq!(t3.len(), 0);
    // Two 10-character random draws colliding would be astonishing.
    assert_ne!(t, t2);
}

#[test]
fn fresh_uuid_is_version_four() {
    let a = fresh_uuid();
    let b = fresh_uuid();
    assert_ne!(a, b);
    assert_eq!((a >> 76) & 0xf, 4);
}
