use auth_core::auth::{
    claims_to_json, decode_token, get_auth_from_header, parse_claims_bytes, Claims, TokenConfig,
};
use auth_core::base64url::{b64_decode_bytes, b64_encode_bytes};
use auth_core::error::{MyError, TokenError};
use auth_core::numeral::u128_to_dec;

fn test_config() -> TokenConfig {
    TokenConfig {
        access_secret: b"access-secret".to_vec(),
        refresh_secret: b"refresh-secret".to_vec(),
        access_ttl: 30,
        refresh_ttl: 604800,
    }
}

#[test]
fn access_token_round_trip_at_issuance() {
    let cfg = test_config();
    let now: u64 = 1_700_000_000;
    let tok = cfg.generate_access_token(42, now);
    assert_eq!(cfg.decode_access_token(&tok, now), Ok(42));
}

#[test]
fn access_token_expires_after_ttl() {
    let cfg = test_config();
    let now: u64 = 1_700_000_000;
    let tok = cfg.generate_access_token(42, now);
    assert_eq!(cfg.decode_access_token(&tok, now + 29), Ok(42));
    assert_eq!(
        cfg.decode_access_token(&tok, now + 30),
        Err(TokenError::TokenExpired)
    );
    assert_eq!(
        cfg.decode_access_token(&tok, now + 1000),
        Err(TokenError::TokenExpired)
    );
}

#[test]
fn refresh_token_round_trip() {
    let cfg = test_config();
    let now: u64 = 1_700_000_000;
    let tok = cfg.generate_refresh_token(7, now);
    assert_eq!(cfg.decode_refresh_token(&tok, now + 604799), Ok(7));
    assert_eq!(
        cfg.decode_refresh_token(&tok, now + 604800),
        Err(TokenError::TokenExpired)
    );
}

#[test]
fn namespace_separation_rejects_cross_use() {
    let cfg = test_config();
    let now: u64 = 1_700_000_000;
    let refresh = cfg.generate_refresh_token(42, now);
    let access = cfg.generate_access_token(42, now);
    assert_eq!(
        cfg.decode_access_token(&refresh, now),
        Err(TokenError::TokenInvalidSignature)
    );
    assert_eq!(
        cfg.decode_refresh_token(&access, now),
        Err(TokenError::TokenInvalidSignature)
    );
}

#[test]
fn tampered_token_is_rejected() {
    let cfg = test_config();
    let now: u64 = 1_700_000_000;
    let mut tok = cfg.generate_access_token(42, now);
    // Flip one byte of the signature part.
    let n = tok.len();
    let last = tok[n - 1];
    tok[n - 1] = if last == b'A' { b'B' } else { b'A' };
    assert_eq!(
        cfg.decode_access_token(&tok, now),
        Err(TokenError::TokenInvalidSignature)
    );
}

#[test]
fn garbage_tokens_are_malformed() {
    let cfg = test_config();
    let now: u64 = 1_700_000_000;
    assert_eq!(
        cfg.decode_access_token(&b"".to_vec(), now),
        Err(TokenError::TokenMalformed)
    );
    assert_eq!(
        cfg.decode_access_token(&b"abc".to_vec(), now),
        Err(TokenError::TokenMalformed)
    );
    assert_eq!(
        cfg.decode_access_token(&b"a.b".to_vec(), now),
        Err(TokenError::TokenMalformed)
    );
    assert_eq!(
        cfg.decode_access_token(&b"a.b.c.d".to_vec(), now),
        Err(TokenError::TokenMalformed)
    );
}

#[test]
fn jsonwebtoken_accepts_issued_token() {
    let cfg = test_config();
    let now: u64 = 1_700_000_000;
    let tok = cfg.generate_access_token(42, now);
    let s = String::from_utf8(tok).unwrap();
    let mut validation = jsonwebtoken::Validation::new(jsonwebtoken::Algorithm::HS256);
    validation.validate_exp = false;
    validation.set_required_spec_claims::<&str>(&[]);
    let data = jsonwebtoken::decode::<serde_json::Value>(
        &s,
        &jsonwebtoken::DecodingKey::from_secret(b"access-secret"),
        &validation,
    )
    .unwrap();
    assert_eq!(data.claims.get("user_id").unwrap().as_str().unwrap(), "42");
    assert_eq!(
        data.claims.get("iat").unwrap().as_u64().unwrap(),
        1_700_000_000
    );
    assert_eq!(
        data.claims.get("exp").unwrap().as_u64().unwrap(),
        1_700_000_030
    );
}

#[test]
fn jsonwebtoken_rejects_issued_token_under_other_secret() {
    let cfg = test_config();
    let now: u64 = 1_700_000_000;
    let tok = cfg.generate_access_token(42, now);
    let s = String::from_utf8(tok).unwrap();
    let mut validation = jsonwebtoken::Validation::new(jsonwebtoken::Algorithm::HS256);
    validation.validate_exp = false;
    validation.set_required_spec_claims::<&str>(&[]);
    let outcome = jsonwebtoken::decode::<serde_json::Value>(
        &s,
        &jsonwebtoken::DecodingKey::from_secret(b"refresh-secret"),
        &validation,
    );
    assert!(outcome.is_err());
}

#[test]
fn direct_decode_token_checks_signature() {
    let cfg = test_config();
    let now: u64 = 1_700_000_000;
    let tok = cfg.generate_access_token(9, now);
    assert_eq!(decode_token(&tok, &b"access-secret".to_vec(), now), Ok(9));
    assert_eq!(
        decode_token(&tok, &b"another-secret".to_vec(), now),
        Err(TokenError::TokenInvalidSignature)
    );
}

#[test]
fn claims_json_round_trip() {
    let c = Claims {
        user_id: 340282366920938463463374607431768211455,
        exp: 2000,
        iat: 1000,
    };
    let bytes = claims_to_json(&c);
    assert_eq!(
        String::from_utf8(bytes.clone()).unwrap(),
        "{\"user_id\":\"340282366920938463463374607431768211455\",\"exp\":2000,\"iat\":1000}"
    );
    let parsed = parse_claims_bytes(&bytes).unwrap();
    assert_eq!(parsed, c);
}

#[test]
fn claims_parser_rejects_overflow_and_shape() {
    // One digit more than the largest 128-bit value can have.
    let big = b"{\"user_id\":\"3402823669209384634633746074317682114550\",\"exp\":1,\"iat\":1}";
    assert_eq!(parse_claims_bytes(&big.to_vec()), None);
    assert_eq!(parse_claims_bytes(&b"{}".to_vec()), None);
    assert_eq!(
        parse_claims_bytes(&b"{\"user_id\":\"1\",\"iat\":1,\"exp\":1}".to_vec()),
        None
    );
    assert_eq!(
        parse_claims_bytes(&b"{\"user_id\":\"\",\"exp\":1,\"iat\":1}".to_vec()),
        None
    );
}

#[test]
fn base64url_known_vectors() {
    assert_eq!(b64_encode_bytes(&b"".to_vec()), b"".to_vec());
    assert_eq!(b64_encode_bytes(&b"f".to_vec()), b"Zg".to_vec());
    assert_eq!(b64_encode_bytes(&b"fo".to_vec()), b"Zm8".to_vec());
    assert_eq!(b64_encode_bytes(&b"foo".to_vec()), b"Zm9v".to_vec());
    assert_eq!(b64_encode_bytes(&b"foob".to_vec()), b"Zm9vYg".to_vec());
    assert_eq!(b64_encode_bytes(&vec![0xfb, 0xef]), b"--8".to_vec());
    assert_eq!(b64_encode_bytes(&vec![0xff, 0xff, 0xfe]), b"___-".to_vec());
}

#[test]
fn base64url_decode_round_trip() {
    let inputs: Vec<Vec<u8>> = vec![
        b"".to_vec(),
        b"a".to_vec(),
        b"ab".to_vec(),
        b"abc".to_vec(),
        b"abcd".to_vec(),
        vec![0, 1, 2, 3, 4, 255, 254, 128],
    ];
    for v in inputs {
        let e = b64_encode_bytes(&v);
        assert_eq!(b64_decode_bytes(&e), Some(v));
    }
    assert_eq!(b64_decode_bytes(&b"A".to_vec()), None);
    assert_eq!(b64_decode_bytes(&b"A&".to_vec()), None);
}

#[test]
fn decimal_digits_vectors() {
    assert_eq!(u128_to_dec(0), b"0".to_vec());
    assert_eq!(u128_to_dec(7), b"7".to_vec());
    assert_eq!(u128_to_dec(1234567890), b"1234567890".to_vec());
    assert_eq!(
        u128_to_dec(u128::MAX),
        b"340282366920938463463374607431768211455".to_vec()
    );
}

#[test]
fn bearer_header_parsing() {
    assert_eq!(
        get_auth_from_header(&b"Bearer abc123".to_vec()),
        Ok(b"abc123".to_vec())
    );
    assert_eq!(
        get_auth_from_header(&b"bearer abc123".to_vec()),
        Ok(b"abc123".to_vec())
    );
    assert_eq!(
        get_auth_from_header(&b"BEARER  abc123".to_vec()),
        Ok(b"abc123".to_vec())
    );
    assert_eq!(
        get_auth_from_header(&b"  Bearer abc123 extra".to_vec()),
        Ok(b"abc123".to_vec())
    );
    assert_eq!(
        get_auth_from_header(&b"Basic abc123".to_vec()),
        Err(MyError::AuthenticationError)
    );
    assert_eq!(
        get_auth_from_header(&b"Bearer".to_vec()),
        Err(MyError::AuthenticationError)
    );
    assert_eq!(
        get_auth_from_header(&b"".to_vec()),
        Err(MyError::AuthenticationError)
    );
}
