use vstd::prelude::*;

use crate::base64url::{
    b64_decode, b64_decode_bytes, b64_encode, b64_encode_bytes, is_b64_byte, lemma_b64_roundtrip,
    lemma_encode_is_b64,
};
use crate::bytes_eq;
use crate::crypto::{hmac_sha256_sign, hmac_sha256_verify, hs256_sig};
use crate::error::{MyError, TokenError};
use crate::numeral::{
    dec_digits, dec_val, digit_run, lemma_dec_digits_are_digits, lemma_dec_val_of_dec_digits,
    lemma_digit_run_of_concat, scan_dec_u128, u128_to_dec,
};

verus! {

/// The payload a signed token carries: who it identifies and its lifetime,
/// in UTC seconds of a single epoch.
#[derive(Clone, Copy, Debug, PartialEq, Eq, Structural)]
pub struct Claims {
    pub user_id: u128,
    pub exp: u64,
    pub iat: u64,
}

// ---------------------------------------------------------------------------
// The claims text: {"user_id":"<id>","exp":<exp>,"iat":<iat>}
// ---------------------------------------------------------------------------

pub open spec fn lit_user_id() -> Seq<u8> {
    seq![123u8, 34, 117, 115, 101, 114, 95, 105, 100, 34, 58, 34]
}

pub open spec fn lit_exp() -> Seq<u8> {
    seq![34u8, 44, 34, 101, 120, 112, 34, 58]
}

pub open spec fn lit_iat() -> Seq<u8> {
    seq![44u8, 34, 105, 97, 116, 34, 58]
}

pub open spec fn lit_end() -> Seq<u8> {
    seq![125u8]
}

/// The canonical JSON text of a claims value.
pub open spec fn claims_json(c: Claims) -> Seq<u8> {
    lit_user_id() + dec_digits(c.user_id as nat) + lit_exp() + dec_digits(c.exp as nat)
        + lit_iat() + dec_digits(c.iat as nat) + lit_end()
}

/// The JSON text of the fixed token header: HMAC-SHA256, type JWT.
pub open spec fn header_json() -> Seq<u8> {
    seq![
        123u8, 34, 97, 108, 103, 34, 58, 34, 72, 83, 50, 53, 54, 34, 44, 34, 116, 121, 112, 34,
        58, 34, 74, 87, 84, 34, 125,
    ]
}

fn push_lit_user_id(r: &mut Vec<u8>)
    ensures
        final(r)@ == old(r)@ + lit_user_id(),
{
    r.push(123);
    r.push(34);
    r.push(117);
    r.push(115);
    r.push(101);
    r.push(114);
    r.push(95);
    r.push(105);
    r.push(100);
    r.push(34);
    r.push(58);
    r.push(34);
    assert(r@ =~= old(r)@ + lit_user_id());
}

fn push_lit_exp(r: &mut Vec<u8>)
    ensures
        final(r)@ == old(r)@ + lit_exp(),
{
    r.push(34);
    r.push(44);
    r.push(34);
    r.push(101);
    r.push(120);
    r.push(112);
    r.push(34);
    r.push(58);
    assert(r@ =~= old(r)@ + lit_exp());
}

fn push_lit_iat(r: &mut Vec<u8>)
    ensures
        final(r)@ == old(r)@ + lit_iat(),
{
    r.push(44);
    r.push(34);
    r.push(105);
    r.push(97);
    r.push(116);
    r.push(34);
    r.push(58);
    assert(r@ =~= old(r)@ + lit_iat());
}

/// The fixed token header as bytes.
pub fn header_json_bytes() -> (r: Vec<u8>)
    ensures
        r@ == header_json(),
{
    let mut r: Vec<u8> = Vec::new();
    r.push(123);
    r.push(34);
    r.push(97);
    r.push(108);
    r.push(103);
    r.push(34);
    r.push(58);
    r.push(34);
    r.push(72);
    r.push(83);
    r.push(50);
    r.push(53);
    r.push(54);
    r.push(34);
    r.push(44);
    r.push(34);
    r.push(116);
    r.push(121);
    r.push(112);
    r.push(34);
    r.push(58);
    r.push(34);
    r.push(74);
    r.push(87);
    r.push(84);
    r.push(34);
    r.push(125);
    assert(r@ =~= header_json());
    r
}

/// Writes the canonical JSON text of a claims value.
pub fn claims_to_json(c: &Claims) -> (r: Vec<u8>)
    ensures
        r@ == claims_json(*c),
{
    let mut r: Vec<u8> = Vec::new();
    push_lit_user_id(&mut r);
    let mut d1 = u128_to_dec(c.user_id);
    r.append(&mut d1);
    push_lit_exp(&mut r);
    let mut d2 = u128_to_dec(c.exp as u128);
    r.append(&mut d2);
    push_lit_iat(&mut r);
    let mut d3 = u128_to_dec(c.iat as u128);
    r.append(&mut d3);
    r.push(125);
    assert(r@ =~= claims_json(*c));
    r
}

/// A sequence starts with a given prefix.
pub open spec fn starts_with(s: Seq<u8>, p: Seq<u8>) -> bool {
    s.len() >= p.len() && s.take(p.len() as int) == p
}

/// The strict parse of the canonical claims text: `Some` exactly on texts of
/// the shape the writer produces, with values in range.
pub open spec fn parse_claims(s: Seq<u8>) -> Option<Claims> {
    if !starts_with(s, lit_user_id()) {
        None
    } else {
        let s1 = s.skip(lit_user_id().len() as int);
        let r1 = digit_run(s1);
        if r1 == 0 || dec_val(s1.take(r1 as int)) > u128::MAX {
            None
        } else {
            let uid = dec_val(s1.take(r1 as int));
            let s2 = s1.skip(r1 as int);
            if !starts_with(s2, lit_exp()) {
                None
            } else {
                let s3 = s2.skip(lit_exp().len() as int);
                let r2 = digit_run(s3);
                if r2 == 0 || dec_val(s3.take(r2 as int)) > u64::MAX {
                    None
                } else {
                    let expv = dec_val(s3.take(r2 as int));
                    let s4 = s3.skip(r2 as int);
                    if !starts_with(s4, lit_iat()) {
                        None
                    } else {
                        let s5 = s4.skip(lit_iat().len() as int);
                        let r3 = digit_run(s5);
                        if r3 == 0 || dec_val(s5.take(r3 as int)) > u64::MAX {
                            None
                        } else {
                            let iatv = dec_val(s5.take(r3 as int));
                            let s6 = s5.skip(r3 as int);
                            if s6 != lit_end() {
                                None
                            } else {
                                Some(
                                    Claims {
                                        user_id: uid as u128,
                                        exp: expv as u64,
                                        iat: iatv as u64,
                                    },
                                )
                            }
                        }
                    }
                }
            }
        }
    }
}

/// The pattern stands at position `i` of `s`.
fn match_at(s: &Vec<u8>, i: usize, pat: &Vec<u8>) -> (r: bool)
    requires
        i <= s@.len(),
    ensures
        r == starts_with(s@.skip(i as int), pat@),
{
    if s.len() - i < pat.len() {
        return false;
    }
    let mut k: usize = 0;
    while k < pat.len()
        invariant
            0 <= k <= pat@.len(),
            i + pat@.len() <= s@.len(),
            forall|t: int| 0 <= t < k ==> s@[i + t] == pat@[t],
        decreases pat@.len() - k,
    {
        proof {
            assert(s.len() == s@.len());
            assert(i + k < s@.len());
        }
        if s[i + k] != pat[k] {
            proof {
                assert(s@.skip(i as int)[k as int] == s@[i + k]);
                assert(s@.skip(i as int).take(pat@.len() as int)[k as int] != pat@[k as int]);
            }
            return false;
        }
        k += 1;
    }
    proof {
        assert(s@.skip(i as int).take(pat@.len() as int) =~= pat@);
    }
    true
}

/// Strictly parses the canonical claims text.
#[verifier::rlimit(60)]
pub fn parse_claims_bytes(s: &Vec<u8>) -> (r: Option<Claims>)
    ensures
        r == parse_claims(s@),
{
    let mut p1: Vec<u8> = Vec::new();
    push_lit_user_id(&mut p1);
    proof {
        assert(s@.skip(0) =~= s@);
    }
    if !match_at(s, 0, &p1) {
        return None;
    }
    let i1: usize = p1.len();
    proof {
        assert(s@.skip(0).skip(i1 as int) =~= s@.skip(i1 as int));
        assert(s@.take(i1 as int) =~= s@.skip(0).take(i1 as int));
    }
    let ghost s1 = s@.skip(lit_user_id().len() as int);
    let (uid, i2) = match scan_dec_u128(s, i1) {
        Some(p) => p,
        None => {
            return None;
        },
    };
    proof {
        assert(s1 =~= s@.skip(i1 as int));
        assert(s1.skip((i2 - i1) as int) =~= s@.skip(i2 as int));
    }
    let ghost s2 = s1.skip(digit_run(s1) as int);
    let mut p2: Vec<u8> = Vec::new();
    push_lit_exp(&mut p2);
    if !match_at(s, i2, &p2) {
        return None;
    }
    proof {
        assert(s.len() == s@.len());
        assert(s@.skip(i2 as int).len() >= p2@.len());
    }
    let i3: usize = i2 + p2.len();
    proof {
        assert(s2.skip(lit_exp().len() as int) =~= s@.skip(i3 as int));
    }
    let ghost s3 = s2.skip(lit_exp().len() as int);
    let (expv, i4) = match scan_dec_u128(s, i3) {
        Some(p) => p,
        None => {
            return None;
        },
    };
    proof {
        assert(s3 =~= s@.skip(i3 as int));
        assert(s3.take(digit_run(s3) as int) =~= s@.skip(i3 as int).take((i4 - i3) as int));
    }
    if expv > u64::MAX as u128 {
        return None;
    }
    proof {
        assert(s3.skip(digit_run(s3) as int) =~= s@.skip(i4 as int));
    }
    let ghost s4 = s3.skip(digit_run(s3) as int);
    let mut p3: Vec<u8> = Vec::new();
    push_lit_iat(&mut p3);
    if !match_at(s, i4, &p3) {
        return None;
    }
    proof {
        assert(s.len() == s@.len());
        assert(s@.skip(i4 as int).len() >= p3@.len());
    }
    let i5: usize = i4 + p3.len();
    proof {
        assert(s4.skip(lit_iat().len() as int) =~= s@.skip(i5 as int));
    }
    let ghost s5 = s4.skip(lit_iat().len() as int);
    let (iatv, i6) = match scan_dec_u128(s, i5) {
        Some(p) => p,
        None => {
            return None;
        },
    };
    proof {
        assert(s5 =~= s@.skip(i5 as int));
        assert(s5.take(digit_run(s5) as int) =~= s@.skip(i5 as int).take((i6 - i5) as int));
    }
    if iatv > u64::MAX as u128 {
        return None;
    }
    proof {
        assert(s5.skip(digit_run(s5) as int) =~= s@.skip(i6 as int));
    }
    let ghost s6 = s5.skip(digit_run(s5) as int);
    if s.len() - i6 != 1 {
        proof {
            assert(s6.len() != 1);
            assert(s6 != lit_end());
        }
        return None;
    }
    if s[i6] != 125 {
        proof {
            assert(s6[0] == s@[i6 as int]);
            assert(s6 != lit_end());
        }
        return None;
    }
    proof {
        assert(s6 =~= lit_end());
    }
    Some(Claims { user_id: uid, exp: expv as u64, iat: iatv as u64 })
}

/// Parsing the canonical claims text of a claims value gives the value back.
#[verifier::rlimit(90)]
pub proof fn lemma_parse_claims_json(c: Claims)
    ensures
        parse_claims(claims_json(c)) == Some(c),
{
    let s = claims_json(c);
    let d1 = dec_digits(c.user_id as nat);
    let d2 = dec_digits(c.exp as nat);
    let d3 = dec_digits(c.iat as nat);
    lemma_dec_digits_are_digits(c.user_id as nat);
    lemma_dec_digits_are_digits(c.exp as nat);
    lemma_dec_digits_are_digits(c.iat as nat);
    lemma_dec_val_of_dec_digits(c.user_id as nat);
    lemma_dec_val_of_dec_digits(c.exp as nat);
    lemma_dec_val_of_dec_digits(c.iat as nat);

    assert(s.take(lit_user_id().len() as int) =~= lit_user_id());
    let s1 = s.skip(lit_user_id().len() as int);
    let tail1 = lit_exp() + d2 + lit_iat() + d3 + lit_end();
    assert(s1 =~= d1 + tail1);
    assert(tail1[0] == 34);
    lemma_digit_run_of_concat(d1, tail1);
    assert(digit_run(s1) == d1.len());
    assert(s1.take(d1.len() as int) =~= d1);

    let s2 = s1.skip(digit_run(s1) as int);
    assert(s2 =~= tail1);
    assert(s2.take(lit_exp().len() as int) =~= lit_exp());
    let s3 = s2.skip(lit_exp().len() as int);
    let tail2 = lit_iat() + d3 + lit_end();
    assert(s3 =~= d2 + tail2);
    assert(tail2[0] == 44);
    lemma_digit_run_of_concat(d2, tail2);
    assert(digit_run(s3) == d2.len());
    assert(s3.take(d2.len() as int) =~= d2);

    let s4 = s3.skip(digit_run(s3) as int);
    assert(s4 =~= tail2);
    assert(s4.take(lit_iat().len() as int) =~= lit_iat());
    let s5 = s4.skip(lit_iat().len() as int);
    assert(s5 =~= d3 + lit_end());
    lemma_digit_run_of_concat(d3, lit_end());
    assert(digit_run(s5) == d3.len());
    assert(s5.take(d3.len() as int) =~= d3);

    let s6 = s5.skip(digit_run(s5) as int);
    assert(s6 =~= lit_end());
}

// ---------------------------------------------------------------------------
// Token assembly and validation
// ---------------------------------------------------------------------------

/// The signed part of a token: base64 header, a dot, base64 claims.
pub open spec fn signing_input(c: Claims) -> Seq<u8> {
    b64_encode(header_json()) + seq![46u8] + b64_encode(claims_json(c))
}

/// A finished token: the signed part, a dot, the signature text.
pub open spec fn token_spec(secret: Seq<u8>, c: Claims) -> Seq<u8> {
    signing_input(c) + seq![46u8] + hs256_sig(secret, signing_input(c))
}

/// Length of the longest dot-free prefix.
pub open spec fn until_dot(s: Seq<u8>) -> nat
    decreases s.len(),
{
    if s.len() > 0 && s[0] != 46 {
        1 + until_dot(s.skip(1))
    } else {
        0
    }
}

pub proof fn lemma_until_dot_concat(a: Seq<u8>, b: Seq<u8>)
    requires
        forall|i: int| 0 <= i < a.len() ==> #[trigger] a[i] != 46,
        b.len() == 0 || b[0] == 46,
    ensures
        until_dot(a + b) == a.len(),
    decreases a.len(),
{
    if a.len() == 0 {
        assert(a + b =~= b);
    } else {
        assert((a + b)[0] == a[0]);
        assert((a + b).skip(1) =~= a.skip(1) + b);
        lemma_until_dot_concat(a.skip(1), b);
    }
}

/// What validation answers for any token text, secret and moment: the spec of
/// `decode_token`. Structure is checked first, then the header, then the
/// signature, then the claims text, then the expiry.
pub open spec fn validate_spec(secret: Seq<u8>, token: Seq<u8>, now: u64) -> Result<
    u128,
    TokenError,
> {
    let q1 = until_dot(token);
    if q1 >= token.len() {
        Err(TokenError::TokenMalformed)
    } else {
        let rest1 = token.skip(q1 + 1 as int);
        let q2 = until_dot(rest1);
        if q2 >= rest1.len() {
            Err(TokenError::TokenMalformed)
        } else {
            let sig = rest1.skip(q2 + 1 as int);
            if until_dot(sig) != sig.len() {
                Err(TokenError::TokenMalformed)
            } else if token.take(q1 as int) != b64_encode(header_json()) {
                Err(TokenError::TokenMalformed)
            } else if sig != hs256_sig(secret, token.take(q1 + 1 + q2 as int)) {
                Err(TokenError::TokenInvalidSignature)
            } else {
                match b64_decode(rest1.take(q2 as int)) {
                    None => Err(TokenError::TokenMalformed),
                    Some(cb) => match parse_claims(cb) {
                        None => Err(TokenError::TokenMalformed),
                        Some(c) => if now < c.exp {
                            Ok(c.user_id)
                        } else {
                            Err(TokenError::TokenExpired)
                        },
                    },
                }
            }
        }
    }
}

/// The claims issued at `now` for a lifetime of `ttl`.
pub open spec fn issued_claims(user_id: u128, now: u64, ttl: u64) -> Claims {
    Claims { user_id, exp: (now + ttl) as u64, iat: now }
}

/// How a token built from a signed part and a signature validates, under any
/// secret and at any moment. With the issuing secret this is the
/// issue-then-validate law; with any secret whose signature differs it is the
/// namespace-separation law: validation fails with `TokenInvalidSignature`.
pub proof fn lemma_validate_built_token(
    secret: Seq<u8>,
    c: Claims,
    sig: Seq<u8>,
    vsecret: Seq<u8>,
    now: u64,
)
    requires
        sig == hs256_sig(secret, signing_input(c)),
        forall|i: int| 0 <= i < sig.len() ==> is_b64_byte(#[trigger] sig[i]),
    ensures
        validate_spec(vsecret, token_spec(secret, c), now) == (if hs256_sig(
            vsecret,
            signing_input(c),
        ) != sig {
            Err::<u128, TokenError>(TokenError::TokenInvalidSignature)
        } else if now < c.exp {
            Ok::<u128, TokenError>(c.user_id)
        } else {
            Err::<u128, TokenError>(TokenError::TokenExpired)
        }),
{
    let h = b64_encode(header_json());
    let cb = b64_encode(claims_json(c));
    let token = token_spec(secret, c);
    lemma_encode_is_b64(header_json());
    lemma_encode_is_b64(claims_json(c));
    assert(forall|i: int| 0 <= i < h.len() ==> #[trigger] h[i] != 46);
    assert(forall|i: int| 0 <= i < cb.len() ==> #[trigger] cb[i] != 46);
    assert(forall|i: int| 0 <= i < sig.len() ==> #[trigger] sig[i] != 46);

    let after_h = seq![46u8] + cb + seq![46u8] + sig;
    assert(token =~= h + after_h);
    lemma_until_dot_concat(h, after_h);
    assert(until_dot(token) == h.len());
    assert(h.len() < token.len());

    let rest1 = token.skip(h.len() + 1 as int);
    assert(rest1 =~= cb + (seq![46u8] + sig));
    lemma_until_dot_concat(cb, seq![46u8] + sig);
    assert(until_dot(rest1) == cb.len());
    assert(cb.len() < rest1.len());

    let sigp = rest1.skip(cb.len() + 1 as int);
    assert(sigp =~= sig);
    assert(sig + Seq::<u8>::empty() =~= sig);
    lemma_until_dot_concat(sig, Seq::<u8>::empty());
    assert(until_dot(sigp) == sigp.len());

    assert(token.take(h.len() as int) =~= h);
    assert(token.take(h.len() + 1 + cb.len() as int) =~= signing_input(c));
    assert(rest1.take(cb.len() as int) =~= cb);

    if hs256_sig(vsecret, signing_input(c)) == sig {
        lemma_b64_roundtrip(claims_json(c));
        lemma_parse_claims_json(c);
    }
}

/// The namespace-separation law: a token built for one signing namespace
/// fails validation under another whenever the two secrets sign its signed
/// part differently - which is what choosing distinct secrets is for. The
/// failure is `TokenInvalidSignature`, at every moment.
pub proof fn lemma_namespace_separation(cfg: TokenConfig, c: Claims, sig: Seq<u8>, now: u64)
    requires
        cfg.wf(),
        sig == hs256_sig(cfg.refresh_secret@, signing_input(c)),
        forall|i: int| 0 <= i < sig.len() ==> is_b64_byte(#[trigger] sig[i]),
        hs256_sig(cfg.access_secret@, signing_input(c)) != sig,
    ensures
        validate_spec(cfg.access_secret@, token_spec(cfg.refresh_secret@, c), now) == Err::<
            u128,
            TokenError,
        >(TokenError::TokenInvalidSignature),
{
    lemma_validate_built_token(cfg.refresh_secret@, c, sig, cfg.access_secret@, now);
}

/// Builds a signed token for the claims under the given secret.
///
/// Its contract carries the token laws. First: at any moment before the
/// expiry, validation under the same secret returns the subject, and at any
/// later moment it fails with `TokenExpired`. Second: under any secret whose
/// signature of the signed part differs, validation fails with
/// `TokenInvalidSignature`.
pub fn generate(user_id: u128, now: u64, ttl: u64, secret: &Vec<u8>) -> (r: Vec<u8>)
    requires
        now + ttl <= u64::MAX,
        ttl >= 1,
    ensures
        r@ == token_spec(secret@, issued_claims(user_id, now, ttl)),
        forall|t: u64|
            validate_spec(secret@, r@, t) == (if t < now + ttl {
                Ok::<u128, TokenError>(user_id)
            } else {
                Err::<u128, TokenError>(TokenError::TokenExpired)
            }),
        forall|other: Seq<u8>, t: u64|
            hs256_sig(other, signing_input(issued_claims(user_id, now, ttl))) != hs256_sig(
                secret@,
                signing_input(issued_claims(user_id, now, ttl)),
            ) ==> validate_spec(other, r@, t) == Err::<u128, TokenError>(
                TokenError::TokenInvalidSignature,
            ),
{
    let ghost c = issued_claims(user_id, now, ttl);
    let claims = Claims { user_id, exp: now + ttl, iat: now };
    let header = header_json_bytes();
    let hb = b64_encode_bytes(&header);
    let cj = claims_to_json(&claims);
    let mut cbv = b64_encode_bytes(&cj);
    let mut msg = hb;
    msg.push(46);
    msg.append(&mut cbv);
    proof {
        assert(msg@ =~= signing_input(c));
    }
    let mut sig = hmac_sha256_sign(secret, &msg);
    let ghost sigv = sig@;
    let mut r = msg;
    r.push(46);
    r.append(&mut sig);
    proof {
        assert(r@ =~= token_spec(secret@, c));
        assert forall|t: u64|
            validate_spec(secret@, r@, t) == (if t < now + ttl {
                Ok::<u128, TokenError>(user_id)
            } else {
                Err::<u128, TokenError>(TokenError::TokenExpired)
            }) by {
            lemma_validate_built_token(secret@, c, sigv, secret@, t);
        }
        assert forall|other: Seq<u8>, t: u64|
            hs256_sig(other, signing_input(c)) != hs256_sig(secret@, signing_input(c))
                implies validate_spec(other, r@, t) == Err::<u128, TokenError>(
                TokenError::TokenInvalidSignature,
            ) by {
            lemma_validate_built_token(secret@, c, sigv, other, t);
        }
    }
    r
}

/// Reads the dot-free run starting at `i` and returns the position just past it.
fn scan_dot(s: &Vec<u8>, i: usize) -> (j: usize)
    requires
        i <= s@.len(),
    ensures
        i <= j <= s@.len(),
        j - i == until_dot(s@.skip(i as int)),
{
    let mut j: usize = i;
    while j < s.len() && s[j] != 46
        invariant
            i <= j <= s@.len(),
            until_dot(s@.skip(i as int)) == (j - i) + until_dot(s@.skip(j as int)),
        decreases s@.len() - j,
    {
        proof {
            assert(s@.skip(j as int)[0] == s@[j as int]);
            assert(s@.skip(j as int).skip(1) =~= s@.skip(j + 1));
        }
        j += 1;
    }
    proof {
        if j < s@.len() {
            assert(s@.skip(j as int)[0] == s@[j as int]);
        }
        assert(until_dot(s@.skip(j as int)) == 0);
    }
    j
}

/// Copies `s[a..b]`.
fn subvec(s: &Vec<u8>, a: usize, b: usize) -> (r: Vec<u8>)
    requires
        a <= b <= s@.len(),
    ensures
        r@ == s@.subrange(a as int, b as int),
{
    let mut r: Vec<u8> = Vec::new();
    let mut k: usize = a;
    while k < b
        invariant
            a <= k <= b <= s@.len(),
            r@ == s@.subrange(a as int, k as int),
        decreases b - k,
    {
        r.push(s[k]);
        proof {
            assert(s@.subrange(a as int, k + 1) =~= s@.subrange(a as int, k as int).push(
                s@[k as int],
            ));
        }
        k += 1;
    }
    r
}

/// Validates a token under a secret at the moment `now`: the subject's id on
/// success, otherwise exactly which check failed.
pub fn decode_token(token: &Vec<u8>, secret: &Vec<u8>, now: u64) -> (r: Result<u128, TokenError>)
    ensures
        r == validate_spec(secret@, token@, now),
{
    proof {
        assert(token@.skip(0) =~= token@);
    }
    let q1 = scan_dot(token, 0);
    if q1 == token.len() {
        return Err(TokenError::TokenMalformed);
    }
    let ghost rest1 = token@.skip(q1 + 1);
    let q2abs = scan_dot(token, q1 + 1);
    proof {
        assert(rest1 =~= token@.skip((q1 + 1) as int));
    }
    if q2abs == token.len() {
        proof {
            assert(until_dot(rest1) >= rest1.len());
        }
        return Err(TokenError::TokenMalformed);
    }
    let ghost q2 = until_dot(rest1);
    proof {
        assert(q2 == q2abs - (q1 + 1));
        assert(q2 < rest1.len());
    }
    let q3abs = scan_dot(token, q2abs + 1);
    let ghost sigv = rest1.skip(q2 + 1 as int);
    proof {
        assert(sigv =~= token@.skip((q2abs + 1) as int));
    }
    if q3abs != token.len() {
        proof {
            assert(until_dot(sigv) != sigv.len());
        }
        return Err(TokenError::TokenMalformed);
    }
    proof {
        assert(until_dot(sigv) == sigv.len());
    }
    let header = header_json_bytes();
    let hb = b64_encode_bytes(&header);
    let head_part = subvec(token, 0, q1);
    proof {
        assert(head_part@ =~= token@.take(q1 as int));
    }
    if !bytes_eq(&head_part, &hb) {
        return Err(TokenError::TokenMalformed);
    }
    let msg = subvec(token, 0, q2abs);
    let sig_part = subvec(token, q2abs + 1, token.len());
    proof {
        assert(msg@ =~= token@.take(q1 + 1 + q2));
        assert(sig_part@ =~= sigv);
    }
    if !hmac_sha256_verify(secret, &msg, &sig_part) {
        return Err(TokenError::TokenInvalidSignature);
    }
    let claims_part = subvec(token, q1 + 1, q2abs);
    proof {
        assert(claims_part@ =~= rest1.take(q2 as int));
    }
    let cb = match b64_decode_bytes(&claims_part) {
        Some(v) => v,
        None => {
            return Err(TokenError::TokenMalformed);
        },
    };
    let c = match parse_claims_bytes(&cb) {
        Some(c) => c,
        None => {
            return Err(TokenError::TokenMalformed);
        },
    };
    if now < c.exp {
        Ok(c.user_id)
    } else {
        Err(TokenError::TokenExpired)
    }
}

// ---------------------------------------------------------------------------
// The two signing namespaces
// ---------------------------------------------------------------------------

/// The issuer's injected configuration: one secret and lifetime for each of
/// the two token classes. The two secrets must differ, so that one class
/// cannot be replayed as the other.
pub struct TokenConfig {
    pub access_secret: Vec<u8>,
    pub refresh_secret: Vec<u8>,
    pub access_ttl: u64,
    pub refresh_ttl: u64,
}

impl TokenConfig {
    pub open spec fn wf(self) -> bool {
        &&& self.access_secret@ != self.refresh_secret@
        &&& self.access_secret@.len() >= 1
        &&& self.refresh_secret@.len() >= 1
        &&& 1 <= self.access_ttl
        &&& 1 <= self.refresh_ttl
    }

    /// Issues a short-lived access token for the subject, stamped at `now`.
    pub fn generate_access_token(&self, user_id: u128, now: u64) -> (r: Vec<u8>)
        requires
            now + self.access_ttl <= u64::MAX,
            self.wf(),
        ensures
            r@ == token_spec(self.access_secret@, issued_claims(user_id, now, self.access_ttl)),
            forall|t: u64|
                validate_spec(self.access_secret@, r@, t) == (if t < now + self.access_ttl {
                    Ok::<u128, TokenError>(user_id)
                } else {
                    Err::<u128, TokenError>(TokenError::TokenExpired)
                }),
    {
        generate(user_id, now, self.access_ttl, &self.access_secret)
    }

    /// Issues a long-lived refresh token for the subject, stamped at `now`.
    pub fn generate_refresh_token(&self, user_id: u128, now: u64) -> (r: Vec<u8>)
        requires
            now + self.refresh_ttl <= u64::MAX,
            self.wf(),
        ensures
            r@ == token_spec(self.refresh_secret@, issued_claims(user_id, now, self.refresh_ttl)),
            forall|t: u64|
                validate_spec(self.refresh_secret@, r@, t) == (if t < now + self.refresh_ttl {
                    Ok::<u128, TokenError>(user_id)
                } else {
                    Err::<u128, TokenError>(TokenError::TokenExpired)
                }),
    {
        generate(user_id, now, self.refresh_ttl, &self.refresh_secret)
    }

    /// Validates an access token and returns the subject's id.
    pub fn decode_access_token(&self, token: &Vec<u8>, now: u64) -> (r: Result<u128, TokenError>)
        ensures
            r == validate_spec(self.access_secret@, token@, now),
    {
        decode_token(token, &self.access_secret, now)
    }

    /// Validates a refresh token and returns the subject's id.
    pub fn decode_refresh_token(&self, token: &Vec<u8>, now: u64) -> (r: Result<u128, TokenError>)
        ensures
            r == validate_spec(self.refresh_secret@, token@, now),
    {
        decode_token(token, &self.refresh_secret, now)
    }
}


// ---------------------------------------------------------------------------
// The Authorization header
// ---------------------------------------------------------------------------

pub open spec fn is_space(b: u8) -> bool {
    b == 32 || b == 9 || b == 13 || b == 10
}

/// Length of the longest prefix of whitespace.
pub open spec fn space_run(s: Seq<u8>) -> nat
    decreases s.len(),
{
    if s.len() > 0 && is_space(s[0]) {
        1 + space_run(s.skip(1))
    } else {
        0
    }
}

/// Length of the longest prefix free of whitespace.
pub open spec fn word_run(s: Seq<u8>) -> nat
    decreases s.len(),
{
    if s.len() > 0 && !is_space(s[0]) {
        1 + word_run(s.skip(1))
    } else {
        0
    }
}

pub open spec fn lower_byte(b: u8) -> u8 {
    if 65 <= b <= 90 {
        (b + 32) as u8
    } else {
        b
    }
}

/// The word is `bearer` in any casing.
pub open spec fn is_bearer_scheme(w: Seq<u8>) -> bool {
    &&& w.len() == 6
    &&& lower_byte(w[0]) == 98
    &&& lower_byte(w[1]) == 101
    &&& lower_byte(w[2]) == 97
    &&& lower_byte(w[3]) == 114
    &&& lower_byte(w[4]) == 101
    &&& lower_byte(w[5]) == 114
}

/// What an Authorization header value yields: the second whitespace-separated
/// word, provided the first is `bearer` in any casing.
pub open spec fn parse_bearer(s: Seq<u8>) -> Option<Seq<u8>> {
    let s1 = s.skip(space_run(s) as int);
    let t1 = word_run(s1);
    if t1 == 0 {
        None
    } else if !is_bearer_scheme(s1.take(t1 as int)) {
        None
    } else {
        let s2 = s1.skip(t1 as int);
        let s3 = s2.skip(space_run(s2) as int);
        let t2 = word_run(s3);
        if t2 == 0 {
            None
        } else {
            Some(s3.take(t2 as int))
        }
    }
}

/// Reads the whitespace run starting at `i`, returning the position past it.
fn scan_space(s: &Vec<u8>, i: usize) -> (j: usize)
    requires
        i <= s@.len(),
    ensures
        i <= j <= s@.len(),
        j - i == space_run(s@.skip(i as int)),
{
    let mut j: usize = i;
    while j < s.len() && (s[j] == 32 || s[j] == 9 || s[j] == 13 || s[j] == 10)
        invariant
            i <= j <= s@.len(),
            space_run(s@.skip(i as int)) == (j - i) + space_run(s@.skip(j as int)),
        decreases s@.len() - j,
    {
        proof {
            assert(s@.skip(j as int)[0] == s@[j as int]);
            assert(s@.skip(j as int).skip(1) =~= s@.skip(j + 1));
        }
        j += 1;
    }
    proof {
        if j < s@.len() {
            assert(s@.skip(j as int)[0] == s@[j as int]);
        }
        assert(space_run(s@.skip(j as int)) == 0);
    }
    j
}

/// Reads the whitespace-free run starting at `i`, returning the position past it.
fn scan_word(s: &Vec<u8>, i: usize) -> (j: usize)
    requires
        i <= s@.len(),
    ensures
        i <= j <= s@.len(),
        j - i == word_run(s@.skip(i as int)),
{
    let mut j: usize = i;
    while j < s.len() && !(s[j] == 32 || s[j] == 9 || s[j] == 13 || s[j] == 10)
        invariant
            i <= j <= s@.len(),
            word_run(s@.skip(i as int)) == (j - i) + word_run(s@.skip(j as int)),
        decreases s@.len() - j,
    {
        proof {
            assert(s@.skip(j as int)[0] == s@[j as int]);
            assert(s@.skip(j as int).skip(1) =~= s@.skip(j + 1));
        }
        j += 1;
    }
    proof {
        if j < s@.len() {
            assert(s@.skip(j as int)[0] == s@[j as int]);
        }
        assert(word_run(s@.skip(j as int)) == 0);
    }
    j
}

fn lower_u8(b: u8) -> (r: u8)
    ensures
        r == lower_byte(b),
{
    if 65 <= b && b <= 90 {
        b + 32
    } else {
        b
    }
}

/// Extracts the bearer token from an Authorization header value: the second
/// whitespace-separated word, provided the scheme word is `bearer` in any
/// casing; otherwise the uniform authentication failure.
pub fn get_auth_from_header(header: &Vec<u8>) -> (r: Result<Vec<u8>, MyError>)
    ensures
        match r {
            Ok(t) => parse_bearer(header@) == Some(t@),
            Err(e) => parse_bearer(header@) is None && e == MyError::AuthenticationError,
        },
{
    proof {
        assert(header@.skip(0) =~= header@);
    }
    let a = scan_space(header, 0);
    let ghost s1 = header@.skip(space_run(header@) as int);
    proof {
        assert(s1 =~= header@.skip(a as int));
    }
    let b = scan_word(header, a);
    if b == a {
        return Err(MyError::AuthenticationError);
    }
    let ghost w = s1.take(word_run(s1) as int);
    if b - a != 6 {
        proof {
            assert(w.len() != 6);
        }
        return Err(MyError::AuthenticationError);
    }
    proof {
        assert(forall|t: int| 0 <= t < 6 ==> w[t] == header@[a + t]);
    }
    let ok = lower_u8(header[a]) == 98 && lower_u8(header[a + 1]) == 101 && lower_u8(
        header[a + 2],
    ) == 97 && lower_u8(header[a + 3]) == 114 && lower_u8(header[a + 4]) == 101 && lower_u8(
        header[a + 5],
    ) == 114;
    if !ok {
        proof {
            assert(!is_bearer_scheme(w));
        }
        return Err(MyError::AuthenticationError);
    }
    proof {
        assert(is_bearer_scheme(w));
    }
    let ghost s2 = s1.skip(word_run(s1) as int);
    proof {
        assert(s2 =~= header@.skip(b as int));
    }
    let c = scan_space(header, b);
    let ghost s3 = s2.skip(space_run(s2) as int);
    proof {
        assert(s3 =~= header@.skip(c as int));
    }
    let d = scan_word(header, c);
    if d == c {
        return Err(MyError::AuthenticationError);
    }
    let tok = subvec(header, c, d);
    proof {
        assert(tok@ =~= s3.take(word_run(s3) as int));
    }
    Ok(tok)
}

} // verus!
