use vstd::prelude::*;

verus! {

/// The unpadded URL-safe base64 alphabet: `A-Z`, `a-z`, `0-9`, `-`, `_`.
pub open spec fn is_b64_byte(b: u8) -> bool {
    (65 <= b <= 90) || (97 <= b <= 122) || (48 <= b <= 57) || b == 45 || b == 95
}

/// The alphabet byte for a six-bit value.
pub open spec fn b64_char(v: u8) -> u8 {
    if v < 26 {
        (65 + v) as u8
    } else if v < 52 {
        (97 + (v - 26)) as u8
    } else if v < 62 {
        (48 + (v - 52)) as u8
    } else if v == 62 {
        45
    } else {
        95
    }
}

/// The six-bit value of an alphabet byte.
pub open spec fn b64_val(b: u8) -> u8 {
    if 65 <= b <= 90 {
        (b - 65) as u8
    } else if 97 <= b <= 122 {
        (26 + (b - 97)) as u8
    } else if 48 <= b <= 57 {
        (52 + (b - 48)) as u8
    } else if b == 45 {
        62
    } else {
        63
    }
}

pub proof fn lemma_b64_char_props(v: u8)
    requires
        v < 64,
    ensures
        is_b64_byte(b64_char(v)),
        b64_val(b64_char(v)) == v,
{
}

/// Every six-bit group drawn from three bytes is below 64.
pub proof fn lemma_sextet_bounds(a: u8, b: u8, c: u8)
    by (bit_vector)
    ensures
        a >> 2 < 64,
        (a & 3) << 4 < 64,
        ((a & 3) << 4) | (b >> 4) < 64,
        (b & 15) << 2 < 64,
        ((b & 15) << 2) | (c >> 6) < 64,
        c & 63 < 64,
{
}

/// Reassembling the six-bit groups of three bytes gives the bytes back.
pub proof fn lemma_chunk_roundtrip(a: u8, b: u8, c: u8)
    by (bit_vector)
    ensures
        ((a >> 2) << 2) | ((((a & 3) << 4) | (b >> 4)) >> 4) == a,
        ((((a & 3) << 4) | (b >> 4)) << 4) | ((((b & 15) << 2) | (c >> 6)) >> 2) == b,
        ((((b & 15) << 2) | (c >> 6)) << 6) | (c & 63) == c,
{
}

/// Unpadded URL-safe base64 of a byte sequence.
pub open spec fn b64_encode(s: Seq<u8>) -> Seq<u8>
    decreases s.len(),
{
    if s.len() == 0 {
        Seq::<u8>::empty()
    } else if s.len() == 1 {
        seq![b64_char(s[0] >> 2), b64_char((s[0] & 3) << 4)]
    } else if s.len() == 2 {
        seq![
            b64_char(s[0] >> 2),
            b64_char(((s[0] & 3) << 4) | (s[1] >> 4)),
            b64_char((s[1] & 15) << 2),
        ]
    } else {
        seq![
            b64_char(s[0] >> 2),
            b64_char(((s[0] & 3) << 4) | (s[1] >> 4)),
            b64_char(((s[1] & 15) << 2) | (s[2] >> 6)),
            b64_char(s[2] & 63),
        ] + b64_encode(s.skip(3))
    }
}

/// Decoding of unpadded URL-safe base64; `None` on a malformed input.
pub open spec fn b64_decode(s: Seq<u8>) -> Option<Seq<u8>>
    decreases s.len(),
{
    if s.len() == 0 {
        Some(Seq::<u8>::empty())
    } else if s.len() == 1 {
        None
    } else if s.len() == 2 {
        if is_b64_byte(s[0]) && is_b64_byte(s[1]) {
            Some(seq![(b64_val(s[0]) << 2) | (b64_val(s[1]) >> 4)])
        } else {
            None
        }
    } else if s.len() == 3 {
        if is_b64_byte(s[0]) && is_b64_byte(s[1]) && is_b64_byte(s[2]) {
            Some(
                seq![
                    (b64_val(s[0]) << 2) | (b64_val(s[1]) >> 4),
                    (b64_val(s[1]) << 4) | (b64_val(s[2]) >> 2),
                ],
            )
        } else {
            None
        }
    } else {
        if is_b64_byte(s[0]) && is_b64_byte(s[1]) && is_b64_byte(s[2]) && is_b64_byte(s[3]) {
            match b64_decode(s.skip(4)) {
                Some(rest) => Some(
                    seq![
                        (b64_val(s[0]) << 2) | (b64_val(s[1]) >> 4),
                        (b64_val(s[1]) << 4) | (b64_val(s[2]) >> 2),
                        (b64_val(s[2]) << 6) | b64_val(s[3]),
                    ] + rest,
                ),
                None => None,
            }
        } else {
            None
        }
    }
}

/// Every byte of an encoding is in the alphabet.
pub proof fn lemma_encode_is_b64(s: Seq<u8>)
    ensures
        forall|i: int| 0 <= i < b64_encode(s).len() ==> is_b64_byte(#[trigger] b64_encode(s)[i]),
    decreases s.len(),
{
    if s.len() == 0 {
    } else if s.len() == 1 {
        lemma_sextet_bounds(s[0], 0, 0);
        lemma_b64_char_props(s[0] >> 2);
        lemma_b64_char_props((s[0] & 3) << 4);
    } else if s.len() == 2 {
        lemma_sextet_bounds(s[0], s[1], 0);
        lemma_b64_char_props(s[0] >> 2);
        lemma_b64_char_props(((s[0] & 3) << 4) | (s[1] >> 4));
        lemma_b64_char_props((s[1] & 15) << 2);
    } else {
        lemma_sextet_bounds(s[0], s[1], s[2]);
        lemma_b64_char_props(s[0] >> 2);
        lemma_b64_char_props(((s[0] & 3) << 4) | (s[1] >> 4));
        lemma_b64_char_props(((s[1] & 15) << 2) | (s[2] >> 6));
        lemma_b64_char_props(s[2] & 63);
        lemma_encode_is_b64(s.skip(3));
        assert forall|i: int| 0 <= i < b64_encode(s).len() implies is_b64_byte(
            #[trigger] b64_encode(s)[i],
        ) by {
            if i >= 4 {
                assert(b64_encode(s)[i] == b64_encode(s.skip(3))[i - 4]);
            }
        }
    }
}

/// Decoding an encoding gives the original bytes back.
pub proof fn lemma_b64_roundtrip(s: Seq<u8>)
    ensures
        b64_decode(b64_encode(s)) == Some(s),
    decreases s.len(),
{
    let e = b64_encode(s);
    if s.len() == 0 {
        assert(s =~= Seq::<u8>::empty());
    } else if s.len() == 1 {
        lemma_sextet_bounds(s[0], 0, 0);
        lemma_b64_char_props(s[0] >> 2);
        lemma_b64_char_props((s[0] & 3) << 4);
        lemma_chunk_roundtrip(s[0], 0, 0);
        assert(((s[0] >> 2) << 2) | ((((s[0] & 3) << 4) | (0u8 >> 4)) >> 4) == s[0]);
        assert((0u8 >> 4) == 0) by (bit_vector);
        assert((((s[0] & 3) << 4) | 0u8) == ((s[0] & 3) << 4)) by (bit_vector);
        assert(b64_decode(e) == Some(seq![s[0]]));
        assert(seq![s[0]] =~= s);
    } else if s.len() == 2 {
        lemma_sextet_bounds(s[0], s[1], 0);
        lemma_b64_char_props(s[0] >> 2);
        lemma_b64_char_props(((s[0] & 3) << 4) | (s[1] >> 4));
        lemma_b64_char_props((s[1] & 15) << 2);
        lemma_chunk_roundtrip(s[0], s[1], 0);
        assert((0u8 >> 6) == 0) by (bit_vector);
        assert((((s[1] & 15) << 2) | 0u8) == ((s[1] & 15) << 2)) by (bit_vector);
        assert(b64_decode(e) == Some(seq![s[0], s[1]]));
        assert(seq![s[0], s[1]] =~= s);
    } else {
        lemma_sextet_bounds(s[0], s[1], s[2]);
        lemma_b64_char_props(s[0] >> 2);
        lemma_b64_char_props(((s[0] & 3) << 4) | (s[1] >> 4));
        lemma_b64_char_props(((s[1] & 15) << 2) | (s[2] >> 6));
        lemma_b64_char_props(s[2] & 63);
        lemma_chunk_roundtrip(s[0], s[1], s[2]);
        lemma_b64_roundtrip(s.skip(3));
        let tail = b64_encode(s.skip(3));
        assert(e.len() == 4 + tail.len());
        assert(e.skip(4) =~= tail);
        if s.len() == 3 {
            assert(tail.len() == 0);
            assert(e.len() == 4);
            assert(b64_decode(e.skip(4)) == Some(Seq::<u8>::empty()));
            assert(b64_decode(e) == Some(seq![s[0], s[1], s[2]] + Seq::<u8>::empty()));
            assert(seq![s[0], s[1], s[2]] + Seq::<u8>::empty() =~= s);
        } else {
            assert(e.len() >= 4 + 2);
            assert(b64_decode(e.skip(4)) == Some(s.skip(3)));
            assert(b64_decode(e) == Some(seq![s[0], s[1], s[2]] + s.skip(3)));
            assert(seq![s[0], s[1], s[2]] + s.skip(3) =~= s);
        }
    }
}

/// The alphabet byte for a six-bit value.
pub fn enc_char(v: u8) -> (r: u8)
    requires
        v < 64,
    ensures
        r == b64_char(v),
{
    if v < 26 {
        65 + v
    } else if v < 52 {
        97 + (v - 26)
    } else if v < 62 {
        48 + (v - 52)
    } else if v == 62 {
        45
    } else {
        95
    }
}

/// The six-bit value of an alphabet byte.
pub fn val_of_b64(b: u8) -> (r: u8)
    requires
        is_b64_byte(b),
    ensures
        r == b64_val(b),
{
    if 65 <= b && b <= 90 {
        b - 65
    } else if 97 <= b && b <= 122 {
        26 + (b - 97)
    } else if 48 <= b && b <= 57 {
        52 + (b - 48)
    } else if b == 45 {
        62
    } else {
        63
    }
}

pub fn is_b64(b: u8) -> (r: bool)
    ensures
        r == is_b64_byte(b),
{
    (65 <= b && b <= 90) || (97 <= b && b <= 122) || (48 <= b && b <= 57) || b == 45 || b == 95
}

fn enc_from(s: &Vec<u8>, i: usize) -> (r: Vec<u8>)
    requires
        i <= s@.len(),
    ensures
        r@ == b64_encode(s@.skip(i as int)),
    decreases s@.len() - i,
{
    let ghost w = s@.skip(i as int);
    let n = s.len() - i;
    let mut r: Vec<u8> = Vec::new();
    if n == 0 {
        assert(r@ =~= b64_encode(w));
        r
    } else if n == 1 {
        let a = s[i];
        proof {
            assert(w[0] == s@[i as int]);
            lemma_sextet_bounds(a, 0, 0);
        }
        r.push(enc_char(a >> 2));
        r.push(enc_char((a & 3) << 4));
        assert(r@ =~= b64_encode(w));
        r
    } else if n == 2 {
        let a = s[i];
        let b = s[i + 1];
        proof {
            assert(w[0] == s@[i as int]);
            assert(w[1] == s@[i + 1]);
            lemma_sextet_bounds(a, b, 0);
        }
        r.push(enc_char(a >> 2));
        r.push(enc_char(((a & 3) << 4) | (b >> 4)));
        r.push(enc_char((b & 15) << 2));
        assert(r@ =~= b64_encode(w));
        r
    } else {
        let a = s[i];
        let b = s[i + 1];
        let c = s[i + 2];
        proof {
            assert(w[0] == s@[i as int]);
            assert(w[1] == s@[i + 1]);
            assert(w[2] == s@[i + 2]);
            lemma_sextet_bounds(a, b, c);
        }
        r.push(enc_char(a >> 2));
        r.push(enc_char(((a & 3) << 4) | (b >> 4)));
        r.push(enc_char(((b & 15) << 2) | (c >> 6)));
        r.push(enc_char(c & 63));
        let mut rest = enc_from(s, i + 3);
        proof {
            assert(w.skip(3) =~= s@.skip(i + 3));
        }
        r.append(&mut rest);
        assert(r@ =~= b64_encode(w));
        r
    }
}

/// Unpadded URL-safe base64 of a byte vector.
pub fn b64_encode_bytes(s: &Vec<u8>) -> (r: Vec<u8>)
    ensures
        r@ == b64_encode(s@),
{
    let r = enc_from(s, 0);
    proof {
        assert(s@.skip(0) =~= s@);
    }
    r
}

fn dec_from(s: &Vec<u8>, i: usize) -> (r: Option<Vec<u8>>)
    requires
        i <= s@.len(),
    ensures
        match r {
            Some(v) => b64_decode(s@.skip(i as int)) == Some(v@),
            None => b64_decode(s@.skip(i as int)) is None,
        },
    decreases s@.len() - i,
{
    let ghost w = s@.skip(i as int);
    let n = s.len() - i;
    if n == 0 {
        let r: Vec<u8> = Vec::new();
        assert(r@ =~= Seq::<u8>::empty());
        Some(r)
    } else if n == 1 {
        None
    } else if n == 2 {
        let a = s[i];
        let b = s[i + 1];
        proof {
            assert(w[0] == s@[i as int]);
            assert(w[1] == s@[i + 1]);
        }
        if is_b64(a) && is_b64(b) {
            let mut r: Vec<u8> = Vec::new();
            r.push((val_of_b64(a) << 2) | (val_of_b64(b) >> 4));
            assert(r@ =~= b64_decode(w).unwrap());
            Some(r)
        } else {
            None
        }
    } else if n == 3 {
        let a = s[i];
        let b = s[i + 1];
        let c = s[i + 2];
        proof {
            assert(w[0] == s@[i as int]);
            assert(w[1] == s@[i + 1]);
            assert(w[2] == s@[i + 2]);
        }
        if is_b64(a) && is_b64(b) && is_b64(c) {
            let mut r: Vec<u8> = Vec::new();
            r.push((val_of_b64(a) << 2) | (val_of_b64(b) >> 4));
            r.push((val_of_b64(b) << 4) | (val_of_b64(c) >> 2));
            assert(r@ =~= b64_decode(w).unwrap());
            Some(r)
        } else {
            None
        }
    } else {
        let a = s[i];
        let b = s[i + 1];
        let c = s[i + 2];
        let d = s[i + 3];
        proof {
            assert(w[0] == s@[i as int]);
            assert(w[1] == s@[i + 1]);
            assert(w[2] == s@[i + 2]);
            assert(w[3] == s@[i + 3]);
            assert(w.skip(4) =~= s@.skip(i + 4));
        }
        if is_b64(a) && is_b64(b) && is_b64(c) && is_b64(d) {
            match dec_from(s, i + 4) {
                Some(mut rest) => {
                    let mut r: Vec<u8> = Vec::new();
                    r.push((val_of_b64(a) << 2) | (val_of_b64(b) >> 4));
                    r.push((val_of_b64(b) << 4) | (val_of_b64(c) >> 2));
                    r.push((val_of_b64(c) << 6) | val_of_b64(d));
                    let ghost front = r@;
                    r.append(&mut rest);
                    assert(r@ =~= b64_decode(w).unwrap());
                    Some(r)
                },
                None => None,
            }
        } else {
            None
        }
    }
}

/// Decodes unpadded URL-safe base64; `None` on a malformed input.
pub fn b64_decode_bytes(s: &Vec<u8>) -> (r: Option<Vec<u8>>)
    ensures
        match r {
            Some(v) => b64_decode(s@) == Some(v@),
            None => b64_decode(s@) is None,
        },
{
    let r = dec_from(s, 0);
    proof {
        assert(s@.skip(0) =~= s@);
    }
    r
}

} // verus!
