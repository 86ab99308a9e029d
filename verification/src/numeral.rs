use vstd::prelude::*;

verus! {

/// ASCII decimal digits, used by the claims codec.
pub open spec fn is_digit(b: u8) -> bool {
    48 <= b <= 57
}

pub open spec fn digit_val(b: u8) -> nat {
    if is_digit(b) {
        (b - 48) as nat
    } else {
        0
    }
}

/// The ASCII decimal representation of a number, most significant digit first.
pub open spec fn dec_digits(n: nat) -> Seq<u8>
    decreases n,
{
    if n < 10 {
        seq![(48 + n) as u8]
    } else {
        dec_digits(n / 10).push((48 + n % 10) as u8)
    }
}

/// The numeric value of a sequence of ASCII decimal digits.
pub open spec fn dec_val(s: Seq<u8>) -> nat
    decreases s.len(),
{
    if s.len() == 0 {
        0
    } else {
        10 * dec_val(s.drop_last()) + digit_val(s.last())
    }
}

/// Length of the longest prefix made of ASCII decimal digits.
pub open spec fn digit_run(s: Seq<u8>) -> nat
    decreases s.len(),
{
    if s.len() > 0 && is_digit(s[0]) {
        1 + digit_run(s.skip(1))
    } else {
        0
    }
}

pub proof fn lemma_dec_digits_are_digits(n: nat)
    ensures
        dec_digits(n).len() >= 1,
        forall|i: int| 0 <= i < dec_digits(n).len() ==> is_digit(#[trigger] dec_digits(n)[i]),
    decreases n,
{
    if n >= 10 {
        lemma_dec_digits_are_digits(n / 10);
    }
}

pub proof fn lemma_dec_val_of_dec_digits(n: nat)
    ensures
        dec_val(dec_digits(n)) == n,
    decreases n,
{
    if n < 10 {
        assert(dec_digits(n) =~= seq![(48 + n) as u8]);
        assert(dec_digits(n).drop_last() =~= Seq::<u8>::empty());
        assert(dec_digits(n).last() == (48 + n) as u8);
        assert(48 + n <= 57);
        assert(digit_val((48 + n) as u8) == n);
        assert(dec_val(dec_digits(n)) == 10 * dec_val(dec_digits(n).drop_last()) + digit_val(
            dec_digits(n).last(),
        ));
        assert(dec_val(dec_digits(n)) == n);
    } else {
        lemma_dec_val_of_dec_digits(n / 10);
        assert(dec_digits(n).drop_last() =~= dec_digits(n / 10));
        assert(dec_digits(n).last() == (48 + n % 10) as u8);
        assert(n % 10 < 10) by (nonlinear_arith);
        assert(digit_val((48 + n % 10) as u8) == n % 10);
        assert(dec_val(dec_digits(n)) == 10 * dec_val(dec_digits(n).drop_last()) + digit_val(
            dec_digits(n).last(),
        ));
        vstd::arithmetic::div_mod::lemma_fundamental_div_mod(n as int, 10);
        assert(dec_val(dec_digits(n)) == 10 * (n / 10) + n % 10);
        assert(dec_val(dec_digits(n)) == n);
    }
}

/// A digit run stops exactly at the first non-digit: prepending digits to a
/// sequence that does not start with a digit gives a run of exactly their count.
pub proof fn lemma_digit_run_of_concat(a: Seq<u8>, b: Seq<u8>)
    requires
        forall|i: int| 0 <= i < a.len() ==> is_digit(#[trigger] a[i]),
        b.len() == 0 || !is_digit(b[0]),
    ensures
        digit_run(a + b) == a.len(),
    decreases a.len(),
{
    if a.len() == 0 {
        assert(a + b =~= b);
    } else {
        assert((a + b)[0] == a[0]);
        assert((a + b).skip(1) =~= a.skip(1) + b);
        lemma_digit_run_of_concat(a.skip(1), b);
    }
}

/// The value of a digit sequence is at least the value of any of its prefixes.
pub proof fn lemma_dec_val_prefix_le(s: Seq<u8>, j: int)
    requires
        0 <= j <= s.len(),
    ensures
        dec_val(s.take(j)) <= dec_val(s),
    decreases s.len(),
{
    if j < s.len() {
        assert(s.drop_last().take(j) =~= s.take(j));
        lemma_dec_val_prefix_le(s.drop_last(), j);
    } else {
        assert(s.take(j) =~= s);
    }
}

/// Converts a number to its ASCII decimal digits.
pub fn u128_to_dec(n: u128) -> (r: Vec<u8>)
    ensures
        r@ == dec_digits(n as nat),
    decreases n,
{
    if n < 10 {
        let mut r: Vec<u8> = Vec::new();
        r.push(48 + n as u8);
        assert(r@ =~= dec_digits(n as nat));
        r
    } else {
        assert(n / 10 < n) by (nonlinear_arith)
            requires n >= 10,
        ;
        let mut r = u128_to_dec(n / 10);
        r.push(48 + (n % 10) as u8);
        assert(r@ =~= dec_digits(n as nat));
        r
    }
}

/// Reads the decimal number starting at position `i`: returns its value and the
/// position just past it, or `None` when there is no digit there or the value
/// does not fit in a `u128`.
pub fn scan_dec_u128(s: &Vec<u8>, i: usize) -> (r: Option<(u128, usize)>)
    requires
        i <= s@.len(),
    ensures
        ({
            let run = digit_run(s@.skip(i as int));
            match r {
                Some((v, j)) => {
                    &&& run >= 1
                    &&& j == i + run
                    &&& j <= s@.len()
                    &&& v as nat == dec_val(s@.skip(i as int).take(run as int))
                },
                None => run == 0 || dec_val(s@.skip(i as int).take(run as int)) > u128::MAX,
            }
        }),
{
    let ghost whole = s@.skip(i as int);
    // First find the extent of the digit run.
    let mut j: usize = i;
    while j < s.len() && 48 <= s[j] && s[j] <= 57
        invariant
            i <= j <= s@.len(),
            digit_run(s@.skip(i as int)) == (j - i) + digit_run(s@.skip(j as int)),
            forall|k: int| i <= k < j ==> is_digit(#[trigger] s@[k]),
        decreases s@.len() - j,
    {
        proof {
            assert(s@.skip(j as int)[0] == s@[j as int]);
            assert(s@.skip(j as int).skip(1) =~= s@.skip(j + 1));
        }
        j += 1;
    }
    proof {
        if j < s@.len() {
            assert(s@.skip(j as int)[0] == s@[j as int]);
        }
        assert(digit_run(s@.skip(j as int)) == 0);
        assert(digit_run(whole) == j - i);
    }
    if j == i {
        return None;
    }
    // Then accumulate the value, watching for overflow.
    let mut v: u128 = 0;
    let mut k: usize = i;
    while k < j
        invariant
            i <= k <= j <= s@.len(),
            digit_run(whole) == j - i,
            whole == s@.skip(i as int),
            forall|t: int| i <= t < j ==> is_digit(#[trigger] s@[t]),
            v as nat == dec_val(whole.take(k - i)),
        decreases j - k,
    {
        let d: u8 = s[k] - 48;
        proof {
            assert(whole.take(k + 1 - i) =~= whole.take(k - i).push(s@[k as int]));
            assert(whole.take(k + 1 - i).drop_last() =~= whole.take(k - i));
            assert(dec_val(whole.take(k + 1 - i)) == 10 * (v as nat) + digit_val(s@[k as int]));
        }
        let step = match v.checked_mul(10) {
            Some(m) => m.checked_add(d as u128),
            None => None,
        };
        match step {
            Some(nv) => {
                v = nv;
            },
            None => {
                proof {
                    assert(dec_val(whole.take(k + 1 - i)) > u128::MAX);
                    assert(whole.len() == s@.len() - i);
                    assert(j - i <= whole.len());
                    assert(whole.take(j - i).len() == j - i);
                    lemma_dec_val_prefix_le(whole.take(j - i), k + 1 - i);
                    assert(whole.take(j - i).take(k + 1 - i) =~= whole.take(k + 1 - i));
                }
                return None;
            },
        }
        k += 1;
    }
    proof {
        assert(v as nat == dec_val(whole.take(j - i)));
    }
    Some((v, j))
}

} // verus!
