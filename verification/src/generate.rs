//! The random CAS number generator: draws a first-segment length and digits
//! from a process-scoped pseudorandom source and appends the check digit
//! that closes the checksum equation.
//!
//! The digit ranges are deliberately kept as deployed: the first segment is
//! 4 to 8 digits long, and every digit comes from `0..=8` (the leading one
//! from `1..=8`). A first segment of eight digits exceeds the grammar's
//! bound of seven, so such a draw — and only such a draw — yields a text
//! that the validator rejects.

use vstd::prelude::*;
use rand::Rng;
use crate::grammar::{
    D0, D1, D8, HYPHEN, checksum_of, checksum_ok, first_seg_len, grammar_ok, is_digit_byte,
    payload, valid_cas,
};
use crate::value::CasNumber;

verus! {

/// The shape every generated text has: the grammar's layout with a first
/// segment of 4 to 8 digits, every digit drawn from `0..=8` (the first from
/// `1..=8`), and a correct check digit.
pub open spec fn gen_shape(s: Seq<u8>) -> bool {
    let k = first_seg_len(s);
    &&& 9 <= s.len() && s.len() <= 13
    &&& D1 <= s[0] && s[0] <= D8
    &&& (forall|i: int| 1 <= i < k ==> D0 <= #[trigger] s[i] && s[i] <= D8)
    &&& s[k] == HYPHEN
    &&& D0 <= s[k + 1] && s[k + 1] <= D8
    &&& D0 <= s[k + 2] && s[k + 2] <= D8
    &&& s[k + 3] == HYPHEN
    &&& is_digit_byte(s[k + 4])
    &&& checksum_ok(s)
}

/// A generated text whose first segment stays within the grammar's bound of
/// seven digits is a valid CAS number, so it parses back from its rendering
/// to an equal value.
pub proof fn lemma_gen_shape_valid(s: Seq<u8>)
    requires
        gen_shape(s),
        s.len() <= 12,
    ensures
        valid_cas(s),
{
    let k = first_seg_len(s);
    assert forall|i: int| 1 <= i < k implies is_digit_byte(#[trigger] s[i]) by {
        assert(D0 <= s[i] && s[i] <= D8);
    }
    assert(grammar_ok(s));
}

/// Relies on rand::thread_rng and rand::Rng::gen_range: the sample lies in
/// the half-open range `lo..hi`, and only an empty range panics.
#[verifier::external_body]
fn random_in_range(lo: u32, hi: u32) -> (r: u32)
    requires
        lo < hi,
    ensures
        lo <= r < hi,
{
    rand::thread_rng().gen_range(lo..hi)
}

/// One random decimal digit, drawn from `0..=8` — or from `1..=8` when the
/// leading zero is excluded.
fn random_digit(exclude_zero: bool) -> (d: u8)
    ensures
        d <= 8,
        exclude_zero ==> 1 <= d,
{
    if exclude_zero {
        random_in_range(1, 9) as u8
    } else {
        random_in_range(0, 9) as u8
    }
}

/// Produces a fresh CAS number from the process's pseudorandom source.
/// Whatever was drawn, the result has the generated shape; whenever the
/// drawn first segment stays within the grammar's bound of seven digits,
/// the result is well-formed.
pub fn random_cas_number() -> (c: CasNumber)
    ensures
        gen_shape(c@),
        c@.len() <= 12 ==> c.wf(),
{
    let base = random_in_range(4, 9) as usize;
    let mut digits: Vec<u8> = Vec::new();
    let mut i: usize = 0;
    while i < base + 2
        invariant
            0 <= i <= base + 2,
            4 <= base <= 8,
            digits@.len() == i,
            forall|j: int| 0 <= j < i ==> D0 <= #[trigger] digits@[j] && digits@[j] <= D8,
            i > 0 ==> D1 <= digits@[0],
        decreases base + 2 - i,
    {
        let d = random_digit(i == 0);
        digits.push(D0 + d);
        i = i + 1;
    }
    let c = checksum_of(digits.as_slice());
    let mut text: Vec<u8> = Vec::new();
    let mut i: usize = 0;
    proof {
        assert(text@ =~= digits@.subrange(0, 0));
    }
    while i < base
        invariant
            0 <= i <= base,
            4 <= base <= 8,
            digits@.len() == base + 2,
            forall|j: int| 0 <= j < base + 2 ==> D0 <= #[trigger] digits@[j] && digits@[j] <= D8,
            D1 <= digits@[0],
            text@ == digits@.subrange(0, i as int),
        decreases base - i,
    {
        text.push(digits[i]);
        assert(text@ =~= digits@.subrange(0, i + 1));
        i = i + 1;
    }
    text.push(HYPHEN);
    text.push(digits[base]);
    text.push(digits[base + 1]);
    text.push(HYPHEN);
    let check = (c % 10) as u8;
    text.push(D0 + check);
    proof {
        let t = text@;
        let k = first_seg_len(t);
        assert(forall|j: int| 0 <= j < base ==> t[j] == digits@[j]);
        assert forall|j: int| 0 <= j < base + 2 implies payload(t)[j] == digits@[j] by {
            if j < k {
                assert(t.subrange(0, k)[j] == t[j]);
            } else {
                assert(t.subrange(k + 1, k + 3)[j - k] == t[j + 1]);
            }
        }
        assert(payload(t) =~= digits@);
        assert(gen_shape(t));
        if t.len() <= 12 {
            lemma_gen_shape_valid(t);
        }
    }
    CasNumber::from_canonical(text)
}

} // verus!
