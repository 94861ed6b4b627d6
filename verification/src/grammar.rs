//! The CAS number grammar and checksum: specification-level definitions of
//! well-formedness and the executable validator.
//!
//! A CAS number is a first segment of 2 to 7 decimal digits without a leading
//! zero, a hyphen, exactly two digits, a hyphen, and a single check digit.
//! The check digit equals the weighted sum of the other digits modulo 10,
//! where each digit is weighted by its 1-based position counted from the
//! right.

use vstd::prelude::*;

verus! {

/// ASCII `'0'`.
pub const D0: u8 = 48;

/// ASCII `'1'`.
pub const D1: u8 = 49;

/// ASCII `'8'`.
pub const D8: u8 = 56;

/// ASCII `'9'`.
pub const D9: u8 = 57;

/// ASCII `'-'`.
pub const HYPHEN: u8 = 45;

/// An ASCII decimal digit.
pub open spec fn is_digit_byte(c: u8) -> bool {
    D0 <= c && c <= D9
}

/// The numeric value of an ASCII digit.
pub open spec fn digit_val(c: u8) -> int {
    c - D0
}

/// Length of the first segment: everything before the first hyphen. The
/// grammar fixes the tail at five bytes (`-dd-d`), so the text's length
/// determines it.
pub open spec fn first_seg_len(s: Seq<u8>) -> int {
    s.len() - 5
}

/// The text matches the grammar: a leading digit `1..9`, then 1 to 6 more
/// digits, a hyphen, two digits, a hyphen, and one digit.
pub open spec fn grammar_ok(s: Seq<u8>) -> bool {
    let k = first_seg_len(s);
    &&& 7 <= s.len() && s.len() <= 12
    &&& D1 <= s[0] && s[0] <= D9
    &&& (forall|i: int| 1 <= i < k ==> is_digit_byte(#[trigger] s[i]))
    &&& s[k] == HYPHEN
    &&& is_digit_byte(s[k + 1])
    &&& is_digit_byte(s[k + 2])
    &&& s[k + 3] == HYPHEN
    &&& is_digit_byte(s[k + 4])
}

/// All digits of the text except the final check digit, hyphens removed,
/// in left-to-right order.
pub open spec fn payload(s: Seq<u8>) -> Seq<u8> {
    let k = first_seg_len(s);
    s.subrange(0, k) + s.subrange(k + 1, k + 3)
}

/// Weighted digit sum: each digit multiplied by its 1-based position counted
/// from the right, so the head of a sequence of length `n` carries weight `n`.
pub open spec fn wsum(d: Seq<u8>) -> int
    decreases d.len(),
{
    if d.len() == 0 {
        0
    } else {
        d.len() * digit_val(d[0]) + wsum(d.skip(1))
    }
}

/// The trailing check digit equals the weighted sum of the payload modulo 10.
pub open spec fn checksum_ok(s: Seq<u8>) -> bool {
    wsum(payload(s)) % 10 == digit_val(s[s.len() - 1])
}

/// A well-formed CAS number text: in the grammar, with a correct checksum.
pub open spec fn valid_cas(s: Seq<u8>) -> bool {
    grammar_ok(s) && checksum_ok(s)
}

/// Peeling one digit off the front of a suffix: the weighted sum of the
/// suffix starting at `i` is that digit times its from-the-right weight plus
/// the weighted sum of the suffix starting at `i + 1`.
pub proof fn lemma_wsum_skip(d: Seq<u8>, i: int)
    requires
        0 <= i < d.len(),
    ensures
        wsum(d.skip(i)) == (d.len() - i) * digit_val(d[i]) + wsum(d.skip(i + 1)),
{
    assert(d.skip(i).len() == d.len() - i);
    assert(d.skip(i)[0] == d[i]);
    assert(d.skip(i).skip(1) =~= d.skip(i + 1));
}

/// Computes the weighted digit sum of a sequence of ASCII digits.
pub fn checksum_of(digits: &[u8]) -> (s: u32)
    requires
        digits@.len() <= 10,
        forall|i: int| 0 <= i < digits@.len() ==> is_digit_byte(#[trigger] digits@[i]),
    ensures
        s == wsum(digits@),
{
    let m = digits.len();
    let mut acc: u32 = 0;
    let mut j: usize = 0;
    proof {
        assert(digits@.skip(0) =~= digits@);
    }
    while j < m
        invariant
            0 <= j <= m,
            m == digits@.len(),
            m <= 10,
            forall|i: int| 0 <= i < m ==> is_digit_byte(#[trigger] digits@[i]),
            acc + wsum(digits@.skip(j as int)) == wsum(digits@),
            acc <= 90 * j,
        decreases m - j,
    {
        proof {
            lemma_wsum_skip(digits@, j as int);
        }
        assert(is_digit_byte(digits@[j as int]));
        let w = (m - j) as u32;
        let dv = (digits[j] - D0) as u32;
        assert(w * dv <= 90) by (nonlinear_arith)
            requires
                w <= 10,
                dv <= 9,
        ;
        acc = acc + w * dv;
        j = j + 1;
    }
    proof {
        assert(digits@.skip(m as int) =~= Seq::<u8>::empty());
    }
    acc
}

/// Decides whether a byte string is a well-formed CAS number: in the grammar
/// of this module, with a correct check digit. Accepts arbitrary input.
pub fn validate(s: &[u8]) -> (b: bool)
    ensures
        b == valid_cas(s@),
{
    let n = s.len();
    if n < 7 || n > 12 {
        return false;
    }
    let k = n - 5;
    if !(D1 <= s[0] && s[0] <= D9) {
        return false;
    }
    let mut i: usize = 1;
    while i < k
        invariant
            1 <= i <= k,
            k == n - 5,
            n == s@.len(),
            7 <= n <= 12,
            forall|j: int| 1 <= j < i ==> is_digit_byte(#[trigger] s@[j]),
        decreases k - i,
    {
        if !(D0 <= s[i] && s[i] <= D9) {
            return false;
        }
        i = i + 1;
    }
    if s[k] != HYPHEN {
        return false;
    }
    if !(D0 <= s[k + 1] && s[k + 1] <= D9) {
        return false;
    }
    if !(D0 <= s[k + 2] && s[k + 2] <= D9) {
        return false;
    }
    if s[k + 3] != HYPHEN {
        return false;
    }
    if !(D0 <= s[k + 4] && s[k + 4] <= D9) {
        return false;
    }
    let mut pay: Vec<u8> = Vec::new();
    let mut i: usize = 0;
    while i < k
        invariant
            0 <= i <= k,
            k == n - 5,
            n == s@.len(),
            7 <= n <= 12,
            pay@ == s@.subrange(0, i as int),
        decreases k - i,
    {
        pay.push(s[i]);
        assert(pay@ =~= s@.subrange(0, i + 1));
        i = i + 1;
    }
    pay.push(s[k + 1]);
    pay.push(s[k + 2]);
    proof {
        assert(pay@ =~= payload(s@));
        assert forall|j: int| 0 <= j < pay@.len() implies is_digit_byte(#[trigger] pay@[j]) by {
            if j < k {
                assert(pay@[j] == s@[j]);
            }
        }
    }
    let c = checksum_of(pay.as_slice());
    c % 10 == (s[n - 1] - D0) as u32
}

} // verus!
