//! The CAS number value type: construction by validation, canonical
//! rendering, and byte-wise equality, ordering and hashing over the stored
//! text.

use vstd::prelude::*;
use core::cmp::Ordering;
use crate::grammar::{valid_cas, validate};

verus! {

/// A validated CAS Registry Number. The sole attribute is the canonical
/// text, a sequence of ASCII digits and two hyphens; it is stored verbatim
/// and never normalized.
#[derive(Debug)]
pub struct CasNumber {
    text: Vec<u8>,
}

/// The error raised when an input is rejected: it carries the offending
/// input verbatim for diagnostic display.
#[derive(Debug)]
pub struct InvalidCasNumber {
    pub input: Vec<u8>,
}

impl View for CasNumber {
    type V = Seq<u8>;

    closed spec fn view(&self) -> Seq<u8> {
        self.text@
    }
}

/// What parsing yields on each input: the text itself when it is a valid
/// CAS number, and nothing otherwise.
pub open spec fn spec_parse(t: Seq<u8>) -> Option<Seq<u8>> {
    if valid_cas(t) {
        Option::Some(t)
    } else {
        Option::None
    }
}

/// Byte-wise lexicographic comparison: `-1`, `0` or `1` as `a` sorts before,
/// equal to, or after `b`. A proper prefix sorts before its extensions.
pub open spec fn lex_cmp(a: Seq<u8>, b: Seq<u8>) -> int
    decreases a.len(),
{
    if a.len() == 0 && b.len() == 0 {
        0
    } else if a.len() == 0 {
        -1
    } else if b.len() == 0 {
        1
    } else if a[0] < b[0] {
        -1
    } else if a[0] > b[0] {
        1
    } else {
        lex_cmp(a.skip(1), b.skip(1))
    }
}

/// The hash of a text: a fold over the bytes, multiplying by 31 and reducing
/// modulo 2^32 at each step, starting from 0.
pub open spec fn hash_acc(s: Seq<u8>, h: int) -> int
    decreases s.len(),
{
    if s.len() == 0 {
        h
    } else {
        hash_acc(s.skip(1), (h * 31 + s[0]) % 0x1_0000_0000)
    }
}

/// The hash of the canonical text, a function of the bytes alone.
pub open spec fn spec_hash(s: Seq<u8>) -> int {
    hash_acc(s, 0)
}

fn copy_bytes(s: &[u8]) -> (v: Vec<u8>)
    ensures
        v@ == s@,
{
    let n = s.len();
    let mut v: Vec<u8> = Vec::new();
    let mut i: usize = 0;
    proof {
        assert(v@ =~= s@.subrange(0, 0));
    }
    while i < n
        invariant
            0 <= i <= n,
            n == s@.len(),
            v@ == s@.subrange(0, i as int),
        decreases n - i,
    {
        v.push(s[i]);
        assert(v@ =~= s@.subrange(0, i + 1));
        i = i + 1;
    }
    proof {
        assert(s@.subrange(0, n as int) =~= s@);
    }
    v
}

impl CasNumber {
    /// The stored text is in the grammar and carries a correct check digit.
    pub open spec fn wf(&self) -> bool {
        valid_cas(self@)
    }

    /// Wraps text that the caller has already laid out in the canonical
    /// digits-and-hyphens form; the text is stored verbatim.
    pub(crate) fn from_canonical(text: Vec<u8>) -> (c: CasNumber)
        ensures
            c@ == text@,
    {
        CasNumber { text }
    }

    /// Converts external bytes into a CAS number. Succeeds exactly on the
    /// valid texts and stores the accepted text verbatim; a rejected input
    /// comes back verbatim inside the error.
    pub fn parse(text: &[u8]) -> (r: Result<CasNumber, InvalidCasNumber>)
        ensures
            match r {
                Ok(c) => valid_cas(text@) && c.wf() && c@ == text@,
                Err(e) => !valid_cas(text@) && e.input@ == text@,
            },
    {
        if validate(text) {
            Ok(CasNumber { text: copy_bytes(text) })
        } else {
            Err(InvalidCasNumber { input: copy_bytes(text) })
        }
    }

    /// Serializes to the canonical form: the stored text, unmodified.
    pub fn render(&self) -> (r: Vec<u8>)
        ensures
            r@ == self@,
    {
        copy_bytes(self.text.as_slice())
    }

    /// Byte-wise equality of the canonical texts.
    pub fn equal(&self, other: &CasNumber) -> (r: bool)
        ensures
            r == (self@ == other@),
    {
        proof {
            lemma_lex_cmp_eq(self@, other@);
        }
        match self.compare(other) {
            Ordering::Equal => true,
            _ => false,
        }
    }

    /// Byte-wise lexicographic comparison of the canonical texts.
    pub fn compare(&self, other: &CasNumber) -> (r: Ordering)
        ensures
            (r == Ordering::Less <==> lex_cmp(self@, other@) == -1),
            (r == Ordering::Equal <==> lex_cmp(self@, other@) == 0),
            (r == Ordering::Greater <==> lex_cmp(self@, other@) == 1),
    {
        let alen = self.text.len();
        let blen = other.text.len();
        let n = if alen < blen {
            alen
        } else {
            blen
        };
        let mut i: usize = 0;
        proof {
            assert(self@.skip(0) =~= self@);
            assert(other@.skip(0) =~= other@);
        }
        while i < n
            invariant
                0 <= i <= n,
                alen == self@.len(),
                blen == other@.len(),
                n == if alen < blen { alen as int } else { blen as int },
                lex_cmp(self@, other@) == lex_cmp(self@.skip(i as int), other@.skip(i as int)),
            decreases n - i,
        {
            let a = self.text[i];
            let b = other.text[i];
            proof {
                lemma_lex_cmp_step(self@, other@, i as int);
            }
            if a < b {
                return Ordering::Less;
            }
            if a > b {
                return Ordering::Greater;
            }
            i = i + 1;
        }
        proof {
            if alen == blen {
                assert(self@.skip(n as int).len() == 0);
                assert(other@.skip(n as int).len() == 0);
            }
        }
        if alen == blen {
            Ordering::Equal
        } else if alen < blen {
            Ordering::Less
        } else {
            Ordering::Greater
        }
    }

    /// A fixed-width hash of the canonical text, a function of its bytes
    /// alone.
    pub fn hash(&self) -> (h: u64)
        ensures
            h == spec_hash(self@),
    {
        let n = self.text.len();
        let mut h: u64 = 0;
        let mut i: usize = 0;
        proof {
            assert(self@.skip(0) =~= self@);
        }
        while i < n
            invariant
                0 <= i <= n,
                n == self@.len(),
                h < 0x1_0000_0000,
                hash_acc(self@.skip(i as int), h as int) == spec_hash(self@),
            decreases n - i,
        {
            proof {
                lemma_hash_acc_skip(self@, i as int, h as int);
            }
            let b = self.text[i];
            h = (h * 31 + b as u64) % 0x1_0000_0000;
            i = i + 1;
        }
        proof {
            assert(self@.skip(n as int) =~= Seq::<u8>::empty());
        }
        h
    }
}

impl PartialEq for CasNumber {
    fn eq(&self, other: &CasNumber) -> (r: bool) {
        self.equal(other)
    }
}

impl vstd::std_specs::cmp::PartialEqSpecImpl for CasNumber {
    open spec fn obeys_eq_spec() -> bool {
        true
    }

    open spec fn eq_spec(&self, other: &CasNumber) -> bool {
        self@ == other@
    }
}

proof fn lemma_lex_cmp_step(a: Seq<u8>, b: Seq<u8>, i: int)
    requires
        0 <= i < a.len(),
        0 <= i < b.len(),
    ensures
        lex_cmp(a.skip(i), b.skip(i)) == if a[i] < b[i] {
            -1
        } else if a[i] > b[i] {
            1
        } else {
            lex_cmp(a.skip(i + 1), b.skip(i + 1))
        },
{
    assert(a.skip(i)[0] == a[i]);
    assert(b.skip(i)[0] == b[i]);
    assert(a.skip(i).skip(1) =~= a.skip(i + 1));
    assert(b.skip(i).skip(1) =~= b.skip(i + 1));
}

proof fn lemma_hash_acc_skip(s: Seq<u8>, i: int, h: int)
    requires
        0 <= i < s.len(),
    ensures
        hash_acc(s.skip(i), h) == hash_acc(s.skip(i + 1), (h * 31 + s[i]) % 0x1_0000_0000),
{
    assert(s.skip(i)[0] == s[i]);
    assert(s.skip(i).skip(1) =~= s.skip(i + 1));
}

/// Comparison refines equality: two texts compare as equal exactly when they
/// are the same sequence of bytes.
pub proof fn lemma_lex_cmp_eq(a: Seq<u8>, b: Seq<u8>)
    ensures
        (lex_cmp(a, b) == 0) <==> (a == b),
    decreases a.len(),
{
    if a.len() == 0 && b.len() == 0 {
        assert(a =~= b);
    } else if a.len() == 0 || b.len() == 0 {
        assert(a.len() != b.len());
    } else if a[0] == b[0] {
        lemma_lex_cmp_eq(a.skip(1), b.skip(1));
        if a.skip(1) == b.skip(1) {
            assert forall|i: int| 0 <= i < a.len() implies a[i] == b[i] by {
                if i >= 1 {
                    assert(a[i] == a.skip(1)[i - 1]);
                    assert(b[i] == b.skip(1)[i - 1]);
                }
            }
            assert(a =~= b);
        } else {
            if a == b {
                assert(a.skip(1) =~= b.skip(1));
            }
        }
    } else {
        if a == b {
            assert(a[0] == b[0]);
        }
    }
}

/// Comparison is antisymmetric: swapping the arguments flips the sign.
pub proof fn lemma_lex_cmp_antisym(a: Seq<u8>, b: Seq<u8>)
    ensures
        lex_cmp(a, b) == -lex_cmp(b, a),
    decreases a.len(),
{
    if a.len() > 0 && b.len() > 0 && a[0] == b[0] {
        lemma_lex_cmp_antisym(a.skip(1), b.skip(1));
    }
}

/// Comparison is transitive, so it orders the values totally.
pub proof fn lemma_lex_cmp_trans(a: Seq<u8>, b: Seq<u8>, c: Seq<u8>)
    requires
        lex_cmp(a, b) <= 0,
        lex_cmp(b, c) <= 0,
    ensures
        lex_cmp(a, c) <= 0,
    decreases a.len(),
{
    if a.len() > 0 && b.len() > 0 && c.len() > 0 && a[0] == c[0] {
        if a[0] == b[0] {
            lemma_lex_cmp_trans(a.skip(1), b.skip(1), c.skip(1));
        }
    }
}

/// Parsing accepts exactly the valid texts and stores the accepted text
/// verbatim, so rendering a parsed value reproduces the input unchanged:
/// parse then render is the identity on the valid domain.
pub proof fn lemma_parse_render_identity(t: Seq<u8>)
    requires
        valid_cas(t),
    ensures
        spec_parse(t) == Option::Some(t),
{
}

/// A well-formed value's text is valid, so its rendering parses back to an
/// equal value: render then parse is the identity on well-formed values.
pub proof fn lemma_render_parse_round_trip(c: CasNumber)
    requires
        c.wf(),
    ensures
        spec_parse(c@) == Option::Some(c@),
{
}

} // verus!
