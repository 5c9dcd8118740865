//! Character-level helpers shared by the matchers and the resolver.
//!
//! All matching is defined over sequences of Unicode scalar values, never over
//! bytes, so a multi-byte character can never be split by a scan.

use vstd::prelude::*;
use vstd::string::StrSliceExecFns;

verus! {

/// Collect the Unicode scalar values of a string slice into a vector.
pub(crate) fn chars_vec(s: &str) -> (v: Vec<char>)
    ensures
        v@ == s@,
{
    let len: usize = s.unicode_len();
    let mut v: Vec<char> = Vec::new();
    let mut i: usize = 0;
    while i < len
        invariant
            i <= len,
            len == s@.len(),
            v@ == s@.subrange(0, i as int),
        decreases len - i,
    {
        let c = s.get_char(i);
        v.push(c);
        proof {
            assert(v@ =~= s@.subrange(0, i + 1));
        }
        i = i + 1;
    }
    proof {
        assert(s@.subrange(0, len as int) =~= s@);
    }
    v
}

/// Decide whether the characters of `a` in `[af, at)` equal those of `b` in
/// `[bf, bt)`, position by position.
pub(crate) fn range_eq(
    a: &Vec<char>,
    af: usize,
    at: usize,
    b: &Vec<char>,
    bf: usize,
    bt: usize,
) -> (r: bool)
    requires
        af <= at <= a@.len(),
        bf <= bt <= b@.len(),
    ensures
        r == (a@.subrange(af as int, at as int) == b@.subrange(bf as int, bt as int)),
{
    let ghost sa = a@.subrange(af as int, at as int);
    let ghost sb = b@.subrange(bf as int, bt as int);
    if at - af != bt - bf {
        proof {
            assert(sa.len() != sb.len());
        }
        return false;
    }
    let n = at - af;
    let mut q: usize = 0;
    while q < n
        invariant
            q <= n,
            n == at - af,
            at - af == bt - bf,
            af <= at <= a@.len(),
            bf <= bt <= b@.len(),
            sa == a@.subrange(af as int, at as int),
            sb == b@.subrange(bf as int, bt as int),
            forall|m: int| af <= m < af + q ==> #[trigger] a@[m] == b@[m + bf - af],
        decreases n - q,
    {
        if a[af + q] != b[bf + q] {
            proof {
                assert(sa[q as int] != sb[q as int]);
            }
            return false;
        }
        q = q + 1;
    }
    proof {
        assert(sa =~= sb);
    }
    true
}

/// Decide whether two string slices hold the same characters.
pub(crate) fn str_eq(a: &str, b: &str) -> (r: bool)
    ensures
        r == (a@ == b@),
{
    let va = chars_vec(a);
    let vb = chars_vec(b);
    let r = range_eq(&va, 0, va.len(), &vb, 0, vb.len());
    proof {
        assert(va@.subrange(0, va@.len() as int) =~= va@);
        assert(vb@.subrange(0, vb@.len() as int) =~= vb@);
    }
    r
}

} // verus!
