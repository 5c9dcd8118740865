//! The two filename predicates: expansion and extension change.
//!
//! Both operate on the names' Unicode scalar values. An *expansion* keeps all
//! of the old name as a matched prefix plus a matched suffix, with at least
//! one leading character matched, and strictly adds length in between or at
//! the end. An *extension change* keeps everything before the last separator
//! dot and swaps what follows it.

use vstd::prelude::*;

use crate::text::chars_vec;
use crate::text::range_eq;

verus! {

/// `new` splits at `k` into a prefix taken verbatim from `old` and a suffix
/// taken verbatim from `old`, with the inserted span in between; `k >= 1`
/// demands at least one matched leading character.
pub open spec fn expansion_split_at(old: Seq<char>, new: Seq<char>, k: int) -> bool {
    &&& 1 <= k <= old.len()
    &&& new.subrange(0, k) == old.subrange(0, k)
    &&& new.subrange(new.len() - (old.len() - k), new.len() as int) == old.subrange(
        k,
        old.len() as int,
    )
}

/// `new` is an evolution of `old` by insertion: strictly longer, and every
/// character of `old` survives as part of a matched prefix or matched suffix,
/// with the prefix non-empty (insertion at the very start is not expansion).
pub open spec fn is_expansion(old: Seq<char>, new: Seq<char>) -> bool {
    &&& new.len() > old.len()
    &&& exists|k: int| expansion_split_at(old, new, k)
}

/// Index of the last separator dot in `s`, or `-1` when `s` has none.
pub open spec fn last_dot_index(s: Seq<char>) -> int
    decreases s.len(),
{
    if s.len() == 0 {
        -1
    } else if s[s.len() - 1] == '.' {
        s.len() - 1
    } else {
        last_dot_index(s.drop_last())
    }
}

/// `s` contains at least one separator dot.
pub open spec fn has_dot(s: Seq<char>) -> bool {
    last_dot_index(s) >= 0
}

/// Everything before the last dot; the whole name when there is no dot.
pub open spec fn base_of(s: Seq<char>) -> Seq<char> {
    if has_dot(s) {
        s.subrange(0, last_dot_index(s))
    } else {
        s
    }
}

/// Everything from the last dot (inclusive) to the end; empty when there is
/// no dot.
pub open spec fn ext_of(s: Seq<char>) -> Seq<char> {
    if has_dot(s) {
        s.subrange(last_dot_index(s), s.len() as int)
    } else {
        Seq::empty()
    }
}

/// The two names share an identical base and differ only in the trailing
/// extension; a name without a dot can never take part.
pub open spec fn is_extension_change(old: Seq<char>, new: Seq<char>) -> bool {
    &&& old != new
    &&& has_dot(old)
    &&& has_dot(new)
    &&& base_of(old) == base_of(new)
    &&& ext_of(old) != ext_of(new)
}

/// `last_dot_index` points at a dot, nothing after it is a dot, and it is
/// non-negative exactly when the name contains a dot.
pub proof fn lemma_last_dot_index(s: Seq<char>)
    ensures
        -1 <= last_dot_index(s) < s.len(),
        last_dot_index(s) >= 0 ==> s[last_dot_index(s)] == '.',
        forall|m: int| last_dot_index(s) < m < s.len() ==> s[m] != '.',
        has_dot(s) <==> exists|i: int| 0 <= i < s.len() && s[i] == '.',
    decreases s.len(),
{
    if s.len() == 0 {
    } else if s[s.len() - 1] == '.' {
        assert(0 <= s.len() - 1 < s.len() && s[s.len() - 1] == '.');
    } else {
        let d = s.drop_last();
        lemma_last_dot_index(d);
        assert(forall|m: int| 0 <= m < d.len() ==> d[m] == s[m]);
        assert forall|m: int| last_dot_index(s) < m < s.len() implies s[m] != '.' by {
            if m < s.len() - 1 {
                assert(d[m] != '.');
            }
        }
        if has_dot(s) {
            let i = choose|i: int| 0 <= i < d.len() && d[i] == '.';
            assert(0 <= i < s.len() && s[i] == '.');
        }
        if exists|i: int| 0 <= i < s.len() && s[i] == '.' {
            let i = choose|i: int| 0 <= i < s.len() && s[i] == '.';
            assert(d[i] == '.');
        }
    }
}

/// Find the index of the last dot of `v`, if any.
fn last_dot(v: &Vec<char>) -> (r: Option<usize>)
    ensures
        r matches Some(d) ==> last_dot_index(v@) == d as int,
        r is None ==> last_dot_index(v@) == -1,
{
    let mut j: usize = v.len();
    proof {
        assert(v@.subrange(0, v@.len() as int) =~= v@);
    }
    while j > 0
        invariant
            j <= v@.len(),
            last_dot_index(v@) == last_dot_index(v@.subrange(0, j as int)),
        decreases j,
    {
        if v[j - 1] == '.' {
            proof {
                let sub = v@.subrange(0, j as int);
                assert(sub[sub.len() - 1] == v@[j - 1]);
                assert(last_dot_index(sub) == j - 1);
            }
            return Some(j - 1);
        }
        proof {
            let sub = v@.subrange(0, j as int);
            assert(sub[sub.len() - 1] == v@[j - 1]);
            assert(sub.drop_last() =~= v@.subrange(0, j - 1));
        }
        j = j - 1;
    }
    proof {
        assert(v@.subrange(0, 0) =~= Seq::<char>::empty());
    }
    None
}

/// Decide whether `new` differs from `old` only in the trailing extension:
/// both names contain a dot, the bases before the last dot are identical, and
/// the extensions from the last dot onward differ.
pub fn matches_extension_change(old: &str, new: &str) -> (r: bool)
    ensures
        r == is_extension_change(old@, new@),
{
    let oc = chars_vec(old);
    let nc = chars_vec(new);
    let od = last_dot(&oc);
    let nd = last_dot(&nc);
    match (od, nd) {
        (Some(d1), Some(d2)) => {
            proof {
                lemma_last_dot_index(old@);
                lemma_last_dot_index(new@);
            }
            let base_same = range_eq(&oc, 0, d1, &nc, 0, d2);
            if !base_same {
                return false;
            }
            let ext_same = range_eq(&oc, d1, oc.len(), &nc, d2, nc.len());
            proof {
                if !ext_same {
                    // Bases agree and extensions differ, so the names differ.
                    if old@ == new@ {
                        assert(old@.subrange(d1 as int, old@.len() as int) == new@.subrange(
                            d2 as int,
                            new@.len() as int,
                        ));
                    }
                }
            }
            !ext_same
        },
        _ => {
            proof {
                assert(!(has_dot(old@) && has_dot(new@)));
            }
            false
        },
    }
}

/// Decide whether `new` is an expansion of `old`, by squeezing a cursor pair
/// from both ends: the forward scan finds the longest common prefix, the
/// backward scan the longest common suffix that does not cross it. The pair
/// is accepted when the two scans meet in `old` and the prefix is non-empty.
pub fn matches_expansion(old: &str, new: &str) -> (r: bool)
    ensures
        r == is_expansion(old@, new@),
{
    let oc = chars_vec(old);
    let nc = chars_vec(new);
    let old_len = oc.len();
    let new_len = nc.len();
    if new_len <= old_len {
        return false;
    }
    // Forward scan: longest common prefix.
    let mut i: usize = 0;
    while i < old_len && oc[i] == nc[i]
        invariant
            i <= old_len,
            old_len < new_len,
            oc@ == old@,
            nc@ == new@,
            old_len == old@.len(),
            new_len == new@.len(),
            forall|m: int| 0 <= m < i ==> old@[m] == new@[m],
        decreases old_len - i,
    {
        i = i + 1;
    }
    // Backward scan: longest common suffix that stays right of the prefix.
    let diff = new_len - old_len;
    let mut j: usize = old_len;
    while j > i && oc[j - 1] == nc[j - 1 + diff]
        invariant
            i <= j <= old_len,
            old_len < new_len,
            diff == new_len - old_len,
            oc@ == old@,
            nc@ == new@,
            old_len == old@.len(),
            new_len == new@.len(),
            forall|m: int| j <= m < old_len ==> #[trigger] old@[m] == new@[m + diff],
        decreases j,
    {
        j = j - 1;
    }
    let r = i == j && i > 0;
    proof {
        let o = old@;
        let n = new@;
        if r {
            // The meeting point itself is a witness split.
            assert(n.subrange(0, i as int) =~= o.subrange(0, i as int));
            assert(n.subrange(n.len() - (o.len() - i), n.len() as int) =~= o.subrange(
                i as int,
                o.len() as int,
            ));
            assert(expansion_split_at(o, n, i as int));
        } else {
            assert forall|k: int| !expansion_split_at(o, n, k) by {
                if expansion_split_at(o, n, k) {
                    if k > i {
                        // The prefix of length k would extend the forward match
                        // past its maximal point.
                        assert(n.subrange(0, k)[i as int] == o.subrange(0, k)[i as int]);
                        assert(false);
                    }
                    // Now 1 <= k <= i, so i > 0 and the backward scan stopped
                    // on a mismatch at j - 1, inside the k-suffix of old.
                    assert(j > i);
                    assert(o.subrange(k, o.len() as int)[j - 1 - k] == n.subrange(
                        n.len() - (o.len() - k),
                        n.len() as int,
                    )[j - 1 - k]);
                    assert(o[j - 1] == n[j - 1 + diff]);
                    assert(false);
                }
            }
        }
    }
    r
}

/// Length monotonicity: an accepted expansion is strictly longer than the
/// name it expands, counted in characters.
pub proof fn lemma_expansion_length_monotone(old: Seq<char>, new: Seq<char>)
    requires
        is_expansion(old, new),
    ensures
        new.len() > old.len(),
{
}

/// No-start-insertion: a name formed by prepending characters to `old` is not
/// an expansion of `old`, whenever the prepended run does not itself begin
/// with `old`'s first character (in that case the same name also arises by
/// insertion further right, which is an expansion).
pub proof fn lemma_no_start_insertion(old: Seq<char>, prefix: Seq<char>)
    requires
        old.len() > 0,
        prefix.len() >= 1,
        prefix[0] != old[0],
    ensures
        !is_expansion(old, prefix + old),
{
    let new = prefix + old;
    assert(new[0] == prefix[0]);
    assert forall|k: int| !expansion_split_at(old, new, k) by {
        if expansion_split_at(old, new, k) {
            assert(new.subrange(0, k)[0] == old.subrange(0, k)[0]);
            assert(false);
        }
    }
}

/// Consumed-prefix invariant: for an accepted expansion pair, the whole of
/// `old` past the maximal common prefix is matched as a suffix of `new` — no
/// unmatched interior segment of `old` survives. Here `p` is characterized as
/// the length of the longest common prefix.
pub proof fn lemma_consumed_prefix(old: Seq<char>, new: Seq<char>, p: int)
    requires
        is_expansion(old, new),
        0 <= p <= old.len(),
        new.subrange(0, p) == old.subrange(0, p),
        p == old.len() || old[p] != new[p],
    ensures
        1 <= p,
        new.subrange(new.len() - (old.len() - p), new.len() as int) == old.subrange(
            p,
            old.len() as int,
        ),
{
    let k = choose|k: int| expansion_split_at(old, new, k);
    assert(expansion_split_at(old, new, k));
    if k > p {
        assert(new.subrange(0, k)[p] == old.subrange(0, k)[p]);
        assert(false);
    }
    let diff = new.len() - old.len();
    assert forall|m: int| p <= m < old.len() implies #[trigger] old[m] == new[m + diff] by {
        assert(old.subrange(k, old.len() as int)[m - k] == new.subrange(
            new.len() - (old.len() - k),
            new.len() as int,
        )[m - k]);
    }
    assert(new.subrange(new.len() - (old.len() - p), new.len() as int) =~= old.subrange(
        p,
        old.len() as int,
    ));
}

/// Extension-change base equality: for an accepted extension-change pair, the
/// characters before each name's final dot are identical and the characters
/// from each final dot onward differ.
pub proof fn lemma_extension_change_base_equality(old: Seq<char>, new: Seq<char>)
    requires
        is_extension_change(old, new),
    ensures
        has_dot(old),
        has_dot(new),
        old.subrange(0, last_dot_index(old)) == new.subrange(0, last_dot_index(new)),
        old.subrange(last_dot_index(old), old.len() as int) != new.subrange(
            last_dot_index(new),
            new.len() as int,
        ),
{
}

/// Both-extensionless rejection: a name without a dot can never take part in
/// an extension change, on either side.
pub proof fn lemma_extensionless_rejection(old: Seq<char>, new: Seq<char>)
    requires
        !has_dot(old) || !has_dot(new),
    ensures
        !is_extension_change(old, new),
{
}

} // verus!
