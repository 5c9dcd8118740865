//! Candidate resolution: apply both predicates, in both directions, to a
//! directory listing, and decide on at most one rename.
//!
//! The resolver is a pure function of its inputs: the bare target filename,
//! the force flag, whether the target already exists, and the directory
//! listing as `(filename, is_regular_file)` entries. Listing the directory,
//! probing for the target, and performing the rename belong to the
//! surrounding I/O layer.

use vstd::prelude::*;

use crate::matching::is_expansion;
use crate::matching::is_extension_change;
use crate::matching::matches_expansion;
use crate::matching::matches_extension_change;
use crate::text::str_eq;

verus! {

/// One directory entry: its bare filename and whether it is a regular file.
#[derive(Debug, Clone, PartialEq, Eq)]
pub struct DirEntry {
    pub name: String,
    pub is_regular: bool,
}

/// The resolved outcome: rename exactly this source to this destination.
#[derive(Debug, Clone, PartialEq, Eq)]
pub struct RenameIntent {
    pub source: String,
    pub destination: String,
}

/// Why a resolution refused or failed. Every kind is surfaced to the caller;
/// none is retried.
#[derive(Debug, Clone, PartialEq, Eq)]
pub enum RenameError {
    /// The target string has no extractable filename component.
    InvalidPath,
    /// The directory could not be opened, canonicalized, or fully read.
    DirectoryUnreadable(String),
    /// The destination already exists and force was not requested.
    TargetExists,
    /// No directory entry relates to the target under either predicate.
    NoMatch,
    /// Two or more entries qualify; all their names, in listing order.
    Ambiguous(Vec<String>),
    /// The underlying filesystem rename reported an error, kept verbatim.
    RenameFailed(String),
}

/// An entry qualifies as a candidate when it is a regular file, does not
/// already bear the target name, and relates to the target under either
/// predicate in either direction.
pub open spec fn qualifies(e: DirEntry, target: Seq<char>) -> bool {
    &&& e.is_regular
    &&& e.name@ != target
    &&& {
        ||| is_expansion(e.name@, target)
        ||| is_expansion(target, e.name@)
        ||| is_extension_change(e.name@, target)
        ||| is_extension_change(target, e.name@)
    }
}

/// The names of the qualifying entries, in listing order.
pub open spec fn candidates_of(entries: Seq<DirEntry>, target: Seq<char>) -> Seq<Seq<char>>
    decreases entries.len(),
{
    if entries.len() == 0 {
        Seq::empty()
    } else {
        let prior = candidates_of(entries.drop_last(), target);
        if qualifies(entries.last(), target) {
            prior.push(entries.last().name@)
        } else {
            prior
        }
    }
}

/// A listing with no qualifying entry yields no candidate.
pub proof fn lemma_no_qualifiers_empty(entries: Seq<DirEntry>, target: Seq<char>)
    requires
        forall|j: int| 0 <= j < entries.len() ==> !qualifies(entries[j], target),
    ensures
        candidates_of(entries, target) == Seq::<Seq<char>>::empty(),
    decreases entries.len(),
{
    if entries.len() > 0 {
        let prior = entries.drop_last();
        assert(forall|j: int| 0 <= j < prior.len() ==> prior[j] == entries[j]);
        lemma_no_qualifiers_empty(prior, target);
        assert(entries.last() == entries[entries.len() - 1]);
    }
}

/// Every qualifying entry's name appears among the candidates.
pub proof fn lemma_candidates_contains(entries: Seq<DirEntry>, target: Seq<char>, i: int)
    requires
        0 <= i < entries.len(),
        qualifies(entries[i], target),
    ensures
        candidates_of(entries, target).contains(entries[i].name@),
        candidates_of(entries, target).len() >= 1,
    decreases entries.len(),
{
    let prior = entries.drop_last();
    assert(forall|j: int| 0 <= j < prior.len() ==> prior[j] == entries[j]);
    assert(entries.last() == entries[entries.len() - 1]);
    if i == entries.len() - 1 {
        let cands = candidates_of(entries, target);
        assert(cands[cands.len() - 1] == entries[i].name@);
    } else {
        lemma_candidates_contains(prior, target, i);
        let pc = candidates_of(prior, target);
        let w = choose|w: int| 0 <= w < pc.len() && pc[w] == entries[i].name@;
        assert(candidates_of(entries, target)[w] == entries[i].name@);
    }
}

/// Resolver uniqueness: when exactly one entry of the listing qualifies, the
/// candidate set is exactly that entry's name, so resolution (with the target
/// absent or force on) renames exactly that file and touches nothing else.
pub proof fn lemma_resolver_uniqueness(entries: Seq<DirEntry>, target: Seq<char>, i: int)
    requires
        0 <= i < entries.len(),
        qualifies(entries[i], target),
        forall|j: int| 0 <= j < entries.len() && j != i ==> !qualifies(entries[j], target),
    ensures
        candidates_of(entries, target) == seq![entries[i].name@],
    decreases entries.len(),
{
    let prior = entries.drop_last();
    assert(forall|j: int| 0 <= j < prior.len() ==> prior[j] == entries[j]);
    assert(entries.last() == entries[entries.len() - 1]);
    if i == entries.len() - 1 {
        lemma_no_qualifiers_empty(prior, target);
        assert(candidates_of(entries, target) =~= seq![entries[i].name@]);
    } else {
        lemma_resolver_uniqueness(prior, target, i);
        assert(!qualifies(entries.last(), target));
    }
}

/// Resolver ambiguity safety: when two or more entries qualify, the candidate
/// set has at least two names, so resolution refuses with the full list and
/// performs no rename.
pub proof fn lemma_resolver_ambiguity(entries: Seq<DirEntry>, target: Seq<char>, i: int, j: int)
    requires
        0 <= i < j < entries.len(),
        qualifies(entries[i], target),
        qualifies(entries[j], target),
    ensures
        candidates_of(entries, target).len() >= 2,
    decreases entries.len(),
{
    let prior = entries.drop_last();
    assert(forall|m: int| 0 <= m < prior.len() ==> prior[m] == entries[m]);
    assert(entries.last() == entries[entries.len() - 1]);
    if j == entries.len() - 1 {
        lemma_candidates_contains(prior, target, i);
    } else {
        lemma_resolver_ambiguity(prior, target, i, j);
    }
}

/// Resolve a rename request against a directory listing.
///
/// When the target already exists and force is off, refuse before looking at
/// the listing. Otherwise collect the qualifying entries: none refuses with
/// `NoMatch`, exactly one yields the rename intent, and two or more refuse
/// with `Ambiguous` carrying every qualifying name — ambiguity is never
/// resolved by guessing.
pub fn resolve_rename(
    target: &str,
    force: bool,
    target_exists: bool,
    entries: &Vec<DirEntry>,
) -> (res: Result<RenameIntent, RenameError>)
    ensures
        target_exists && !force ==> res == Err::<RenameIntent, RenameError>(
            RenameError::TargetExists,
        ),
        !(target_exists && !force) ==> {
            let cands = candidates_of(entries@, target@);
            &&& cands.len() == 0 ==> res == Err::<RenameIntent, RenameError>(RenameError::NoMatch)
            &&& cands.len() == 1 ==> (res matches Ok(intent) && intent.source@ == cands[0]
                && intent.destination@ == target@)
            &&& cands.len() >= 2 ==> (res matches Err(e) && e matches RenameError::Ambiguous(names)
                && names@.map_values(|s: String| s@) == cands)
        },
{
    if target_exists && !force {
        return Err(RenameError::TargetExists);
    }
    let mut cands: Vec<String> = Vec::new();
    let mut idx: usize = 0;
    proof {
        assert(entries@.subrange(0, 0) =~= Seq::<DirEntry>::empty());
        assert(cands@.map_values(|s: String| s@) =~= candidates_of(
            entries@.subrange(0, 0),
            target@,
        ));
    }
    while idx < entries.len()
        invariant
            idx <= entries@.len(),
            cands@.map_values(|s: String| s@) == candidates_of(
                entries@.subrange(0, idx as int),
                target@,
            ),
        decreases entries@.len() - idx,
    {
        let e = &entries[idx];
        let ghost prior = cands@.map_values(|s: String| s@);
        if e.is_regular && !str_eq(e.name.as_str(), target) {
            let n = e.name.as_str();
            if matches_expansion(n, target) || matches_expansion(target, n)
                || matches_extension_change(n, target) || matches_extension_change(target, n) {
                cands.push(e.name.clone());
                proof {
                    assert(cands@.map_values(|s: String| s@) =~= prior.push(entries@[idx as int].name@));
                }
            }
        }
        proof {
            let sub = entries@.subrange(0, idx + 1);
            assert(sub.drop_last() =~= entries@.subrange(0, idx as int));
            assert(sub.last() == entries@[idx as int]);
        }
        idx = idx + 1;
    }
    proof {
        assert(entries@.subrange(0, entries@.len() as int) =~= entries@);
    }
    if cands.len() == 0 {
        Err(RenameError::NoMatch)
    } else if cands.len() == 1 {
        let source = cands[0].clone();
        let destination = target.to_owned();
        proof {
            assert(cands@.map_values(|s: String| s@)[0] == cands@[0]@);
        }
        Ok(RenameIntent { source, destination })
    } else {
        Err(RenameError::Ambiguous(cands))
    }
}

} // verus!
