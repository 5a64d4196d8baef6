//! Lists of (version, definition) pairs, and which definition is in effect
//! at a given version.
use vstd::prelude::*;
use crate::bignum::BigNat;

verus! {

/// Some entry of `vs` has a version not above `v`.
pub open spec fn has_version_at<X>(vs: Seq<(BigNat, X)>, v: nat) -> bool {
    exists|i: int| 0 <= i < vs.len() && vs[i].0@ <= v
}

/// Entry `i` is the one in effect at version `v`: its version is the greatest
/// one not above `v`, and no earlier entry has that version.
pub open spec fn is_version_at<X>(vs: Seq<(BigNat, X)>, v: nat, i: int) -> bool {
    &&& 0 <= i < vs.len()
    &&& vs[i].0@ <= v
    &&& forall|j: int| 0 <= j < vs.len() && vs[j].0@ <= v ==> vs[j].0@ <= vs[i].0@
    &&& forall|j: int| 0 <= j < i && vs[j].0@ <= v ==> vs[j].0@ < vs[i].0@
}

/// The index of the entry in effect at version `v` (meaningful when
/// `has_version_at(vs, v)`).
pub open spec fn version_index<X>(vs: Seq<(BigNat, X)>, v: nat) -> int {
    choose|i: int| is_version_at(vs, v, i)
}

/// Entry `i` holds the greatest version of all, and no earlier entry has it.
pub open spec fn is_last_version<X>(vs: Seq<(BigNat, X)>, i: int) -> bool {
    &&& 0 <= i < vs.len()
    &&& forall|j: int| 0 <= j < vs.len() ==> vs[j].0@ <= vs[i].0@
    &&& forall|j: int| 0 <= j < i ==> vs[j].0@ < vs[i].0@
}

/// The greatest version in a non-empty list.
pub open spec fn last_version<X>(vs: Seq<(BigNat, X)>) -> nat {
    vs[choose|i: int| is_last_version(vs, i)].0@
}

/// Some entry has exactly version `v`.
pub open spec fn has_exact_version<X>(vs: Seq<(BigNat, X)>, v: nat) -> bool {
    exists|i: int| 0 <= i < vs.len() && vs[i].0@ == v
}

/// The entry in effect at a version is unique.
pub proof fn lemma_version_at_unique<X>(vs: Seq<(BigNat, X)>, v: nat, i: int, k: int)
    requires
        is_version_at(vs, v, i),
        is_version_at(vs, v, k),
    ensures
        i == k,
{
    if i < k {
        assert(vs[i].0@ < vs[k].0@);
    } else if k < i {
        assert(vs[k].0@ < vs[i].0@);
    }
}

/// `version_index` names the entry in effect.
pub proof fn lemma_version_index<X>(vs: Seq<(BigNat, X)>, v: nat, i: int)
    requires
        is_version_at(vs, v, i),
    ensures
        version_index(vs, v) == i,
{
    lemma_version_at_unique(vs, v, i, version_index(vs, v));
}

/// The greatest version is unique, and `last_version` is it.
pub proof fn lemma_last_version<X>(vs: Seq<(BigNat, X)>, i: int)
    requires
        is_last_version(vs, i),
    ensures
        last_version(vs) == vs[i].0@,
        forall|k: int| is_last_version(vs, k) ==> k == i,
{
    assert forall|k: int| is_last_version(vs, k) implies k == i by {
        if i < k {
            assert(vs[i].0@ < vs[k].0@);
        } else if k < i {
            assert(vs[k].0@ < vs[i].0@);
        }
    }
}

/// When some entry has a version not above `v`, one of them is in effect.
pub proof fn lemma_version_at_exists<X>(vs: Seq<(BigNat, X)>, v: nat)
    requires
        has_version_at(vs, v),
    ensures
        is_version_at(vs, v, version_index(vs, v)),
    decreases vs.len(),
{
    let n = vs.len() as int;
    let p = vs.drop_last();
    let l = vs[n - 1];
    assert forall|j: int| 0 <= j < n - 1 implies #[trigger] p[j] == vs[j] by {}
    if has_version_at(p, v) {
        lemma_version_at_exists(p, v);
        let i = version_index(p, v);
        if l.0@ <= v && p[i].0@ < l.0@ {
            assert forall|j: int| 0 <= j < n && vs[j].0@ <= v implies vs[j].0@ <= l.0@ by {
                if j < n - 1 {
                    assert(p[j].0@ <= v);
                }
            }
            assert forall|j: int| 0 <= j < n - 1 && vs[j].0@ <= v implies vs[j].0@ < l.0@ by {
                assert(p[j].0@ <= v);
            }
            assert(is_version_at(vs, v, n - 1));
        } else {
            assert forall|j: int| 0 <= j < n && vs[j].0@ <= v implies vs[j].0@ <= vs[i].0@ by {
                if j < n - 1 {
                    assert(p[j].0@ <= v);
                }
            }
            assert forall|j: int| 0 <= j < i && vs[j].0@ <= v implies vs[j].0@ < vs[i].0@ by {
                assert(p[j].0@ <= v);
            }
            assert(is_version_at(vs, v, i));
        }
    } else {
        assert forall|j: int| 0 <= j < n - 1 implies !(vs[j].0@ <= v) by {
            if vs[j].0@ <= v {
                assert(p[j].0@ <= v);
            }
        }
        assert(is_version_at(vs, v, n - 1));
    }
}

/// Finds the entry in effect at version `v`.
pub fn find_version_at<X>(vs: &Vec<(BigNat, X)>, v: &BigNat) -> (r: Option<usize>)
    ensures
        r is None <==> !has_version_at(vs@, v@),
        r matches Some(i) ==> is_version_at(vs@, v@, i as int),
{
    let mut best: Option<usize> = None;
    let mut i: usize = 0;
    while i < vs.len()
        invariant
            i <= vs@.len(),
            best is None <==> forall|j: int| 0 <= j < i ==> !(vs@[j].0@ <= v@),
            best matches Some(b) ==> b < i && is_version_at(vs@.take(i as int), v@, b as int),
        decreases vs@.len() - i,
    {
        if vs[i].0.le(v) {
            match best {
                None => {
                    best = Some(i);
                },
                Some(b) => {
                    if vs[b].0.lt(&vs[i].0) {
                        best = Some(i);
                    }
                },
            }
        }
        proof {
            let t = vs@.take(i as int + 1);
            assert(t.len() == i + 1);
            assert forall|j: int| 0 <= j <= i implies t[j] == vs@[j] by {}
            assert(vs@.take(i as int) =~= t.take(i as int));
        }
        i = i + 1;
    }
    assert(vs@.take(i as int) =~= vs@);
    match best {
        None => {
            assert(!has_version_at(vs@, v@));
        },
        Some(b) => {},
    }
    best
}

/// Finds the entry with the greatest version, if there is any entry.
pub fn find_last_version<X>(vs: &Vec<(BigNat, X)>) -> (r: Option<usize>)
    ensures
        r is None <==> vs@.len() == 0,
        r matches Some(i) ==> is_last_version(vs@, i as int),
{
    if vs.len() == 0 {
        return None;
    }
    let mut best: usize = 0;
    let mut i: usize = 1;
    while i < vs.len()
        invariant
            1 <= i <= vs@.len(),
            best < i,
            is_last_version(vs@.take(i as int), best as int),
        decreases vs@.len() - i,
    {
        if vs[best].0.lt(&vs[i].0) {
            best = i;
        }
        proof {
            let t = vs@.take(i as int + 1);
            assert forall|j: int| 0 <= j <= i implies t[j] == vs@[j] by {}
            assert(vs@.take(i as int) =~= t.take(i as int));
        }
        i = i + 1;
    }
    assert(vs@.take(i as int) =~= vs@);
    Some(best)
}

/// Whether some entry has exactly version `v`.
pub fn contains_version<X>(vs: &Vec<(BigNat, X)>, v: &BigNat) -> (r: bool)
    ensures
        r == has_exact_version(vs@, v@),
{
    let mut i: usize = 0;
    while i < vs.len()
        invariant
            i <= vs@.len(),
            forall|j: int| 0 <= j < i ==> vs@[j].0@ != v@,
        decreases vs@.len() - i,
    {
        if vs[i].0.equals(v) {
            return true;
        }
        i = i + 1;
    }
    false
}

} // verus!
