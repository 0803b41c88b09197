//! The association model shared by the library's keyed tables: sequences
//! of (key, value) entries looked up by their first matching key.

use vstd::prelude::*;

verus! {

/// Index of the first entry with the given key, or -1 when absent.
pub open spec fn assoc_index<V>(s: Seq<(Seq<char>, V)>, k: Seq<char>) -> int
    decreases s.len(),
{
    if s.len() == 0 {
        -1
    } else if s[0].0 == k {
        0
    } else {
        let r = assoc_index(s.drop_first(), k);
        if r < 0 {
            -1
        } else {
            r + 1
        }
    }
}

/// The value stored under the given key, if any.
pub open spec fn assoc_lookup<V>(s: Seq<(Seq<char>, V)>, k: Seq<char>) -> Option<V> {
    let i = assoc_index(s, k);
    if i < 0 {
        None
    } else {
        Some(s[i].1)
    }
}

/// The association after storing `v` under `k`: replaces the first entry
/// with key `k` in place, or appends a fresh entry.
pub open spec fn assoc_upsert<V>(s: Seq<(Seq<char>, V)>, k: Seq<char>, v: V) -> Seq<
    (Seq<char>, V),
> {
    let i = assoc_index(s, k);
    if i < 0 {
        s.push((k, v))
    } else {
        s.update(i, (k, v))
    }
}

/// What `assoc_index` finds is the first entry with the key; when it
/// reports -1 no entry has the key.
pub proof fn lemma_assoc_index<V>(s: Seq<(Seq<char>, V)>, k: Seq<char>)
    ensures
        -1 <= assoc_index(s, k) < s.len(),
        assoc_index(s, k) >= 0 ==> s[assoc_index(s, k)].0 == k,
        forall|j: int| 0 <= j < s.len() && s[j].0 == k ==> assoc_index(s, k) >= 0,
        forall|j: int| 0 <= j < assoc_index(s, k) ==> s[j].0 != k,
    decreases s.len(),
{
    if s.len() > 0 && s[0].0 != k {
        lemma_assoc_index(s.drop_first(), k);
        assert forall|j: int| 0 <= j < s.len() && s[j].0 == k implies assoc_index(s, k) >= 0 by {
            assert(s.drop_first()[j - 1] == s[j]);
        }
        assert forall|j: int| 0 <= j < assoc_index(s, k) implies s[j].0 != k by {
            if j > 0 {
                assert(s.drop_first()[j - 1] == s[j]);
            }
        }
    }
}

} // verus!
