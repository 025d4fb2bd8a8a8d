//! Finding the first entry of a sequence with a given key.
use vstd::prelude::*;

verus! {

/// The index of the first entry whose key is `k`, or -1.
pub open spec fn key_index<A, K>(s: Seq<A>, key: spec_fn(A) -> K, k: K) -> int
    decreases s.len(),
{
    if s.len() == 0 {
        -1
    } else if key(s[0]) == k {
        0
    } else {
        let i = key_index(s.skip(1), key, k);
        if i < 0 {
            -1
        } else {
            i + 1
        }
    }
}

pub proof fn lemma_key_index<A, K>(s: Seq<A>, key: spec_fn(A) -> K, k: K)
    ensures
        -1 <= key_index(s, key, k) < s.len(),
        key_index(s, key, k) == -1 <==> forall|j: int| 0 <= j < s.len() ==> key(s[j]) != k,
        key_index(s, key, k) >= 0 ==> key(s[key_index(s, key, k)]) == k,
        forall|j: int| 0 <= j < key_index(s, key, k) ==> key(s[j]) != k,
    decreases s.len(),
{
    if s.len() > 0 {
        lemma_key_index(s.skip(1), key, k);
        if key(s[0]) != k {
            assert forall|j: int| 1 <= j < s.len() implies s[j] == s.skip(1)[j - 1] by {}
        }
    }
}

/// Whatever finds `k` at `i` first, and no earlier, is `key_index`.
pub proof fn lemma_key_index_is<A, K>(s: Seq<A>, key: spec_fn(A) -> K, k: K, i: int)
    requires
        -1 <= i < s.len(),
        i == -1 ==> forall|j: int| 0 <= j < s.len() ==> key(s[j]) != k,
        i >= 0 ==> key(s[i]) == k,
        forall|j: int| 0 <= j < i ==> key(s[j]) != k,
    ensures
        key_index(s, key, k) == i,
{
    lemma_key_index(s, key, k);
    let f = key_index(s, key, k);
    if i >= 0 {
        if f < i {
            assert(key(s[f]) != k);
        }
        if f > i {
            assert(key(s[i]) != k);
        }
    } else if f >= 0 {
        assert(key(s[f]) != k);
    }
}

} // verus!
