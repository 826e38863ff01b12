//! Ranking of artist ids that share a name: the id with loaded shows, then
//! the most loaded shows, then a cache with shows over an untried or stale
//! one over a known-empty one, then the larger cache, then the lower id.
use vstd::prelude::*;

verus! {

/// The rank key of an artist id: `(has loaded shows, loaded shows, cache
/// tier, cached shows, -id)`, compared lexicographically, larger first.
/// `cache_count` is negative when the cache is missing or stale.
pub open spec fn spec_rank_key(artist_id: i64, loaded: usize, cache_count: i32) -> (u8, usize, u8, i32, i64) {
    (
        if loaded > 0 { 1u8 } else { 0u8 },
        loaded,
        if cache_count > 0 { 2u8 } else if cache_count < 0 { 1u8 } else { 0u8 },
        if cache_count > 0 { cache_count } else { 0i32 },
        (-artist_id) as i64,
    )
}

/// Lexicographic order on rank keys.
pub open spec fn key_lt(a: (u8, usize, u8, i32, i64), b: (u8, usize, u8, i32, i64)) -> bool {
    a.0 < b.0 || (a.0 == b.0 && (a.1 < b.1 || (a.1 == b.1 && (a.2 < b.2 || (a.2 == b.2 && (a.3 < b.3
        || (a.3 == b.3 && a.4 < b.4)))))))
}

/// The rank key of one artist id.
pub fn artist_rank_key(artist_id: i64, loaded: usize, cache_count: i32) -> (r: (u8, usize, u8, i32, i64))
    requires
        artist_id > i64::MIN,
    ensures
        r == spec_rank_key(artist_id, loaded, cache_count),
{
    let cache_tier: u8 = if cache_count > 0 {
        2
    } else if cache_count < 0 {
        1
    } else {
        0
    };
    (
        if loaded > 0 { 1 } else { 0 },
        loaded,
        cache_tier,
        if cache_count > 0 { cache_count } else { 0 },
        -artist_id,
    )
}

/// Strict lexicographic comparison of rank keys.
pub fn rank_key_lt(a: (u8, usize, u8, i32, i64), b: (u8, usize, u8, i32, i64)) -> (r: bool)
    ensures
        r == key_lt(a, b),
{
    if a.0 != b.0 {
        return a.0 < b.0;
    }
    if a.1 != b.1 {
        return a.1 < b.1;
    }
    if a.2 != b.2 {
        return a.2 < b.2;
    }
    if a.3 != b.3 {
        return a.3 < b.3;
    }
    a.4 < b.4
}

/// Index of the element with the largest key, the last one on ties (as
/// `Iterator::max_by_key` picks it).
pub open spec fn is_last_max(keys: Seq<(u8, usize, u8, i32, i64)>, i: int) -> bool {
    &&& 0 <= i < keys.len()
    &&& forall|j: int| 0 <= j < keys.len() ==> !key_lt(keys[i], #[trigger] keys[j])
    &&& forall|j: int| i < j < keys.len() ==> key_lt(#[trigger] keys[j], keys[i])
}

/// Index of the largest key (the last on ties).
pub fn index_of_max(keys: &Vec<(u8, usize, u8, i32, i64)>) -> (r: usize)
    requires
        keys@.len() > 0,
    ensures
        is_last_max(keys@, r as int),
{
    let mut best: usize = 0;
    let mut i: usize = 1;
    while i < keys.len()
        invariant
            keys@.len() > 0,
            1 <= i <= keys@.len(),
            best < i,
            forall|j: int| 0 <= j < i ==> !key_lt(keys@[best as int], #[trigger] keys@[j]),
            forall|j: int| best < j < i ==> key_lt(#[trigger] keys@[j], keys@[best as int]),
        decreases keys@.len() - i,
    {
        if !rank_key_lt(keys[i], keys[best]) {
            best = i;
        }
        i = i + 1;
    }
    best
}

/// Ids listed from the largest rank key to the smallest (equal keys in
/// their original order).
pub open spec fn is_rank_order(keys: Seq<(u8, usize, u8, i32, i64)>, p: Seq<usize>) -> bool {
    &&& p.len() == keys.len()
    &&& forall|i: int| 0 <= i < p.len() ==> #[trigger] p[i] < keys.len()
    &&& p.no_duplicates()
    &&& forall|i: int, j: int| 0 <= i < j < p.len() ==> !key_lt(#[trigger] keys[p[i] as int], #[trigger] keys[p[j] as int])
    &&& forall|i: int, j: int| 0 <= i < j < p.len() && keys[p[i] as int] == keys[p[j] as int] ==> p[i] < p[j]
}

pub proof fn lemma_key_lt_facts(a: (u8, usize, u8, i32, i64), b: (u8, usize, u8, i32, i64), c: (u8, usize, u8, i32, i64))
    ensures
        !key_lt(a, a),
        key_lt(a, b) && key_lt(b, c) ==> key_lt(a, c),
        a != b ==> key_lt(a, b) || key_lt(b, a),
        key_lt(a, b) ==> !key_lt(b, a),
{
}

/// The order of `keys` from largest to smallest, as a permutation of their
/// indices.
pub fn rank_order(keys: &Vec<(u8, usize, u8, i32, i64)>) -> (p: Vec<usize>)
    ensures
        is_rank_order(keys@, p@),
{
    let ghost kv = keys@;
    let n = keys.len();
    let mut p: Vec<usize> = Vec::new();
    let mut m: usize = 0;
    while m < n
        invariant
            n == keys@.len(),
            kv == keys@,
            m <= n,
            p@.len() == m,
            forall|i: int| 0 <= i < p@.len() ==> #[trigger] p@[i] < m,
            p@.no_duplicates(),
            forall|i: int, j: int| 0 <= i < j < p@.len() ==> !key_lt(#[trigger] kv[p@[i] as int], #[trigger] kv[p@[j] as int]),
            forall|i: int, j: int| 0 <= i < j < p@.len() && kv[p@[i] as int] == kv[p@[j] as int] ==> p@[i] < p@[j],
        decreases n - m,
    {
        let mut pos: usize = 0;
        while pos < p.len() && !rank_key_lt(keys[p[pos]], keys[m])
            invariant
                n == keys@.len(),
                kv == keys@,
                m < n,
                p@.len() == m,
                pos <= p@.len(),
                forall|i: int| 0 <= i < p@.len() ==> #[trigger] p@[i] < m,
                forall|j: int| 0 <= j < pos ==> !key_lt(#[trigger] kv[p@[j] as int], kv[m as int]),
            decreases p@.len() - pos,
        {
            pos = pos + 1;
        }
        let ghost old_p = p@;
        proof {
            assert forall|j: int| pos <= j < old_p.len() implies
                key_lt(#[trigger] kv[old_p[j] as int], kv[m as int]) by {
                let a = kv[old_p[j] as int];
                let b = kv[m as int];
                let c = kv[old_p[pos as int] as int];
                lemma_key_lt_facts(a, c, b);
                lemma_key_lt_facts(c, a, b);
                if j > pos {
                    assert(!key_lt(kv[old_p[pos as int] as int], kv[old_p[j] as int]));
                }
            }
        }
        p.insert(pos, m);
        proof {
            let np = p@;
            assert(np == old_p.insert(pos as int, m));
            assert forall|i: int| 0 <= i < np.len() implies #[trigger] np[i] < m + 1 by {
                if i < pos { assert(np[i] == old_p[i]); } else if i > pos { assert(np[i] == old_p[i - 1]); }
            }
            assert forall|i: int, j: int| 0 <= i < j < np.len() implies np[i] != np[j] by {
                if i < pos && j < pos {
                } else if i < pos && j == pos {
                } else if i < pos && j > pos {
                    assert(np[j] == old_p[j - 1]);
                } else if i == pos {
                    assert(np[j] == old_p[j - 1]);
                } else {
                    assert(np[i] == old_p[i - 1]);
                    assert(np[j] == old_p[j - 1]);
                }
            }
            assert forall|i: int, j: int| 0 <= i < j < np.len() implies
                !key_lt(#[trigger] kv[np[i] as int], #[trigger] kv[np[j] as int]) by {
                if j < pos {
                } else if j == pos {
                    assert(np[i] == old_p[i]);
                } else if i < pos {
                    assert(np[j] == old_p[j - 1]);
                    assert(np[i] == old_p[i]);
                } else if i == pos {
                    assert(np[j] == old_p[j - 1]);
                    lemma_key_lt_facts(kv[np[i] as int], kv[np[j] as int], kv[np[i] as int]);
                } else {
                    assert(np[j] == old_p[j - 1]);
                    assert(np[i] == old_p[i - 1]);
                }
            }
            assert forall|i: int, j: int| 0 <= i < j < np.len() && kv[np[i] as int] == kv[np[j] as int] implies np[i] < np[j] by {
                if j < pos {
                } else if j == pos {
                    assert(np[i] == old_p[i]);
                } else if i < pos {
                    assert(np[j] == old_p[j - 1]);
                    assert(np[i] == old_p[i]);
                } else if i == pos {
                    assert(np[j] == old_p[j - 1]);
                    lemma_key_lt_facts(kv[np[j] as int], kv[np[j] as int], kv[np[j] as int]);
                } else {
                    assert(np[j] == old_p[j - 1]);
                    assert(np[i] == old_p[i - 1]);
                }
            }
        }
        m = m + 1;
    }
    p
}

} // verus!
