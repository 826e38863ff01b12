//! Stable orderings of lists by text keys and by scores, returned as index
//! permutations.
use vstd::prelude::*;
use crate::order::{compare_chars, lemma_seq_lt_asymmetric, lemma_seq_lt_irreflexive, lemma_seq_lt_total, lemma_seq_lt_transitive, seq_lt};

verus! {

/// Lexicographic order on pairs of character sequences.
pub open spec fn pair_lt(a: (Seq<char>, Seq<char>), b: (Seq<char>, Seq<char>)) -> bool {
    seq_lt(a.0, b.0) || (a.0 == b.0 && seq_lt(a.1, b.1))
}

/// `a` must be listed before `b` (ascending, or descending when `desc`).
pub open spec fn goes_before(a: (Seq<char>, Seq<char>), b: (Seq<char>, Seq<char>), desc: bool) -> bool {
    if desc { pair_lt(b, a) } else { pair_lt(a, b) }
}

pub open spec fn key_views(keys: Seq<(Vec<char>, Vec<char>)>) -> Seq<(Seq<char>, Seq<char>)> {
    keys.map_values(|k: (Vec<char>, Vec<char>)| (k.0@, k.1@))
}

/// `p` lists every index of `n` items exactly once.
pub open spec fn is_permutation(p: Seq<usize>, n: nat) -> bool {
    &&& p.len() == n
    &&& forall|i: int| 0 <= i < p.len() ==> #[trigger] p[i] < n
    &&& p.no_duplicates()
}

/// `p` orders the keys (ascending, or descending when `desc`), keeping
/// items with equal keys in their original order.
pub open spec fn is_stable_order(keys: Seq<(Seq<char>, Seq<char>)>, p: Seq<usize>, desc: bool) -> bool {
    &&& is_permutation(p, keys.len())
    &&& forall|i: int, j: int| 0 <= i < j < p.len() ==> !goes_before(#[trigger] keys[p[j] as int], #[trigger] keys[p[i] as int], desc)
    &&& forall|i: int, j: int| 0 <= i < j < p.len() && keys[p[i] as int] == keys[p[j] as int] ==> p[i] < p[j]
}

/// `p` orders the scores from highest to lowest, keeping equal scores in
/// their original order.
pub open spec fn is_stable_desc_by_score(scores: Seq<u32>, p: Seq<usize>) -> bool {
    &&& is_permutation(p, scores.len())
    &&& forall|i: int, j: int| 0 <= i < j < p.len() ==> #[trigger] scores[p[i] as int] >= #[trigger] scores[p[j] as int]
    &&& forall|i: int, j: int| 0 <= i < j < p.len() && scores[p[i] as int] == scores[p[j] as int] ==> p[i] < p[j]
}

proof fn lemma_pair_lt_facts(a: (Seq<char>, Seq<char>), b: (Seq<char>, Seq<char>), c: (Seq<char>, Seq<char>))
    ensures
        !pair_lt(a, a),
        pair_lt(a, b) ==> !pair_lt(b, a),
        pair_lt(a, b) && pair_lt(b, c) ==> pair_lt(a, c),
        a != b ==> pair_lt(a, b) || pair_lt(b, a),
{
    lemma_seq_lt_irreflexive(a.0);
    lemma_seq_lt_irreflexive(a.1);
    lemma_seq_lt_asymmetric(a.0, b.0);
    lemma_seq_lt_asymmetric(a.1, b.1);
    lemma_seq_lt_total(a.0, b.0);
    lemma_seq_lt_total(a.1, b.1);
    if seq_lt(a.0, b.0) && seq_lt(b.0, c.0) {
        lemma_seq_lt_transitive(a.0, b.0, c.0);
    }
    if seq_lt(a.1, b.1) && seq_lt(b.1, c.1) {
        lemma_seq_lt_transitive(a.1, b.1, c.1);
    }
}

proof fn lemma_goes_before_facts(a: (Seq<char>, Seq<char>), b: (Seq<char>, Seq<char>), c: (Seq<char>, Seq<char>), desc: bool)
    ensures
        !goes_before(a, a, desc),
        goes_before(a, b, desc) && goes_before(b, c, desc) ==> goes_before(a, c, desc),
{
    lemma_pair_lt_facts(a, b, c);
    lemma_pair_lt_facts(c, b, a);
}

fn goes_before_exec(a: &(Vec<char>, Vec<char>), b: &(Vec<char>, Vec<char>), desc: bool) -> (r: bool)
    ensures
        r == goes_before((a.0@, a.1@), (b.0@, b.1@), desc),
{
    let (x, y) = if desc { (b, a) } else { (a, b) };
    let c0 = compare_chars(x.0.as_slice(), y.0.as_slice());
    if c0 < 0 {
        true
    } else if c0 > 0 {
        false
    } else {
        compare_chars(x.1.as_slice(), y.1.as_slice()) < 0
    }
}

/// The stable order of `keys`, as a permutation of their indices.
pub fn stable_order(keys: &Vec<(Vec<char>, Vec<char>)>, desc: bool) -> (p: Vec<usize>)
    ensures
        is_stable_order(key_views(keys@), p@, desc),
{
    let ghost kv = key_views(keys@);
    let n = keys.len();
    let mut p: Vec<usize> = Vec::new();
    let mut m: usize = 0;
    while m < n
        invariant
            n == keys@.len(),
            kv == key_views(keys@),
            m <= n,
            p@.len() == m,
            forall|i: int| 0 <= i < p@.len() ==> #[trigger] p@[i] < m,
            p@.no_duplicates(),
            forall|i: int, j: int| 0 <= i < j < p@.len() ==> !goes_before(#[trigger] kv[p@[j] as int], #[trigger] kv[p@[i] as int], desc),
            forall|i: int, j: int| 0 <= i < j < p@.len() && kv[p@[i] as int] == kv[p@[j] as int] ==> p@[i] < p@[j],
        decreases n - m,
    {
        let mut pos: usize = 0;
        while pos < p.len() && !goes_before_exec(&keys[m], &keys[p[pos]], desc)
            invariant
                n == keys@.len(),
                kv == key_views(keys@),
                m < n,
                p@.len() == m,
                pos <= p@.len(),
                forall|i: int| 0 <= i < p@.len() ==> #[trigger] p@[i] < m,
                forall|j: int| 0 <= j < pos ==> !goes_before(kv[m as int], #[trigger] kv[p@[j] as int], desc),
            decreases p@.len() - pos,
        {
            pos = pos + 1;
        }
        let ghost old_p = p@;
        proof {
            if pos < old_p.len() {
                assert(goes_before(kv[m as int], kv[old_p[pos as int] as int], desc));
            }
            assert forall|j: int| pos <= j < old_p.len() implies
                !goes_before(#[trigger] kv[old_p[j] as int], kv[m as int], desc)
                && kv[old_p[j] as int] != kv[m as int] by {
                let a = kv[old_p[j] as int];
                let b = kv[m as int];
                let c = kv[old_p[pos as int] as int];
                lemma_goes_before_facts(a, b, c, desc);
                lemma_goes_before_facts(b, b, c, desc);
                if j > pos {
                    assert(!goes_before(kv[old_p[j] as int], kv[old_p[pos as int] as int], desc));
                }
            }
        }
        p.insert(pos, m);
        proof {
            let np = p@;
            assert(np == old_p.insert(pos as int, m));
            assert forall|i: int| 0 <= i < np.len() implies #[trigger] np[i] < m + 1 by {
                if i < pos { assert(np[i] == old_p[i]); } else if i > pos { assert(np[i] == old_p[i - 1]); }
            }
            assert forall|i: int, j: int| 0 <= i < j < np.len() implies np[i] != np[j] by {
                if i < pos && j < pos {
                } else if i < pos && j == pos {
                } else if i < pos && j > pos {
                    assert(np[j] == old_p[j - 1]);
                } else if i == pos {
                    assert(np[j] == old_p[j - 1]);
                } else {
                    assert(np[i] == old_p[i - 1]);
                    assert(np[j] == old_p[j - 1]);
                }
            }
            assert forall|i: int, j: int| 0 <= i < j < np.len() implies
                !goes_before(#[trigger] kv[np[j] as int], #[trigger] kv[np[i] as int], desc) by {
                if j < pos {
                } else if j == pos {
                    assert(np[i] == old_p[i]);
                } else if i < pos {
                    assert(np[j] == old_p[j - 1]);
                    assert(np[i] == old_p[i]);
                } else if i == pos {
                    assert(np[j] == old_p[j - 1]);
                } else {
                    assert(np[j] == old_p[j - 1]);
                    assert(np[i] == old_p[i - 1]);
                }
            }
            assert forall|i: int, j: int| 0 <= i < j < np.len() && kv[np[i] as int] == kv[np[j] as int] implies np[i] < np[j] by {
                if j < pos {
                } else if j == pos {
                    assert(np[i] == old_p[i]);
                } else if i < pos {
                    assert(np[j] == old_p[j - 1]);
                    assert(np[i] == old_p[i]);
                } else if i == pos {
                    assert(np[j] == old_p[j - 1]);
                } else {
                    assert(np[j] == old_p[j - 1]);
                    assert(np[i] == old_p[i - 1]);
                }
            }
        }
        m = m + 1;
    }
    p
}

/// The order of `scores` from highest to lowest, keeping equal scores in
/// their original order, as a permutation of their indices.
pub fn stable_order_desc_by_score(scores: &Vec<u32>) -> (p: Vec<usize>)
    ensures
        is_stable_desc_by_score(scores@, p@),
{
    let ghost sv = scores@;
    let n = scores.len();
    let mut p: Vec<usize> = Vec::new();
    let mut m: usize = 0;
    while m < n
        invariant
            n == scores@.len(),
            sv == scores@,
            m <= n,
            p@.len() == m,
            forall|i: int| 0 <= i < p@.len() ==> #[trigger] p@[i] < m,
            p@.no_duplicates(),
            forall|i: int, j: int| 0 <= i < j < p@.len() ==> #[trigger] sv[p@[i] as int] >= #[trigger] sv[p@[j] as int],
            forall|i: int, j: int| 0 <= i < j < p@.len() && sv[p@[i] as int] == sv[p@[j] as int] ==> p@[i] < p@[j],
        decreases n - m,
    {
        let mut pos: usize = 0;
        while pos < p.len() && scores[p[pos]] >= scores[m]
            invariant
                n == scores@.len(),
                sv == scores@,
                m < n,
                p@.len() == m,
                pos <= p@.len(),
                forall|i: int| 0 <= i < p@.len() ==> #[trigger] p@[i] < m,
                forall|j: int| 0 <= j < pos ==> #[trigger] sv[p@[j] as int] >= sv[m as int],
            decreases p@.len() - pos,
        {
            pos = pos + 1;
        }
        let ghost old_p = p@;
        proof {
            assert forall|j: int| pos <= j < old_p.len() implies #[trigger] sv[old_p[j] as int] < sv[m as int] by {
                assert(sv[old_p[pos as int] as int] < sv[m as int]);
                if j > pos {
                    assert(sv[old_p[pos as int] as int] >= sv[old_p[j] as int]);
                }
            }
        }
        p.insert(pos, m);
        proof {
            let np = p@;
            assert(np == old_p.insert(pos as int, m));
            assert forall|i: int| 0 <= i < np.len() implies #[trigger] np[i] < m + 1 by {
                if i < pos { assert(np[i] == old_p[i]); } else if i > pos { assert(np[i] == old_p[i - 1]); }
            }
            assert forall|i: int, j: int| 0 <= i < j < np.len() implies np[i] != np[j] by {
                if i < pos && j < pos {
                } else if i < pos && j == pos {
                } else if i < pos && j > pos {
                    assert(np[j] == old_p[j - 1]);
                } else if i == pos {
                    assert(np[j] == old_p[j - 1]);
                } else {
                    assert(np[i] == old_p[i - 1]);
                    assert(np[j] == old_p[j - 1]);
                }
            }
            assert forall|i: int, j: int| 0 <= i < j < np.len() implies #[trigger] sv[np[i] as int] >= #[trigger] sv[np[j] as int] by {
                if j < pos {
                } else if j == pos {
                    assert(np[i] == old_p[i]);
                } else if i < pos {
                    assert(np[j] == old_p[j - 1]);
                    assert(np[i] == old_p[i]);
                } else if i == pos {
                    assert(np[j] == old_p[j - 1]);
                } else {
                    assert(np[j] == old_p[j - 1]);
                    assert(np[i] == old_p[i - 1]);
                }
            }
            assert forall|i: int, j: int| 0 <= i < j < np.len() && sv[np[i] as int] == sv[np[j] as int] implies np[i] < np[j] by {
                if j < pos {
                } else if j == pos {
                    assert(np[i] == old_p[i]);
                } else if i < pos {
                    assert(np[j] == old_p[j - 1]);
                    assert(np[i] == old_p[i]);
                } else if i == pos {
                    assert(np[j] == old_p[j - 1]);
                } else {
                    assert(np[j] == old_p[j - 1]);
                    assert(np[i] == old_p[i - 1]);
                }
            }
        }
        m = m + 1;
    }
    p
}


/// Lexicographic order on pairs of numbers.
pub open spec fn num_pair_lt(a: (i64, i64), b: (i64, i64)) -> bool {
    a.0 < b.0 || (a.0 == b.0 && a.1 < b.1)
}

/// `p` orders the pairs ascending, keeping equal pairs in their original
/// order (the order of a stable `sort_by_key`).
pub open spec fn is_stable_num_order(keys: Seq<(i64, i64)>, p: Seq<usize>) -> bool {
    &&& is_permutation(p, keys.len())
    &&& forall|i: int, j: int| 0 <= i < j < p.len() ==> !num_pair_lt(#[trigger] keys[p[j] as int], #[trigger] keys[p[i] as int])
    &&& forall|i: int, j: int| 0 <= i < j < p.len() && keys[p[i] as int] == keys[p[j] as int] ==> p[i] < p[j]
}

fn num_pair_lt_exec(a: (i64, i64), b: (i64, i64)) -> (r: bool)
    ensures
        r == num_pair_lt(a, b),
{
    a.0 < b.0 || (a.0 == b.0 && a.1 < b.1)
}

/// The stable ascending order of the number pairs `keys`, as a
/// permutation of their indices.
pub fn stable_order_by_nums(keys: &Vec<(i64, i64)>) -> (p: Vec<usize>)
    ensures
        is_stable_num_order(keys@, p@),
{
    let ghost kv = keys@;
    let n = keys.len();
    let mut p: Vec<usize> = Vec::new();
    let mut m: usize = 0;
    while m < n
        invariant
            n == keys@.len(),
            kv == keys@,
            m <= n,
            p@.len() == m,
            forall|i: int| 0 <= i < p@.len() ==> #[trigger] p@[i] < m,
            p@.no_duplicates(),
            forall|i: int, j: int| 0 <= i < j < p@.len() ==> !num_pair_lt(#[trigger] kv[p@[j] as int], #[trigger] kv[p@[i] as int]),
            forall|i: int, j: int| 0 <= i < j < p@.len() && kv[p@[i] as int] == kv[p@[j] as int] ==> p@[i] < p@[j],
        decreases n - m,
    {
        let mut pos: usize = 0;
        while pos < p.len() && !num_pair_lt_exec(keys[m], keys[p[pos]])
            invariant
                n == keys@.len(),
                kv == keys@,
                m < n,
                p@.len() == m,
                pos <= p@.len(),
                forall|i: int| 0 <= i < p@.len() ==> #[trigger] p@[i] < m,
                forall|j: int| 0 <= j < pos ==> !num_pair_lt(kv[m as int], #[trigger] kv[p@[j] as int]),
            decreases p@.len() - pos,
        {
            pos = pos + 1;
        }
        let ghost old_p = p@;
        proof {
            if pos < old_p.len() {
                assert(num_pair_lt(kv[m as int], kv[old_p[pos as int] as int]));
            }
            assert forall|j: int| pos <= j < old_p.len() implies
                !num_pair_lt(#[trigger] kv[old_p[j] as int], kv[m as int])
                && kv[old_p[j] as int] != kv[m as int] by {
                if j > pos {
                    assert(!num_pair_lt(kv[old_p[j] as int], kv[old_p[pos as int] as int]));
                }
            }
        }
        p.insert(pos, m);
        proof {
            let np = p@;
            assert(np == old_p.insert(pos as int, m));
            assert forall|i: int| 0 <= i < np.len() implies #[trigger] np[i] < m + 1 by {
                if i < pos { assert(np[i] == old_p[i]); } else if i > pos { assert(np[i] == old_p[i - 1]); }
            }
            assert forall|i: int, j: int| 0 <= i < j < np.len() implies np[i] != np[j] by {
                if i < pos && j < pos {
                } else if i < pos && j == pos {
                } else if i < pos && j > pos {
                    assert(np[j] == old_p[j - 1]);
                } else if i == pos {
                    assert(np[j] == old_p[j - 1]);
                } else {
                    assert(np[i] == old_p[i - 1]);
                    assert(np[j] == old_p[j - 1]);
                }
            }
            assert forall|i: int, j: int| 0 <= i < j < np.len() implies
                !num_pair_lt(#[trigger] kv[np[j] as int], #[trigger] kv[np[i] as int]) by {
                if j < pos {
                } else if j == pos {
                    assert(np[i] == old_p[i]);
                } else if i < pos {
                    assert(np[j] == old_p[j - 1]);
                    assert(np[i] == old_p[i]);
                } else if i == pos {
                    assert(np[j] == old_p[j - 1]);
                } else {
                    assert(np[j] == old_p[j - 1]);
                    assert(np[i] == old_p[i - 1]);
                }
            }
            assert forall|i: int, j: int| 0 <= i < j < np.len() && kv[np[i] as int] == kv[np[j] as int] implies np[i] < np[j] by {
                if j < pos {
                } else if j == pos {
                    assert(np[i] == old_p[i]);
                } else if i < pos {
                    assert(np[j] == old_p[j - 1]);
                    assert(np[i] == old_p[i]);
                } else if i == pos {
                    assert(np[j] == old_p[j - 1]);
                } else {
                    assert(np[j] == old_p[j - 1]);
                    assert(np[i] == old_p[i - 1]);
                }
            }
        }
        m = m + 1;
    }
    p
}


} // verus!
