//! Bidirectional mapping between Google Drive file IDs and synthetic
//! negative i64 IDs. The negative namespace keeps them apart from real
//! nugs.net container ids, which are always positive.
use vstd::prelude::*;
use std::hash::{Hash, Hasher};
use crate::text::{chars_of, dec_chars, fmt_dec, owned, push_chars, push_str, str_eq};

verus! {

broadcast use vstd::string::group_string_axioms;

/// `DefaultHasher::new()` fed the string (`str::hash`), then `finish()`.
pub uninterp spec fn drive_hash(s: Seq<char>) -> u64;

/// Hashes a drive id with `std::collections::hash_map::DefaultHasher::new()`.
/// Unlike the hashers of `RandomState`, it is not seeded per process: its
/// keys are fixed, and `str::hash` feeds it the string's bytes and a `0xff`
/// terminator, so a string hashes alike in every run. The value is named
/// `drive_hash`; nothing more is claimed of it.
#[verifier::external_body]
fn default_hash(s: &str) -> (r: u64)
    ensures
        r == drive_hash(s@),
{
    let mut hasher = std::collections::hash_map::DefaultHasher::new();
    s.hash(&mut hasher);
    hasher.finish()
}

/// The low 63 bits of the hash, at least 1, negated.
pub open spec fn spec_synthetic_id(drive_id: Seq<char>) -> i64 {
    let h = (drive_hash(drive_id) & 0x7fff_ffff_ffff_ffffu64) as int;
    (if h >= 1 { -h } else { -1 }) as i64
}

/// The string hashed at probe `attempt`: the drive id, then `"{id}:{n}"`.
pub open spec fn probe_key(drive_id: Seq<char>, attempt: nat) -> Seq<char> {
    if attempt == 0 {
        drive_id
    } else {
        drive_id + ":"@ + fmt_dec(attempt)
    }
}

pub open spec fn probe_id(drive_id: Seq<char>, attempt: nat) -> i64 {
    spec_synthetic_id(probe_key(drive_id, attempt))
}

/// Entries as plain values: (drive id, synthetic id).
pub open spec fn entries_view(e: Seq<(String, i64)>) -> Seq<(Seq<char>, i64)> {
    Seq::new(e.len(), |i: int| (e[i].0@, e[i].1))
}

/// `id` is assigned.
pub open spec fn has_id(m: Seq<(Seq<char>, i64)>, id: i64) -> bool {
    exists|i: int| 0 <= i < m.len() && (#[trigger] m[i]).1 == id
}

/// `drive_id` is mapped.
pub open spec fn has_drive(m: Seq<(Seq<char>, i64)>, drive_id: Seq<char>) -> bool {
    exists|i: int| 0 <= i < m.len() && (#[trigger] m[i]).0 == drive_id
}

/// The map is a bijection between drive ids and negative ids.
pub open spec fn well_formed(m: Seq<(Seq<char>, i64)>) -> bool {
    &&& forall|i: int| 0 <= i < m.len() ==> (#[trigger] m[i]).1 < 0
    &&& forall|i: int, j: int| 0 <= i < j < m.len() ==> (#[trigger] m[i]).1 != (#[trigger] m[j]).1
    &&& forall|i: int, j: int| 0 <= i < j < m.len() ==> (#[trigger] m[i]).0 != (#[trigger] m[j]).0
}

/// Drive id of a synthetic id.
pub open spec fn drive_of(m: Seq<(Seq<char>, i64)>, id: i64) -> Option<Seq<char>> {
    if has_id(m, id) {
        Some(m[choose|i: int| 0 <= i < m.len() && (#[trigger] m[i]).1 == id].0)
    } else {
        None
    }
}

/// Synthetic id of a drive id.
pub open spec fn id_of(m: Seq<(Seq<char>, i64)>, drive_id: Seq<char>) -> Option<i64> {
    if has_drive(m, drive_id) {
        Some(m[choose|i: int| 0 <= i < m.len() && (#[trigger] m[i]).0 == drive_id].1)
    } else {
        None
    }
}

/// The id `insert` assigns to a new drive id: the first probe, among the
/// first `u32::MAX`, that is not yet assigned; failing that (a run of
/// 2^32 hash collisions), the first free id among -1, -2, ....
pub open spec fn fresh_id(m: Seq<(Seq<char>, i64)>, drive_id: Seq<char>, r: i64) -> bool {
    ||| exists|a: nat|
        a < u32::MAX && r == #[trigger] probe_id(drive_id, a) && !has_id(m, r) && forall|b: nat|
            b < a ==> has_id(m, #[trigger] probe_id(drive_id, b))
    ||| (forall|b: nat| b < u32::MAX ==> has_id(m, #[trigger] probe_id(drive_id, b))) && r < 0
        && !has_id(m, r) && forall|k2: int| 1 <= k2 < -r ==> #[trigger] neg_used(m, k2)
}

/// The id `-k` is assigned.
pub open spec fn neg_used(m: Seq<(Seq<char>, i64)>, k: int) -> bool {
    has_id(m, (-k) as i64)
}

/// Bidirectional mapping between Google Drive file IDs (String) and
/// synthetic negative i64 IDs.
#[derive(Debug, Clone, Default)]
pub struct BmanIdMap {
    entries: Vec<(String, i64)>,
}

impl BmanIdMap {
    /// The entries form a bijection between drive ids and negative ids.
    pub closed spec fn wf(&self) -> bool {
        well_formed(entries_view(self.entries@))
    }

    /// The mapping as (drive id, synthetic id) pairs in insertion order.
    pub closed spec fn view(&self) -> Seq<(Seq<char>, i64)> {
        entries_view(self.entries@)
    }

    pub fn new() -> (r: Self)
        ensures
            r.wf(),
            r.view().len() == 0,
    {
        BmanIdMap { entries: Vec::new() }
    }

    /// A well-formed map is a bijection between drive ids and negative ids.
    pub proof fn lemma_well_formed(&self)
        requires
            self.wf(),
        ensures
            well_formed(self.view()),
    {
    }

    /// Compute a negative synthetic ID from a Google Drive file ID.
    pub fn synthetic_id(drive_id: &str) -> (r: i64)
        ensures
            r == spec_synthetic_id(drive_id@),
            r < 0,
    {
        let x = default_hash(drive_id);
        let h = x & 0x7fff_ffff_ffff_ffffu64;
        proof {
            lemma_mask(x);
        }
        let v = h as i64;
        if v >= 1 { -v } else { -1 }
    }

    fn find_id(&self, id: i64) -> (r: Option<usize>)
        ensures
            r matches Some(i) ==> i < self.view().len() && self.view()[i as int].1 == id,
            r is None ==> !has_id(self.view(), id),
    {
        let mut i: usize = 0;
        while i < self.entries.len()
            invariant
                i <= self.entries@.len(),
                forall|j: int| 0 <= j < i ==> (#[trigger] self.view()[j]).1 != id,
            decreases self.entries.len() - i,
        {
            if self.entries[i].1 == id {
                return Some(i);
            }
            i = i + 1;
        }
        None
    }

    fn find_drive(&self, drive_id: &str) -> (r: Option<usize>)
        ensures
            r matches Some(i) ==> i < self.view().len() && self.view()[i as int].0 == drive_id@,
            r is None ==> !has_drive(self.view(), drive_id@),
    {
        let mut i: usize = 0;
        while i < self.entries.len()
            invariant
                i <= self.entries@.len(),
                forall|j: int| 0 <= j < i ==> (#[trigger] self.view()[j]).0 != drive_id@,
            decreases self.entries.len() - i,
        {
            if str_eq(self.entries[i].0.as_str(), drive_id) {
                return Some(i);
            }
            i = i + 1;
        }
        None
    }

    /// Insert a drive_id and return its synthetic i64 ID.
    /// Handles hash collisions by re-hashing with a suffix.
    pub fn insert(&mut self, drive_id: &str) -> (r: i64)
        requires
            old(self).wf(),
            old(self).view().len() < i64::MAX,
        ensures
            final(self).wf(),
            r < 0,
            inserted(old(self).view(), final(self).view(), drive_id@, r),
    {
        if let Some(i) = self.find_drive(drive_id) {
            proof {
                lemma_id_of_at(self.view(), drive_id@, i as int);
            }
            return self.entries[i].1;
        }
        let ghost m = self.view();
        let mut id = Self::synthetic_id(drive_id);
        let mut attempt: u32 = 0;
        let mut chosen: Option<i64> = None;
        while attempt < u32::MAX
            invariant
                m == self.view(),
                !has_drive(m, drive_id@),
                id == probe_id(drive_id@, attempt as nat),
                forall|b: nat| b < attempt ==> has_id(m, #[trigger] probe_id(drive_id@, b)),
                chosen matches Some(c) ==> c < 0 && !has_id(m, c) && exists|a: nat|
                    a < u32::MAX && c == #[trigger] probe_id(drive_id@, a) && forall|b: nat|
                        b < a ==> has_id(m, #[trigger] probe_id(drive_id@, b)),
            ensures
                chosen is None ==> forall|b: nat| b < u32::MAX ==> has_id(m, #[trigger] probe_id(drive_id@, b)),
                chosen matches Some(c) ==> c < 0 && !has_id(m, c) && exists|a: nat|
                    a < u32::MAX && c == #[trigger] probe_id(drive_id@, a) && forall|b: nat|
                        b < a ==> has_id(m, #[trigger] probe_id(drive_id@, b)),
            decreases u32::MAX - attempt,
        {
            match self.find_id(id) {
                None => {
                    proof {
                        lemma_probe_negative(drive_id@, attempt as nat);
                    }
                    chosen = Some(id);
                    break;
                },
                Some(_) => {},
            }
            attempt = attempt + 1;
            let mut key = owned(drive_id);
            push_str(&mut key, ":");
            push_chars(&mut key, dec_chars(attempt as u64).as_slice());
            id = Self::synthetic_id(key.as_str());
        }
        let r = match chosen {
            Some(c) => c,
            None => self.first_free_negative(),
        };
        let ghost old_entries = self.entries@;
        self.entries.push((owned(drive_id), r));
        proof {
            assert(self.view() =~= m.push((drive_id@, r)));
            assert forall|i: int| 0 <= i < m.len() implies (#[trigger] m[i]).1 != r by {
                if m[i].1 == r {
                    assert(has_id(m, r));
                }
            }
            assert forall|i: int| 0 <= i < m.len() implies (#[trigger] m[i]).0 != drive_id@ by {
                if m[i].0 == drive_id@ {
                    assert(has_drive(m, drive_id@));
                }
            }
        }
        r
    }

    /// The first of -1, -2, ... that no entry uses.
    fn first_free_negative(&self) -> (r: i64)
        requires
            self.wf(),
            self.view().len() < i64::MAX,
        ensures
            r < 0,
            !has_id(self.view(), r),
            forall|k2: int| 1 <= k2 < -r ==> #[trigger] neg_used(self.view(), k2),
    {
        let n = self.entries.len();
        let mut k: u64 = 1;
        while k <= n as u64 + 1
            invariant
                1 <= k <= n + 2,
                n == self.view().len(),
                n < i64::MAX,
                forall|k2: int| 1 <= k2 < k ==> #[trigger] neg_used(self.view(), k2),
            decreases n + 2 - k,
        {
            let cand: i64 = -(k as i64);
            if self.find_id(cand).is_none() {
                return cand;
            }
            k = k + 1;
        }
        proof {
            lemma_pigeonhole(self.view());
        }
        -1
    }

    /// The drive id of a synthetic id.
    pub fn get_drive_id(&self, synthetic: i64) -> (r: Option<&str>)
        requires
            self.wf(),
        ensures
            r is Some <==> has_id(self.view(), synthetic),
            r matches Some(d) ==> drive_of(self.view(), synthetic) == Some(d@),
    {
        match self.find_id(synthetic) {
            Some(i) => {
                proof {
                    lemma_drive_of_at(self.view(), synthetic, i as int);
                }
                Some(self.entries[i].0.as_str())
            },
            None => None,
        }
    }

    /// The synthetic id of a drive id.
    pub fn get_synthetic_id(&self, drive_id: &str) -> (r: Option<i64>)
        requires
            self.wf(),
        ensures
            r == id_of(self.view(), drive_id@),
    {
        match self.find_drive(drive_id) {
            Some(i) => {
                proof {
                    lemma_id_of_at(self.view(), drive_id@, i as int);
                }
                Some(self.entries[i].1)
            },
            None => None,
        }
    }

    pub fn len(&self) -> (r: usize)
        ensures
            r == self.view().len(),
    {
        self.entries.len()
    }

    pub fn is_empty(&self) -> (r: bool)
        ensures
            r == (self.view().len() == 0),
    {
        self.entries.len() == 0
    }

    /// The (drive id, synthetic id) pairs, in insertion order.
    pub fn pairs(&self) -> (r: &Vec<(String, i64)>)
        ensures
            entries_view(r@) == self.view(),
    {
        &self.entries
    }

    /// A map of stored pairs; none when they are no bijection between drive
    /// ids and negative ids.
    pub fn from_pairs(pairs: Vec<(String, i64)>) -> (r: Option<Self>)
        ensures
            r matches Some(m) ==> m.wf() && m.view() == entries_view(pairs@),
            r is None ==> !well_formed(entries_view(pairs@)),
    {
        let ghost v = entries_view(pairs@);
        let n = pairs.len();
        let mut i: usize = 0;
        while i < n
            invariant
                n == pairs@.len(),
                v == entries_view(pairs@),
                i <= n,
                forall|a: int| 0 <= a < i ==> (#[trigger] v[a]).1 < 0,
                forall|a: int, b: int| 0 <= a < b < n && a < i ==> (#[trigger] v[a]).1 != (#[trigger] v[b]).1,
                forall|a: int, b: int| 0 <= a < b < n && a < i ==> (#[trigger] v[a]).0 != (#[trigger] v[b]).0,
            decreases n - i,
        {
            assert(v[i as int] == (pairs@[i as int].0@, pairs@[i as int].1));
            if pairs[i].1 >= 0 {
                return None;
            }
            let mut j: usize = i + 1;
            while j < n
                invariant
                    n == pairs@.len(),
                    v == entries_view(pairs@),
                    i < j <= n,
                    forall|b: int| i < b < j ==> v[i as int].1 != (#[trigger] v[b]).1,
                    forall|b: int| i < b < j ==> v[i as int].0 != (#[trigger] v[b]).0,
                decreases n - j,
            {
                assert(v[j as int] == (pairs@[j as int].0@, pairs@[j as int].1));
                let same_drive = str_eq(pairs[i].0.as_str(), pairs[j].0.as_str());
                if pairs[i].1 == pairs[j].1 || same_drive {
                    assert(v[i as int].1 == v[j as int].1 || v[i as int].0 == v[j as int].0);
                    return None;
                }
                j = j + 1;
            }
            i = i + 1;
        }
        Some(BmanIdMap { entries: pairs })
    }
}


/// After adding a new drive id with id `r`, the drive id maps to `r` and
/// every drive id mapped before keeps its id.
pub proof fn lemma_push_keeps_ids(m: Seq<(Seq<char>, i64)>, d: Seq<char>, r: i64)
    requires
        well_formed(m.push((d, r))),
    ensures
        id_of(m.push((d, r)), d) == Some(r),
        forall|d2: Seq<char>| #[trigger] has_drive(m, d2) ==> id_of(m.push((d, r)), d2) == id_of(m, d2),
{
    let n = m.push((d, r));
    lemma_id_of_at(n, d, m.len() as int);
    assert forall|d2: Seq<char>| #[trigger] has_drive(m, d2) implies id_of(n, d2) == id_of(m, d2) by {
        let i = choose|i: int| 0 <= i < m.len() && (#[trigger] m[i]).0 == d2;
        assert(n[i] == m[i]);
        lemma_id_of_at(n, d2, i);
        assert(well_formed(m)) by {
            assert forall|a: int, b: int| 0 <= a < b < m.len() implies (#[trigger] m[a]).1 != (#[trigger] m[b]).1 by {
                assert(n[a] == m[a] && n[b] == m[b]);
            }
            assert forall|a: int, b: int| 0 <= a < b < m.len() implies (#[trigger] m[a]).0 != (#[trigger] m[b]).0 by {
                assert(n[a] == m[a] && n[b] == m[b]);
            }
            assert forall|a: int| 0 <= a < m.len() implies (#[trigger] m[a]).1 < 0 by {
                assert(n[a] == m[a]);
            }
        }
        lemma_id_of_at(m, d2, i);
    }
}


/// `after` is what `insert(drive_id)` leaves of `before` when it returns `r`.
pub open spec fn inserted(before: Seq<(Seq<char>, i64)>, after: Seq<(Seq<char>, i64)>, drive_id: Seq<char>, r: i64) -> bool {
    &&& has_drive(before, drive_id) ==> after == before && id_of(before, drive_id) == Some(r)
    &&& !has_drive(before, drive_id) ==> after == before.push((drive_id, r)) && fresh_id(before, drive_id, r)
}

/// After `insert(d)` returns `r`, looking up `r` gives `d` back and
/// looking up `d` gives `r` back.
pub proof fn law_insert_then_lookup(before: Seq<(Seq<char>, i64)>, after: Seq<(Seq<char>, i64)>, d: Seq<char>, r: i64)
    requires
        well_formed(before),
        well_formed(after),
        inserted(before, after, d, r),
    ensures
        has_id(after, r),
        drive_of(after, r) == Some(d),
        id_of(after, d) == Some(r),
{
    if has_drive(before, d) {
        let i = choose|i: int| 0 <= i < before.len() && (#[trigger] before[i]).0 == d;
        lemma_id_of_at(before, d, i);
        lemma_drive_of_at(after, r, i);
    } else {
        lemma_id_of_at(after, d, before.len() as int);
        lemma_drive_of_at(after, r, before.len() as int);
    }
}

/// Inserting the same drive id twice gives the same id and leaves the
/// map as the first insert left it.
pub proof fn law_insert_idempotent(
    m0: Seq<(Seq<char>, i64)>,
    m1: Seq<(Seq<char>, i64)>,
    m2: Seq<(Seq<char>, i64)>,
    d: Seq<char>,
    r1: i64,
    r2: i64,
)
    requires
        well_formed(m0),
        well_formed(m1),
        inserted(m0, m1, d, r1),
        inserted(m1, m2, d, r2),
    ensures
        r1 == r2,
        m2 == m1,
{
    law_insert_then_lookup(m0, m1, d, r1);
    assert(has_drive(m1, d));
}

/// Different drive ids never share a synthetic id, and every id is
/// negative.
pub proof fn law_ids_distinct_and_negative(m: Seq<(Seq<char>, i64)>, d1: Seq<char>, d2: Seq<char>)
    requires
        well_formed(m),
        has_drive(m, d1),
        has_drive(m, d2),
        d1 != d2,
    ensures
        id_of(m, d1) != id_of(m, d2),
        id_of(m, d1).unwrap() < 0,
{
    let i = choose|i: int| 0 <= i < m.len() && (#[trigger] m[i]).0 == d1;
    let j = choose|j: int| 0 <= j < m.len() && (#[trigger] m[j]).0 == d2;
    lemma_id_of_at(m, d1, i);
    lemma_id_of_at(m, d2, j);
    if i < j {
        assert(m[i].1 != m[j].1);
    } else if j < i {
        assert(m[j].1 != m[i].1);
    }
}

proof fn lemma_mask(x: u64)
    ensures
        x & 0x7fff_ffff_ffff_ffffu64 <= 0x7fff_ffff_ffff_ffffu64,
{
    assert(x & 0x7fff_ffff_ffff_ffffu64 <= 0x7fff_ffff_ffff_ffffu64) by (bit_vector);
}

proof fn lemma_probe_negative(drive_id: Seq<char>, a: nat)
    ensures
        probe_id(drive_id, a) < 0,
{
    lemma_mask(drive_hash(probe_key(drive_id, a)));
}

/// Lookups go both ways: a synthetic id names a drive id exactly when
/// that drive id maps to it, and every mapped id is negative.
pub proof fn law_lookup_both_ways(m: Seq<(Seq<char>, i64)>, id: i64, d: Seq<char>)
    requires
        well_formed(m),
    ensures
        drive_of(m, id) == Some(d) <==> id_of(m, d) == Some(id),
        id_of(m, d) matches Some(i) ==> i < 0,
{
    if drive_of(m, id) == Some(d) {
        let i = choose|i: int| 0 <= i < m.len() && (#[trigger] m[i]).1 == id;
        lemma_drive_of_at(m, id, i);
        lemma_id_of_at(m, d, i);
    }
    if id_of(m, d) == Some(id) {
        let i = choose|i: int| 0 <= i < m.len() && (#[trigger] m[i]).0 == d;
        lemma_id_of_at(m, d, i);
        lemma_drive_of_at(m, id, i);
    }
    if has_drive(m, d) {
        let i = choose|i: int| 0 <= i < m.len() && (#[trigger] m[i]).0 == d;
        lemma_id_of_at(m, d, i);
    }
}

/// An insert grows the map by one exactly when the drive id is new, and
/// keeps every mapping it had.
pub proof fn law_insert_length(before: Seq<(Seq<char>, i64)>, after: Seq<(Seq<char>, i64)>, d: Seq<char>, r: i64, e: Seq<char>)
    requires
        well_formed(before),
        well_formed(after),
        inserted(before, after, d, r),
        has_drive(before, e),
    ensures
        after.len() == before.len() + (if has_drive(before, d) { 0int } else { 1int }),
        !has_drive(before, d) ==> drive_of(before, r) is None,
        id_of(after, e) == id_of(before, e),
{
    let i = choose|i: int| 0 <= i < before.len() && (#[trigger] before[i]).0 == e;
    lemma_id_of_at(before, e, i);
    assert(after[i] == before[i]);
    lemma_id_of_at(after, e, i);
}

proof fn lemma_id_of_at(m: Seq<(Seq<char>, i64)>, d: Seq<char>, i: int)
    requires
        well_formed(m),
        0 <= i < m.len(),
        m[i].0 == d,
    ensures
        id_of(m, d) == Some(m[i].1),
{
    assert(has_drive(m, d));
    let j = choose|j: int| 0 <= j < m.len() && (#[trigger] m[j]).0 == d;
    if j != i {
        if j < i {
            assert(m[j].0 != m[i].0);
        } else {
            assert(m[i].0 != m[j].0);
        }
    }
}

proof fn lemma_drive_of_at(m: Seq<(Seq<char>, i64)>, id: i64, i: int)
    requires
        well_formed(m),
        0 <= i < m.len(),
        m[i].1 == id,
    ensures
        drive_of(m, id) == Some(m[i].0),
{
    assert(has_id(m, id));
    let j = choose|j: int| 0 <= j < m.len() && (#[trigger] m[j]).1 == id;
    if j != i {
        if j < i {
            assert(m[j].1 != m[i].1);
        } else {
            assert(m[i].1 != m[j].1);
        }
    }
}

/// With n entries, some id among -1 .. -(n+1) is free.
proof fn lemma_pigeonhole(m: Seq<(Seq<char>, i64)>)
    requires
        m.len() < i64::MAX,
    ensures
        exists|k2: int| 1 <= k2 < m.len() + 2 && !#[trigger] neg_used(m, k2),
{
    if exists|k2: int| 1 <= k2 < m.len() + 2 && !#[trigger] neg_used(m, k2) {
        return;
    }
    let ids = Seq::new(m.len(), |i: int| m[i].1 as int);
    let range = vstd::set_lib::set_int_range(-(m.len() as int) - 1, 0);
    vstd::set_lib::lemma_int_range(-(m.len() as int) - 1, 0);
    assert(range.subset_of(ids.to_set())) by {
        assert forall|x: int| range.contains(x) implies ids.to_set().contains(x) by {
            let k2 = -x;
            assert(1 <= k2 < m.len() + 2);
            assert(neg_used(m, k2));
            let i = choose|i: int| 0 <= i < m.len() && (#[trigger] m[i]).1 == (-k2) as i64;
            assert(ids[i] == x);
        }
    }
    ids.lemma_cardinality_of_set();
    vstd::set_lib::lemma_len_subset(range, ids.to_set());
}

} // verus!
