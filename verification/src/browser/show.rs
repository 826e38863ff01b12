//! Show list ordering for the browser.
use vstd::prelude::*;
use crate::catalog::store::permuted;
use crate::api::{fmt_i64, i64_string};
use crate::models::{CatalogShow, Track};
use crate::sorting::{is_stable_order, key_views, stable_order};
use crate::text::{chars_of, lowercase, owned, push_str, to_lowercase};

verus! {

/// Sort modes for show lists.
#[derive(Clone, Copy, Debug, PartialEq, Eq, Structural)]
pub enum SortMode {
    Newest,
    Oldest,
    Venue,
}

impl SortMode {
    /// The mode after this one.
    pub open spec fn spec_next(self) -> SortMode {
        match self {
            SortMode::Newest => SortMode::Oldest,
            SortMode::Oldest => SortMode::Venue,
            SortMode::Venue => SortMode::Newest,
        }
    }

    /// Cycle to the next sort mode.
    pub fn next(self) -> (r: Self)
        ensures
            r == self.spec_next(),
    {
        match self {
            SortMode::Newest => SortMode::Oldest,
            SortMode::Oldest => SortMode::Venue,
            SortMode::Venue => SortMode::Newest,
        }
    }

    /// Display name for the toggle label.
    pub fn label(self) -> (r: &'static str)
        ensures
            r@ == match self {
                SortMode::Newest => "Newest first"@,
                SortMode::Oldest => "Oldest first"@,
                SortMode::Venue => "Venue A\u{2013}Z"@,
            },
    {
        match self {
            SortMode::Newest => "Newest first",
            SortMode::Oldest => "Oldest first",
            SortMode::Venue => "Venue A\u{2013}Z",
        }
    }
}

/// The sort key of a show in a mode: its date, or its lower-cased venue
/// then its date.
pub open spec fn sort_key(s: CatalogShow, mode: SortMode) -> (Seq<char>, Seq<char>) {
    match mode {
        SortMode::Venue => (lowercase(s.venue_name@), s.performance_date@),
        _ => (s.performance_date@, Seq::<char>::empty()),
    }
}

pub open spec fn sort_keys(l: Seq<CatalogShow>, mode: SortMode) -> Seq<(Seq<char>, Seq<char>)> {
    l.map_values(|s: CatalogShow| sort_key(s, mode))
}

/// `r` is `l` in the order of the mode: newest date first, oldest first,
/// or by venue (ignoring case) then date; equal keys keep their order.
pub open spec fn is_sorted_by_mode(l: Seq<CatalogShow>, r: Seq<CatalogShow>, mode: SortMode) -> bool {
    exists|p: Seq<usize>| is_stable_order(sort_keys(l, mode), p, mode == SortMode::Newest) && r == permuted(l, p)
}

fn key_of(s: &CatalogShow, mode: SortMode) -> (r: (Vec<char>, Vec<char>))
    ensures
        (r.0@, r.1@) == sort_key(*s, mode),
{
    match mode {
        SortMode::Venue => {
            let lower = to_lowercase(s.venue_name.as_str());
            (chars_of(lower.as_str()), chars_of(s.performance_date.as_str()))
        },
        _ => {
            let e: Vec<char> = Vec::new();
            proof {
                assert(e@ =~= Seq::<char>::empty());
            }
            (chars_of(s.performance_date.as_str()), e)
        },
    }
}

/// Sort shows in place by the given mode.
pub fn sort_shows(shows: &mut Vec<CatalogShow>, mode: SortMode)
    ensures
        is_sorted_by_mode(old(shows)@, final(shows)@, mode),
{
    let ghost l = shows@;
    let mut keys: Vec<(Vec<char>, Vec<char>)> = Vec::new();
    let mut i: usize = 0;
    while i < shows.len()
        invariant
            l == shows@,
            i <= l.len(),
            key_views(keys@) == sort_keys(l, mode).take(i as int),
        decreases l.len() - i,
    {
        let ghost before = keys@;
        let k = key_of(&shows[i], mode);
        keys.push(k);
        proof {
            assert(key_views(keys@) =~= key_views(before).push((k.0@, k.1@)));
            assert(sort_keys(l, mode).take(i + 1) =~= sort_keys(l, mode).take(i as int).push(sort_key(l[i as int], mode)));
        }
        i = i + 1;
    }
    proof {
        assert(sort_keys(l, mode).take(l.len() as int) =~= sort_keys(l, mode));
    }
    let p = stable_order(&keys, mode == SortMode::Newest);
    let mut out: Vec<CatalogShow> = Vec::new();
    let mut k: usize = 0;
    while k < p.len()
        invariant
            l == shows@,
            is_stable_order(sort_keys(l, mode), p@, mode == SortMode::Newest),
            k <= p@.len(),
            out@ == permuted(l, p@).take(k as int),
        decreases p@.len() - k,
    {
        out.push(shows[p[k]].duplicate());
        proof {
            assert(out@ =~= permuted(l, p@).take(k + 1));
        }
        k = k + 1;
    }
    proof {
        assert(permuted(l, p@).take(p@.len() as int) =~= permuted(l, p@));
    }
    *shows = out;
}



/// Strictly ascending: each number once, in order.
pub open spec fn strictly_ascending(s: Seq<i64>) -> bool {
    forall|i: int, j: int| 0 <= i < j < s.len() ==> (#[trigger] s[i]) < (#[trigger] s[j])
}

/// Some track is in set `sn`.
pub open spec fn has_set(tracks: Seq<Track>, sn: i64) -> bool {
    exists|i: int| 0 <= i < tracks.len() && (#[trigger] tracks[i]).set_num == sn
}

/// The set numbers of a show's tracks, ascending, each once (the sets the
/// track listing groups the tracks into).
pub fn set_numbers(tracks: &Vec<Track>) -> (r: Vec<i64>)
    ensures
        strictly_ascending(r@),
        forall|sn: i64| r@.contains(sn) <==> has_set(tracks@, sn),
{
    let mut keys: Vec<i64> = Vec::new();
    let mut i: usize = 0;
    while i < tracks.len()
        invariant
            i <= tracks@.len(),
            strictly_ascending(keys@),
            forall|sn: i64| keys@.contains(sn) <==> has_set(tracks@.take(i as int), sn),
        decreases tracks@.len() - i,
    {
        let sn = tracks[i].set_num;
        let mut pos: usize = 0;
        while pos < keys.len() && keys[pos] < sn
            invariant
                pos <= keys@.len(),
                strictly_ascending(keys@),
                forall|j: int| 0 <= j < pos ==> keys@[j] < sn,
                forall|x: i64| keys@.contains(x) <==> has_set(tracks@.take(i as int), x),
            decreases keys@.len() - pos,
        {
            pos = pos + 1;
        }
        let ghost before = keys@;
        let ghost t1 = tracks@.take(i + 1);
        proof {
            assert forall|x: i64| has_set(t1, x) <==> (has_set(tracks@.take(i as int), x) || x == sn) by {
                let t0 = tracks@.take(i as int);
                if has_set(t1, x) {
                    let j = choose|j: int| 0 <= j < t1.len() && (#[trigger] t1[j]).set_num == x;
                    if j < i {
                        assert(t0[j] == t1[j]);
                    }
                }
                if has_set(t0, x) {
                    let j = choose|j: int| 0 <= j < t0.len() && (#[trigger] t0[j]).set_num == x;
                    assert(t1[j] == t0[j]);
                }
                if x == sn {
                    assert(t1[i as int].set_num == sn);
                }
            }
        }
        if pos < keys.len() && keys[pos] == sn {
            proof {
                assert(keys@[pos as int] == sn);
                assert forall|x: i64| keys@.contains(x) <==> has_set(t1, x) by {
                    assert(before.contains(x) <==> has_set(tracks@.take(i as int), x));
                    assert(has_set(t1, x) <==> (has_set(tracks@.take(i as int), x) || x == sn));
                }
            }
        } else {
            keys.insert(pos, sn);
            proof {
                assert(keys@ == before.insert(pos as int, sn));
                assert forall|a: int, b: int| 0 <= a < b < keys@.len() implies (#[trigger] keys@[a]) < (#[trigger] keys@[b]) by {
                    if b < pos {
                    } else if b == pos {
                        assert(before[a] < sn);
                    } else if a < pos {
                        assert(before[a] < sn);
                        assert(before[b - 1] >= sn || b - 1 >= pos);
                        if b - 1 > pos {
                            assert(before[pos as int] < before[b - 1]);
                        }
                    } else if a == pos {
                        assert(before[pos as int] > sn);
                        if b - 1 > pos {
                            assert(before[pos as int] < before[b - 1]);
                        }
                    } else {
                        assert(before[a - 1] < before[b - 1]);
                    }
                }
                assert forall|x: i64| keys@.contains(x) <==> (before.contains(x) || x == sn) by {
                    if keys@.contains(x) {
                        let j = choose|j: int| 0 <= j < keys@.len() && keys@[j] == x;
                        if j < pos {
                            assert(before[j] == x);
                        } else if j > pos {
                            assert(before[j - 1] == x);
                        }
                    }
                    if before.contains(x) {
                        let j = choose|j: int| 0 <= j < before.len() && before[j] == x;
                        if j < pos {
                            assert(keys@[j] == x);
                        } else {
                            assert(keys@[j + 1] == x);
                        }
                    }
                    if x == sn {
                        assert(keys@[pos as int] == sn);
                    }
                }
                assert forall|x: i64| keys@.contains(x) <==> has_set(t1, x) by {
                    assert(before.contains(x) <==> has_set(tracks@.take(i as int), x));
                    assert(has_set(t1, x) <==> (has_set(tracks@.take(i as int), x) || x == sn));
                }
            }
        }
        i = i + 1;
    }
    proof {
        assert(tracks@.take(tracks@.len() as int) =~= tracks@);
    }
    keys
}

/// The highest regular (positive) set number; 0 when there is none.
pub open spec fn spec_max_normal_set(keys: Seq<i64>) -> i64
    decreases keys.len(),
{
    if keys.len() == 0 {
        0
    } else {
        let m = spec_max_normal_set(keys.drop_last());
        if keys.last() > 0 && keys.last() > m { keys.last() } else { m }
    }
}

/// An encore: set 0, or a set after the highest regular one.
pub open spec fn spec_is_encore(sn: i64, max_normal_set: i64) -> bool {
    sn == 0 || (max_normal_set > 0 && sn > max_normal_set)
}

/// The highest regular (positive) set number; 0 when there is none.
pub fn max_normal_set(keys: &Vec<i64>) -> (r: i64)
    ensures
        r == spec_max_normal_set(keys@),
{
    let mut m: i64 = 0;
    let mut i: usize = 0;
    while i < keys.len()
        invariant
            i <= keys@.len(),
            m == spec_max_normal_set(keys@.take(i as int)),
        decreases keys@.len() - i,
    {
        proof {
            assert(keys@.take(i + 1).drop_last() =~= keys@.take(i as int));
        }
        if keys[i] > 0 && keys[i] > m {
            m = keys[i];
        }
        i = i + 1;
    }
    proof {
        assert(keys@.take(keys@.len() as int) =~= keys@);
    }
    m
}

/// The order in which the sets are listed: the regular sets ascending,
/// then the encores ascending.
pub open spec fn spec_ordered_set_keys(keys: Seq<i64>) -> Seq<i64> {
    let m = spec_max_normal_set(keys);
    keys.filter(|sn: i64| !spec_is_encore(sn, m)) + keys.filter(|sn: i64| spec_is_encore(sn, m))
}

/// Regular sets first (ascending), then encore sets.
pub fn ordered_set_keys(keys: &Vec<i64>) -> (r: Vec<i64>)
    requires
        strictly_ascending(keys@),
    ensures
        r@ == spec_ordered_set_keys(keys@),
{
    let m = max_normal_set(keys);
    let ghost reg_f = |sn: i64| !spec_is_encore(sn, m);
    let ghost enc_f = |sn: i64| spec_is_encore(sn, m);
    let mut regular: Vec<i64> = Vec::new();
    let mut encores: Vec<i64> = Vec::new();
    let mut i: usize = 0;
    while i < keys.len()
        invariant
            i <= keys@.len(),
            regular@ == keys@.take(i as int).filter(reg_f),
            encores@ == keys@.take(i as int).filter(enc_f),
            reg_f == (|sn: i64| !spec_is_encore(sn, m)),
            enc_f == (|sn: i64| spec_is_encore(sn, m)),
        decreases keys@.len() - i,
    {
        proof {
            assert(keys@.take(i + 1) =~= keys@.take(i as int).push(keys@[i as int]));
            keys@.take(i as int).lemma_filter_push(keys@[i as int], reg_f);
            keys@.take(i as int).lemma_filter_push(keys@[i as int], enc_f);
        }
        let sn = keys[i];
        if sn == 0 || (m > 0 && sn > m) {
            encores.push(sn);
        } else {
            regular.push(sn);
        }
        i = i + 1;
    }
    proof {
        assert(keys@.take(keys@.len() as int) =~= keys@);
    }
    regular.append(&mut encores);
    regular
}

/// The heading of a set: `Set 1` when every track is in set 0, `Encore`
/// for an encore, else `Set N`.
pub open spec fn spec_set_label(set_num: i64, keys: Seq<i64>) -> Seq<char> {
    let m = spec_max_normal_set(keys);
    if m == 0 && keys.contains(0) {
        "Set 1"@
    } else if spec_is_encore(set_num, m) {
        "Encore"@
    } else {
        "Set "@ + fmt_i64(set_num)
    }
}

/// The heading of set `set_num` among the sets `keys`.
pub fn set_label(set_num: i64, keys: &Vec<i64>) -> (r: String)
    ensures
        r@ == spec_set_label(set_num, keys@),
{
    let m = max_normal_set(keys);
    let mut has_zero = false;
    let mut i: usize = 0;
    while i < keys.len()
        invariant
            i <= keys@.len(),
            has_zero == keys@.take(i as int).contains(0),
        decreases keys@.len() - i,
    {
        proof {
            let t = keys@.take(i as int);
            assert(keys@.take(i + 1) =~= t.push(keys@[i as int]));
            assert(t.push(keys@[i as int]).contains(0) <==> (t.contains(0) || keys@[i as int] == 0)) by {
                let u = t.push(keys@[i as int]);
                if u.contains(0) {
                    let j = choose|j: int| 0 <= j < u.len() && u[j] == 0;
                    if j < t.len() {
                        assert(t[j] == 0);
                    }
                }
                if t.contains(0) {
                    let j = choose|j: int| 0 <= j < t.len() && t[j] == 0;
                    assert(u[j] == 0);
                }
                if keys@[i as int] == 0 {
                    assert(u[t.len() as int] == 0);
                }
            }
        }
        if keys[i] == 0 {
            has_zero = true;
        }
        i = i + 1;
    }
    proof {
        assert(keys@.take(keys@.len() as int) =~= keys@);
    }
    if m == 0 && has_zero {
        owned("Set 1")
    } else if set_num == 0 || (m > 0 && set_num > m) {
        owned("Encore")
    } else {
        let mut r = owned("Set ");
        let n = i64_string(set_num);
        push_str(&mut r, n.as_str());
        proof {
            reveal_strlit("Set ");
        }
        r
    }
}

/// In the listing order no regular set comes after an encore.
pub proof fn law_encores_after_regular_sets(keys: Seq<i64>, a: int, b: int)
    requires
        0 <= a < b < spec_ordered_set_keys(keys).len(),
        spec_is_encore(spec_ordered_set_keys(keys)[a], spec_max_normal_set(keys)),
    ensures
        spec_is_encore(spec_ordered_set_keys(keys)[b], spec_max_normal_set(keys)),
{
    let m = spec_max_normal_set(keys);
    let reg_f = |sn: i64| !spec_is_encore(sn, m);
    let enc_f = |sn: i64| spec_is_encore(sn, m);
    let r = keys.filter(reg_f);
    let e = keys.filter(enc_f);
    assert(spec_ordered_set_keys(keys) == r + e);
    if a < r.len() {
        keys.lemma_filter_pred(reg_f, a);
        assert(false);
    }
    e.len();
    keys.lemma_filter_pred(enc_f, b - r.len());
}

/// Cycling the sort mode three times comes back to where it started.
pub proof fn law_sort_mode_cycle(m: SortMode)
    ensures
        m.spec_next().spec_next().spec_next() == m,
        m.spec_next() != m,
{
}

} // verus!
