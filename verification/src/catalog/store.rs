//! The catalog itself: loaded shows with their year, search and id
//! indexes, and the artist registry.
use vstd::prelude::*;
use std::collections::{HashMap, HashSet};
use std::path::PathBuf;
use crate::catalog::rank::{artist_rank_key, index_of_max, is_last_max, is_rank_order, key_lt, lemma_key_lt_facts, rank_order, spec_rank_key};
use crate::catalog::registry::{
    find_artist_ids, ids_named, is_grouping, normalize_artist_name, registry_groups, spec_normalize_artist_name,
};
use crate::catalog::search::{
    artist_corpus, build_corpus_entry, ranked_ids, scored_entries, scores_of, search_artist_shows, search_shows,
    shows_for_ids, spec_corpus_entry,
};
use crate::bman::download::{bman_catalog_show_ok, bman_catalog_shows};
use crate::bman::id_map::{has_drive, id_of, BmanIdMap};
use crate::bman::parser::{ParsedShow, BMAN_GD_ARTIST_ID, BMAN_JGB_ARTIST_ID};
use crate::catalog::{is_bman_artist, is_valid_live_show, spec_is_valid_live_show, ArtistTarget};
use crate::service::Service;
use crate::models::CatalogShow;
use crate::sorting::{is_stable_desc_by_score, is_stable_order, key_views, stable_order};
use crate::text::{chars_of, lowercase, space_count, str_eq, to_lowercase, trim};

verus! {

broadcast use {vstd::std_specs::hash::group_hash_axioms, vstd::string::group_string_axioms};

/// Declares `std::path::PathBuf`, the catalog's cache directory, which the
/// catalog only carries.
#[verifier::external_type_specification]
#[verifier::external_body]
pub struct ExPathBuf(PathBuf);

/// The year a show is listed under: its year, or "Unknown" when empty.
pub open spec fn year_key(s: CatalogShow) -> Seq<char> {
    if s.performance_date_year@.len() == 0 {
        "Unknown"@
    } else {
        s.performance_date_year@
    }
}

/// Indices below `n` of the shows listed under year `y`, in order.
pub open spec fn positions_with_year(shows: Seq<CatalogShow>, y: Seq<char>, n: nat) -> Seq<usize>
    decreases n,
{
    if n == 0 {
        Seq::<usize>::empty()
    } else {
        let prev = positions_with_year(shows, y, (n - 1) as nat);
        if year_key(shows[n - 1]) == y {
            prev.push((n - 1) as usize)
        } else {
            prev
        }
    }
}

/// The year index lists each year of the shows once, with the indices of
/// its shows in order.
pub open spec fn is_year_index(shows: Seq<CatalogShow>, idx: Seq<(String, Vec<usize>)>) -> bool {
    &&& forall|i: int, j: int| 0 <= i < j < idx.len() ==> (#[trigger] idx[i]).0@ != (#[trigger] idx[j]).0@
    &&& forall|i: int| 0 <= i < idx.len() ==> (#[trigger] idx[i]).1@ == positions_with_year(shows, idx[i].0@, shows.len())
    &&& forall|i: int| 0 <= i < idx.len() ==> (#[trigger] idx[i]).1@.len() > 0
    &&& forall|k: int| 0 <= k < shows.len() ==> has_year(idx, year_key(#[trigger] shows[k]))
}

/// Some entry of the year index is for year `y`.
pub open spec fn has_year(idx: Seq<(String, Vec<usize>)>, y: Seq<char>) -> bool {
    exists|i: int| 0 <= i < idx.len() && (#[trigger] idx[i]).0@ == y
}

/// The search corpus holds, for each show in order, its id and search text.
pub open spec fn is_corpus_of(shows: Seq<CatalogShow>, corpus: Seq<(i64, String)>) -> bool {
    &&& corpus.len() == shows.len()
    &&& forall|k: int| 0 <= k < shows.len() ==> (#[trigger] corpus[k]).0 == shows[k].container_id
        && corpus[k].1@ == spec_corpus_entry(shows[k])
}

/// Index of the last of the first `n` shows with id `cid`.
pub open spec fn last_with_id(shows: Seq<CatalogShow>, cid: i64, n: nat) -> Option<usize>
    decreases n,
{
    if n == 0 {
        None
    } else if shows[n - 1].container_id == cid {
        Some((n - 1) as usize)
    } else {
        last_with_id(shows, cid, (n - 1) as nat)
    }
}

/// The id lookup maps each show id to the last show carrying it.
pub open spec fn is_lookup_of(shows: Seq<CatalogShow>, m: Map<i64, usize>) -> bool {
    forall|cid: i64| #[trigger] m.contains_key(cid) == (last_with_id(shows, cid, shows.len()) is Some)
        && (m.contains_key(cid) ==> Some(m[cid]) == last_with_id(shows, cid, shows.len()))
}

/// Number of shows by `artist_id`.
pub open spec fn loaded_count(shows: Seq<CatalogShow>, artist_id: i64) -> nat {
    shows.filter(|s: CatalogShow| s.artist_id == artist_id).len()
}


/// `id` carries `name` and outranks every other id that does.
pub open spec fn is_best_of(c: Catalog, name: Seq<char>, id: i64) -> bool {
    &&& ids_named(c.registry(), name).contains(id)
    &&& forall|other: i64| #[trigger] ids_named(c.registry(), name).contains(other) && other != id
        ==> key_lt(c.rank_of(other), c.rank_of(id))
}

/// The preferred-id table lists each normalized registry name once, with
/// its best-ranked id.
pub open spec fn is_preferred_table(c: Catalog) -> bool {
    &&& forall|i: int, j: int| 0 <= i < j < c.preferred().len() ==> (#[trigger] c.preferred()[i]).0@ != (#[trigger] c.preferred()[j]).0@
    &&& forall|i: int| 0 <= i < c.preferred().len() ==> is_best_of(c, (#[trigger] c.preferred()[i]).0@, c.preferred()[i].1)
    &&& forall|id: i64| #[trigger] c.registry().contains_key(id) ==> exists|i: int| 0 <= i < c.preferred().len()
        && (#[trigger] c.preferred()[i]).0@ == spec_normalize_artist_name(c.registry()[id]@)
}

fn count_shows_of(shows: &Vec<CatalogShow>, artist_id: i64) -> (r: usize)
    ensures
        r == loaded_count(shows@, artist_id),
{
    let ghost f = |s: CatalogShow| s.artist_id == artist_id;
    let mut n: usize = 0;
    let mut i: usize = 0;
    while i < shows.len()
        invariant
            i <= shows@.len(),
            n == shows@.take(i as int).filter(f).len(),
            n <= i,
            f == (|s: CatalogShow| s.artist_id == artist_id),
        decreases shows@.len() - i,
    {
        proof {
            assert(shows@.take(i + 1) =~= shows@.take(i as int).push(shows@[i as int]));
            shows@.take(i as int).lemma_filter_push(shows@[i as int], f);
        }
        if shows[i].artist_id == artist_id {
            n = n + 1;
        }
        i = i + 1;
    }
    proof {
        assert(shows@.take(shows@.len() as int) =~= shows@);
    }
    n
}

proof fn lemma_positions_bounded(shows: Seq<CatalogShow>, y: Seq<char>, n: nat)
    ensures
        forall|j: int| 0 <= j < positions_with_year(shows, y, n).len() ==> #[trigger] positions_with_year(shows, y, n)[j] < n,
    decreases n,
{
    if n > 0 {
        lemma_positions_bounded(shows, y, (n - 1) as nat);
        let prev = positions_with_year(shows, y, (n - 1) as nat);
        assert forall|j: int| 0 <= j < positions_with_year(shows, y, n).len() implies #[trigger] positions_with_year(shows, y, n)[j] < n by {
            if j < prev.len() {
                assert(positions_with_year(shows, y, n)[j] == prev[j]);
            }
        }
    }
}

proof fn lemma_last_with_id_bounded(shows: Seq<CatalogShow>, cid: i64, n: nat)
    ensures
        last_with_id(shows, cid, n) matches Some(i) ==> i < n,
    decreases n,
{
    if n > 0 {
        lemma_last_with_id_bounded(shows, cid, (n - 1) as nat);
    }
}

proof fn lemma_positions_empty(shows: Seq<CatalogShow>, y: Seq<char>, n: nat)
    requires
        forall|k: int| 0 <= k < n ==> year_key(#[trigger] shows[k]) != y,
    ensures
        positions_with_year(shows, y, n).len() == 0,
    decreases n,
{
    if n > 0 {
        lemma_positions_empty(shows, y, (n - 1) as nat);
    }
}

fn year_key_of(show: &CatalogShow) -> (r: &str)
    ensures
        r@ == year_key(*show),
{
    if show.performance_date_year.as_str().is_empty() {
        "Unknown"
    } else {
        show.performance_date_year.as_str()
    }
}


/// Date keys of shows (for ordering by date).
pub open spec fn date_keys(l: Seq<CatalogShow>) -> Seq<(Seq<char>, Seq<char>)> {
    l.map_values(|s: CatalogShow| (s.performance_date@, Seq::<char>::empty()))
}

/// The items of `l` taken in the order `p`.
pub open spec fn permuted<T>(l: Seq<T>, p: Seq<usize>) -> Seq<T> {
    p.map_values(|i: usize| l[i as int])
}

/// `r` is `l` ordered by date, newest first (equal dates in list order).
pub open spec fn is_newest_first(l: Seq<CatalogShow>, r: Seq<CatalogShow>) -> bool {
    exists|p: Seq<usize>| is_stable_order(date_keys(l), p, true) && r == permuted(l, p)
}

/// Shows by `artist_id`, in list order.
pub open spec fn shows_of_artist(shows: Seq<CatalogShow>, artist_id: i64) -> Seq<CatalogShow> {
    shows.filter(|s: CatalogShow| s.artist_id == artist_id)
}

/// Name of the first show by `artist_id`, if any.
pub open spec fn first_name_of(shows: Seq<CatalogShow>, artist_id: i64) -> Option<Seq<char>> {
    let l = shows_of_artist(shows, artist_id);
    if l.len() > 0 { Some(l[0].artist_name@) } else { None }
}

/// The shows at the given indices.
pub open spec fn shows_at(shows: Seq<CatalogShow>, idx: Seq<usize>) -> Seq<CatalogShow> {
    idx.map_values(|i: usize| shows[i as int])
}

/// The index list of year `y`, empty when the year is not indexed.
pub open spec fn year_entry(idx: Seq<(String, Vec<usize>)>, y: Seq<char>) -> Seq<usize> {
    if has_year(idx, y) {
        idx[choose|i: int| 0 <= i < idx.len() && (#[trigger] idx[i]).0@ == y].1@
    } else {
        Seq::<usize>::empty()
    }
}

fn clone_chars_of(s: &str) -> (r: (Vec<char>, Vec<char>))
    ensures
        r.0@ == s@,
        r.1@ == Seq::<char>::empty(),
{
    (chars_of(s), Vec::new())
}

/// `list` ordered by date, newest first.
fn newest_first(list: &Vec<CatalogShow>) -> (r: Vec<CatalogShow>)
    ensures
        is_newest_first(list@, r@),
{
    let mut keys: Vec<(Vec<char>, Vec<char>)> = Vec::new();
    let mut i: usize = 0;
    while i < list.len()
        invariant
            i <= list@.len(),
            key_views(keys@) == date_keys(list@).take(i as int),
        decreases list@.len() - i,
    {
        let ghost before = keys@;
        let kk = clone_chars_of(list[i].performance_date.as_str());
        keys.push(kk);
        proof {
            assert(keys@ == before.push(kk));
            assert(key_views(keys@) =~= key_views(before).push((kk.0@, kk.1@)));
            assert(date_keys(list@).take(i + 1) =~= date_keys(list@).take(i as int).push((list@[i as int].performance_date@, Seq::<char>::empty())));
        }
        i = i + 1;
    }
    proof {
        assert(date_keys(list@).take(list@.len() as int) =~= date_keys(list@));
    }
    let p = stable_order(&keys, true);
    let mut out: Vec<CatalogShow> = Vec::new();
    let mut k: usize = 0;
    while k < p.len()
        invariant
            is_stable_order(date_keys(list@), p@, true),
            k <= p@.len(),
            out@ == permuted(list@, p@).take(k as int),
        decreases p@.len() - k,
    {
        out.push(list[p[k]].duplicate());
        proof {
            assert(out@ =~= permuted(list@, p@).take(k + 1));
        }
        k = k + 1;
    }
    proof {
        assert(permuted(list@, p@).take(p@.len() as int) =~= permuted(list@, p@));
    }
    out
}


/// Names of the year index entries, in index order.
pub open spec fn year_names(idx: Seq<(String, Vec<usize>)>) -> Seq<Seq<char>> {
    idx.map_values(|e: (String, Vec<usize>)| e.0@)
}

/// Sort keys of the year index entries.
pub open spec fn year_sort_keys(idx: Seq<(String, Vec<usize>)>) -> Seq<(Seq<char>, Seq<char>)> {
    idx.map_values(|e: (String, Vec<usize>)| (e.0@, Seq::<char>::empty()))
}

/// (year, number of shows) of the year index entries, in index order.
pub open spec fn year_counts(idx: Seq<(String, Vec<usize>)>) -> Seq<(Seq<char>, nat)> {
    idx.map_values(|e: (String, Vec<usize>)| (e.0@, e.1@.len()))
}

pub open spec fn string_views(v: Seq<String>) -> Seq<Seq<char>> {
    v.map_values(|s: String| s@)
}

pub open spec fn count_views(v: Seq<(String, usize)>) -> Seq<(Seq<char>, nat)> {
    v.map_values(|e: (String, usize)| (e.0@, e.1 as nat))
}

fn year_order(idx: &Vec<(String, Vec<usize>)>) -> (p: Vec<usize>)
    ensures
        is_stable_order(year_sort_keys(idx@), p@, true),
{
    let mut keys: Vec<(Vec<char>, Vec<char>)> = Vec::new();
    let mut i: usize = 0;
    while i < idx.len()
        invariant
            i <= idx@.len(),
            key_views(keys@) == year_sort_keys(idx@).take(i as int),
        decreases idx@.len() - i,
    {
        let ghost before = keys@;
        let kk = clone_chars_of(idx[i].0.as_str());
        keys.push(kk);
        proof {
            assert(key_views(keys@) =~= key_views(before).push((kk.0@, kk.1@)));
            assert(year_sort_keys(idx@).take(i + 1) =~= year_sort_keys(idx@).take(i as int).push((idx@[i as int].0@, Seq::<char>::empty())));
        }
        i = i + 1;
    }
    proof {
        assert(year_sort_keys(idx@).take(idx@.len() as int) =~= year_sort_keys(idx@));
    }
    stable_order(&keys, true)
}


/// Views of the preferred-id table entries.
pub open spec fn pref_view(t: Seq<(String, i64)>) -> Seq<(Seq<char>, i64)> {
    t.map_values(|e: (String, i64)| (e.0@, e.1))
}

/// Position of the first entry of the preferred-id table for `name`.
pub open spec fn pref_index(t: Seq<(Seq<char>, i64)>, name: Seq<char>) -> Option<int>
    decreases t.len(),
{
    if t.len() == 0 {
        None
    } else {
        match pref_index(t.drop_last(), name) {
            Some(i) => Some(i),
            None => if t.last().0 == name { Some(t.len() - 1) } else { None },
        }
    }
}

/// The table with the entry for `name` set to `id` (appended when absent).
pub open spec fn put_pref(t: Seq<(Seq<char>, i64)>, name: Seq<char>, id: i64) -> Seq<(Seq<char>, i64)> {
    match pref_index(t, name) {
        Some(i) => t.update(i, (name, id)),
        None => t.push((name, id)),
    }
}

/// The preferred id recorded for `name`, if any.
pub open spec fn pref_of(t: Seq<(Seq<char>, i64)>, name: Seq<char>) -> Option<i64> {
    match pref_index(t, name) {
        Some(i) => Some(t[i].1),
        None => None,
    }
}

proof fn lemma_pref_index(t: Seq<(Seq<char>, i64)>, name: Seq<char>)
    ensures
        pref_index(t, name) matches Some(i) ==> 0 <= i < t.len() && t[i].0 == name
            && forall|j: int| 0 <= j < i ==> (#[trigger] t[j]).0 != name,
        pref_index(t, name) is None ==> forall|j: int| 0 <= j < t.len() ==> (#[trigger] t[j]).0 != name,
    decreases t.len(),
{
    if t.len() > 0 {
        lemma_pref_index(t.drop_last(), name);
        assert forall|j: int| 0 <= j < t.len() - 1 implies #[trigger] t[j] == t.drop_last()[j] by {}
    }
}

/// Whether loading the cache of an artist is skipped, replaced by the
/// LivePhish catalog, or done.
pub enum CacheDecision {
    Skip,
    MarkLoaded,
    Read,
}


proof fn lemma_permuted_set(l: Seq<i64>, p: Seq<usize>)
    requires
        p.len() == l.len(),
        l.len() <= usize::MAX,
        forall|i: int| 0 <= i < p.len() ==> #[trigger] p[i] < l.len(),
        p.no_duplicates(),
        l.no_duplicates(),
    ensures
        permuted(l, p).to_set() == l.to_set(),
        permuted(l, p).no_duplicates(),
{
    let r = permuted(l, p);
    assert forall|x: i64| l.to_set().contains(x) implies r.to_set().contains(x) by {
        let i = choose|i: int| 0 <= i < l.len() && l[i] == x;
        lemma_perm_onto(p, l.len(), i);
        let k = choose|k: int| 0 <= k < p.len() && p[k] == i;
        assert(r[k] == x);
    }
    assert forall|x: i64| r.to_set().contains(x) implies l.to_set().contains(x) by {
        let k = choose|k: int| 0 <= k < r.len() && r[k] == x;
        assert(l[p[k] as int] == x);
    }
    assert(r.to_set() =~= l.to_set());
    assert forall|a: int, b: int| 0 <= a < b < r.len() implies r[a] != r[b] by {
        assert(p[a] != p[b]);
    }
}

/// A duplicate-free list of `n` indices below `n` holds every index.
proof fn lemma_perm_onto(p: Seq<usize>, n: nat, i: int)
    requires
        p.len() == n,
        n <= usize::MAX,
        forall|k: int| 0 <= k < p.len() ==> #[trigger] p[k] < n,
        p.no_duplicates(),
        0 <= i < n,
    ensures
        exists|k: int| 0 <= k < p.len() && p[k] == i,
{
    if !(exists|k: int| 0 <= k < p.len() && p[k] == i) {
        let s = p.to_set();
        let full = Set::new(|x: usize| x < n);
        let smaller = full.remove(i as usize);
        assert forall|x: usize| s.contains(x) implies smaller.contains(x) by {
            let k = choose|k: int| 0 <= k < p.len() && p[k] == x;
            assert(p[k] < n);
        }
        lemma_usize_range_len(n);
        p.unique_seq_to_set();
        assert(full.contains(i as usize));
        vstd::set_lib::lemma_len_subset(s, smaller);
    }
}

proof fn lemma_usize_range_len(n: nat)
    requires
        n <= usize::MAX + 1,
    ensures
        Set::new(|x: usize| x < n).finite(),
        Set::new(|x: usize| x < n).len() == n,
    decreases n,
{
    if n == 0 {
        assert(Set::new(|x: usize| x < n) =~= Set::<usize>::empty());
    } else {
        lemma_usize_range_len((n - 1) as nat);
        assert(Set::new(|x: usize| x < n) =~= Set::new(|x: usize| x < (n - 1) as nat).insert((n - 1) as usize));
    }
}

/// An order that holds between the items of `s` also holds between the
/// items of any filter of `s`.
proof fn lemma_filter_order(s: Seq<i64>, f: spec_fn(i64) -> bool, le: spec_fn(i64, i64) -> bool, a: int, b: int)
    requires
        forall|i: int, j: int| 0 <= i < j < s.len() ==> le(#[trigger] s[i], #[trigger] s[j]),
        0 <= a < b < s.filter(f).len(),
    ensures
        le(s.filter(f)[a], s.filter(f)[b]),
    decreases s.len(),
{
    reveal(Seq::filter);
    let p = s.drop_last().filter(f);
    assert forall|i: int, j: int| 0 <= i < j < s.drop_last().len() implies le(#[trigger] s.drop_last()[i], #[trigger] s.drop_last()[j]) by {
        assert(s.drop_last()[i] == s[i]);
        assert(s.drop_last()[j] == s[j]);
    }
    if f(s.last()) && b == s.filter(f).len() - 1 {
        assert(s.filter(f)[b] == s.last());
        assert(s.filter(f)[a] == p[a]);
        s.drop_last().lemma_filter_contains_rev(f, p[a]);
        assert(p.contains(p[a]));
        let k = choose|k: int| 0 <= k < s.drop_last().len() && s.drop_last()[k] == p[a];
        assert(s[k] == p[a]);
        assert(le(s[k], s[s.len() - 1]));
    } else {
        lemma_filter_order(s.drop_last(), f, le, a, b);
        assert(s.filter(f)[a] == p[a]);
        assert(s.filter(f)[b] == p[b]);
    }
}

/// Whether `v` holds `x`.
fn vec_contains(v: &Vec<i64>, x: i64) -> (r: bool)
    ensures
        r == v@.contains(x),
{
    let mut i: usize = 0;
    while i < v.len()
        invariant
            i <= v@.len(),
            forall|j: int| 0 <= j < i ==> v@[j] != x,
        decreases v@.len() - i,
    {
        if v[i] == x {
            return true;
        }
        i = i + 1;
    }
    false
}

/// `x` followed by the other items of `v` in order.
fn move_to_front(v: &Vec<i64>, x: i64) -> (r: Vec<i64>)
    requires
        v@.contains(x),
        v@.no_duplicates(),
    ensures
        r@.len() > 0,
        r@[0] == x,
        r@.skip(1) == v@.filter(|y: i64| y != x),
        r@.to_set() == v@.to_set(),
        r@.no_duplicates(),
{
    let ghost f = |y: i64| y != x;
    let mut r: Vec<i64> = Vec::new();
    r.push(x);
    let mut i: usize = 0;
    while i < v.len()
        invariant
            i <= v@.len(),
            r@.len() > 0,
            r@[0] == x,
            r@.skip(1) == v@.take(i as int).filter(f),
            f == (|y: i64| y != x),
        decreases v@.len() - i,
    {
        proof {
            assert(v@.take(i + 1) =~= v@.take(i as int).push(v@[i as int]));
            v@.take(i as int).lemma_filter_push(v@[i as int], f);
        }
        if v[i] != x {
            let ghost before = r@;
            r.push(v[i]);
            proof {
                assert(r@.skip(1) =~= before.skip(1).push(v@[i as int]));
            }
        }
        i = i + 1;
    }
    proof {
        assert(v@.take(v@.len() as int) =~= v@);
        let rest = r@.skip(1);
        assert(r@ =~= seq![x] + rest);
        v@.filter_lemma(f);
        assert forall|y: i64| v@.to_set().contains(y) implies r@.to_set().contains(y) by {
            if y != x {
                let i = choose|i: int| 0 <= i < v@.len() && v@[i] == y;
                assert(rest.contains(y));
                let k = choose|k: int| 0 <= k < rest.len() && rest[k] == y;
                assert(r@[k + 1] == y);
            } else {
                assert(r@[0] == y);
            }
        }
        assert forall|y: i64| r@.to_set().contains(y) implies v@.to_set().contains(y) by {
            let k = choose|k: int| 0 <= k < r@.len() && r@[k] == y;
            if k > 0 {
                assert(rest[k - 1] == y);
                assert(rest.contains(y));
                v@.lemma_filter_contains_rev(f, y);
            }
        }
        assert(r@.to_set() =~= v@.to_set());
        assert(rest.no_duplicates()) by {
            lemma_filter_no_dups(v@, f);
        }
        assert forall|a: int, b: int| 0 <= a < b < r@.len() implies r@[a] != r@[b] by {
            if a == 0 {
                assert(r@[b] == rest[b - 1]);
                assert(f(rest[b - 1]));
            } else {
                assert(r@[a] == rest[a - 1]);
                assert(r@[b] == rest[b - 1]);
            }
        }
    }
    r
}

proof fn lemma_filter_no_dups(s: Seq<i64>, f: spec_fn(i64) -> bool)
    requires
        s.no_duplicates(),
    ensures
        s.filter(f).no_duplicates(),
    decreases s.len(),
{
    reveal(Seq::filter);
    if s.len() > 0 {
        lemma_filter_no_dups(s.drop_last(), f);
        if f(s.last()) {
            let p = s.drop_last().filter(f);
            assert(!p.contains(s.last())) by {
                if p.contains(s.last()) {
                    s.drop_last().lemma_filter_contains_rev(f, s.last());
                    let k = choose|k: int| 0 <= k < s.drop_last().len() && s.drop_last()[k] == s.last();
                    assert(s[k] == s[s.len() - 1]);
                }
            }
        }
    }
}


/// Artist ids of the shows, as a set.
pub open spec fn artist_ids_of(shows: Seq<CatalogShow>) -> Set<i64> {
    Set::new(|a: i64| exists|i: int| 0 <= i < shows.len() && (#[trigger] shows[i]).artist_id == a)
}

/// The valid live shows of `l`, in order.
pub open spec fn valid_shows(l: Seq<CatalogShow>) -> Seq<CatalogShow> {
    l.filter(|s: CatalogShow| spec_is_valid_live_show(s))
}

/// Shows not by `artist_id`, in order.
pub open spec fn without_artist(l: Seq<CatalogShow>, artist_id: i64) -> Seq<CatalogShow> {
    l.filter(|s: CatalogShow| s.artist_id != artist_id)
}

/// Shows not from `service`, in order.
pub open spec fn without_service(l: Seq<CatalogShow>, service: Service) -> Seq<CatalogShow> {
    l.filter(|s: CatalogShow| s.service != service)
}

fn filter_valid(l: Vec<CatalogShow>) -> (r: Vec<CatalogShow>)
    ensures
        r@ == valid_shows(l@),
{
    let ghost f = |s: CatalogShow| spec_is_valid_live_show(s);
    let mut out: Vec<CatalogShow> = Vec::new();
    let mut i: usize = 0;
    while i < l.len()
        invariant
            i <= l@.len(),
            out@ == l@.take(i as int).filter(f),
            f == (|s: CatalogShow| spec_is_valid_live_show(s)),
        decreases l@.len() - i,
    {
        proof {
            assert(l@.take(i + 1) =~= l@.take(i as int).push(l@[i as int]));
            l@.take(i as int).lemma_filter_push(l@[i as int], f);
        }
        if is_valid_live_show(&l[i]) {
            out.push(l[i].duplicate());
        }
        i = i + 1;
    }
    proof {
        assert(l@.take(l@.len() as int) =~= l@);
    }
    out
}

/// The count to record for an artist's cache: -1 for no usable cache, else
/// the number of its valid live shows.
pub fn cache_count(cached: &Option<Vec<CatalogShow>>) -> (r: i32)
    ensures
        r == cache_count_of(match cached { Some(v) => Some(v@), None => None }),
{
    match cached {
        None => -1,
        Some(v) => {
            let mut n: usize = 0;
            let ghost f = |s: CatalogShow| spec_is_valid_live_show(s);
            let mut i: usize = 0;
            while i < v.len()
                invariant
                    i <= v@.len(),
                    n == v@.take(i as int).filter(f).len(),
                    f == (|s: CatalogShow| spec_is_valid_live_show(s)),
                decreases v@.len() - i,
            {
                proof {
                    assert(v@.take(i + 1) =~= v@.take(i as int).push(v@[i as int]));
                    v@.take(i as int).lemma_filter_push(v@[i as int], f);
                    v@.take(i as int).filter(f).len();
                }
                if is_valid_live_show(&v[i]) {
                    proof {
                        v@.take(i as int).lemma_filter_len(f);
                    }
                    n = n + 1;
                }
                i = i + 1;
            }
            proof {
                assert(v@.take(v@.len() as int) =~= v@);
            }
            #[verifier::truncate] (n as i32)
        },
    }
}

/// The valid live shows of a cache file, and whether the file has to be
/// rewritten because some rows were dropped.
pub fn clean_cache_rows(shows: Vec<CatalogShow>) -> (r: (Vec<CatalogShow>, bool))
    ensures
        r.0@ == valid_shows(shows@),
        r.1 == (valid_shows(shows@).len() < shows@.len()),
{
    let n = shows.len();
    let valid = filter_valid(shows);
    let dropped = valid.len() < n;
    (valid, dropped)
}

/// The shows with their service set to `service`.
pub fn tag_service(shows: Vec<CatalogShow>, service: Service) -> (r: Vec<CatalogShow>)
    ensures
        r@.len() == shows@.len(),
        forall|i: int| 0 <= i < r@.len() ==> #[trigger] r@[i] == (CatalogShow { service, ..shows@[i] }),
{
    let mut out: Vec<CatalogShow> = Vec::new();
    let mut i: usize = 0;
    while i < shows.len()
        invariant
            i <= shows@.len(),
            out@.len() == i,
            forall|j: int| 0 <= j < i ==> #[trigger] out@[j] == (CatalogShow { service, ..shows@[j] }),
        decreases shows@.len() - i,
    {
        let mut s = shows[i].duplicate();
        s.service = service;
        out.push(s);
        i = i + 1;
    }
    out
}


/// The name shown for an artist: from its first loaded show, else from
/// the registry.
pub open spec fn display_name(c: Catalog, id: i64) -> Option<Seq<char>> {
    match first_name_of(c.show_list(), id) {
        Some(n) => Some(n),
        None => if c.registry().contains_key(id) { Some(c.registry()[id]@) } else { None },
    }
}

/// The best-ranked id carrying `name`.
pub open spec fn best_id(c: Catalog, name: Seq<char>) -> i64 {
    choose|id: i64| is_best_of(c, name, id)
}

/// One choice per group: its best id and display name (groups whose best
/// id has no name are left out).
pub open spec fn choices_for(c: Catalog, groups: Seq<(String, Vec<i64>)>) -> Seq<(i64, Seq<char>)>
    decreases groups.len(),
{
    if groups.len() == 0 {
        Seq::<(i64, Seq<char>)>::empty()
    } else {
        let prev = choices_for(c, groups.drop_last());
        let b = best_id(c, groups.last().0@);
        match display_name(c, b) {
            Some(n) => prev.push((b, n)),
            None => prev,
        }
    }
}

pub open spec fn choice_keys(v: Seq<(i64, Seq<char>)>) -> Seq<(Seq<char>, Seq<char>)> {
    v.map_values(|e: (i64, Seq<char>)| (lowercase(e.1), Seq::<char>::empty()))
}

pub open spec fn choice_views(v: Seq<(i64, String)>) -> Seq<(i64, Seq<char>)> {
    v.map_values(|e: (i64, String)| (e.0, e.1@))
}

proof fn lemma_best_unique(c: Catalog, name: Seq<char>, a: i64, b: i64)
    requires
        is_best_of(c, name, a),
        is_best_of(c, name, b),
    ensures
        a == b,
{
    if a != b {
        assert(ids_named(c.registry(), name).contains(b));
        assert(key_lt(c.rank_of(b), c.rank_of(a)));
        assert(key_lt(c.rank_of(a), c.rank_of(b)));
        lemma_key_lt_facts(c.rank_of(a), c.rank_of(b), c.rank_of(a));
    }
}


/// With current indexes, the index entry of any year lists exactly the
/// shows of that year, in order (nothing for a year without shows); so
/// `get_shows_by_year` gives exactly the shows of the year, newest first.
pub proof fn law_year_listing_is_exact(c: Catalog, y: Seq<char>)
    requires
        c.indexes_current(),
    ensures
        year_entry(c.year_index(), y) == positions_with_year(c.show_list(), y, c.show_list().len()),
        shows_at(c.show_list(), year_entry(c.year_index(), y))
            == c.show_list().filter(|s: CatalogShow| year_key(s) == y),
{
    let idx = c.year_index();
    let sh = c.show_list();
    if has_year(idx, y) {
        let i = choose|i: int| 0 <= i < idx.len() && (#[trigger] idx[i]).0@ == y;
        assert(idx[i].1@ == positions_with_year(sh, idx[i].0@, sh.len()));
    } else {
        assert forall|k: int| 0 <= k < sh.len() implies year_key(#[trigger] sh[k]) != y by {
            assert(has_year(idx, year_key(sh[k])));
        }
        lemma_positions_empty(sh, y, sh.len());
        assert(positions_with_year(sh, y, sh.len()) =~= Seq::<usize>::empty());
    }
    assert(sh.len() <= usize::MAX) by {
        assert(c.shows@.len() == c.shows.len());
    }
    lemma_positions_are_filter(sh, y, sh.len());
    assert(sh.take(sh.len() as int) =~= sh);
}

proof fn lemma_positions_are_filter(shows: Seq<CatalogShow>, y: Seq<char>, n: nat)
    requires
        n <= shows.len() <= usize::MAX,
    ensures
        shows_at(shows, positions_with_year(shows, y, n)) == shows.take(n as int).filter(|s: CatalogShow| year_key(s) == y),
    decreases n,
{
    let f = |s: CatalogShow| year_key(s) == y;
    if n == 0 {
        assert(shows.take(0) =~= Seq::<CatalogShow>::empty());
        assert(shows_at(shows, Seq::<usize>::empty()) =~= Seq::<CatalogShow>::empty());
    } else {
        lemma_positions_are_filter(shows, y, (n - 1) as nat);
        assert(shows.take(n as int) =~= shows.take(n - 1).push(shows[n - 1]));
        shows.take(n - 1).lemma_filter_push(shows[n - 1], f);
        let prev = positions_with_year(shows, y, (n - 1) as nat);
        if year_key(shows[n - 1]) == y {
            let last = (n - 1) as usize;
            assert(last as int == n - 1);
            assert(shows_at(shows, prev.push(last)) =~= shows_at(shows, prev).push(shows[n - 1]));
        }
    }
}

/// The shows kept by the catalog are all valid live shows.
pub proof fn law_catalog_keeps_only_live_shows(c: Catalog, k: int)
    requires
        c.indexes_current(),
        0 <= k < c.show_list().len(),
    ensures
        spec_is_valid_live_show(c.show_list()[k]),
{
}


/// What loading an artist does next with one candidate id.
#[derive(Debug, Clone, Copy, PartialEq, Eq, Structural)]
pub enum LoadStep {
    /// The candidate is the artist: remember it as preferred and return it.
    Found,
    /// Fetch the candidate's catalog, then decide again with the result.
    Fetch,
    /// Try the next candidate.
    Next,
    /// Give up: no artist is loaded.
    Stop,
}

/// The normalized name a load by name has to meet; empty for a load by id.
pub open spec fn spec_requested_name(target: ArtistTarget) -> Seq<char> {
    match target {
        ArtistTarget::Name(name) => spec_normalize_artist_name(name@),
        ArtistTarget::Id(_) => Seq::<char>::empty(),
    }
}

/// After candidate `idx` of `n` fails: the next one, when aliases may be
/// tried and there is one.
pub open spec fn next_or_stop(idx: int, n: int, allow_alias_fallback: bool) -> LoadStep {
    if !allow_alias_fallback || idx == n - 1 { LoadStep::Stop } else { LoadStep::Next }
}

/// Shows of a candidate are accepted unless a name was requested and the
/// first show's artist name normalizes to another one.
pub open spec fn judge_shows(requested: Seq<char>, first_name: Seq<char>, idx: int, n: int, allow_alias_fallback: bool) -> LoadStep {
    if requested.len() > 0 && spec_normalize_artist_name(first_name) != requested {
        next_or_stop(idx, n, allow_alias_fallback)
    } else {
        LoadStep::Found
    }
}

/// One step of loading an artist, for candidate `idx` of `n`: judge the
/// shows already loaded for it; else fetch it unless that was attempted;
/// after a fetch, judge the fetched shows.
pub open spec fn spec_load_step(
    requested: Seq<char>,
    existing: Seq<CatalogShow>,
    attempted: bool,
    fetched: Option<Seq<CatalogShow>>,
    idx: int,
    n: int,
    allow_alias_fallback: bool,
) -> LoadStep {
    match fetched {
        None => if existing.len() > 0 {
            judge_shows(requested, existing[0].artist_name@, idx, n, allow_alias_fallback)
        } else if !attempted {
            LoadStep::Fetch
        } else {
            next_or_stop(idx, n, allow_alias_fallback)
        },
        Some(f) => if f.len() > 0 {
            judge_shows(requested, f[0].artist_name@, idx, n, allow_alias_fallback)
        } else {
            next_or_stop(idx, n, allow_alias_fallback)
        },
    }
}

/// A load only succeeds on shows: a candidate is taken only when the shows
/// judged (the fetched ones after a fetch, else the loaded ones) are not
/// empty and, for a load by name, the first one's artist normalizes to the
/// requested name.
pub proof fn law_load_found_has_matching_shows(
    requested: Seq<char>,
    existing: Seq<CatalogShow>,
    attempted: bool,
    fetched: Option<Seq<CatalogShow>>,
    idx: int,
    n: int,
    allow_alias_fallback: bool,
)
    requires
        spec_load_step(requested, existing, attempted, fetched, idx, n, allow_alias_fallback) == LoadStep::Found,
    ensures
        ({
            let judged = match fetched { Some(f) => f, None => existing };
            judged.len() > 0 && (requested.len() == 0 || spec_normalize_artist_name(judged[0].artist_name@) == requested)
        }),
{
}

pub open spec fn opt_shows(v: Option<&Vec<CatalogShow>>) -> Option<Seq<CatalogShow>> {
    match v {
        Some(l) => Some(l@),
        None => None,
    }
}

/// The show count of an artist's cache as read: -1 when there is no usable
/// cache, else the number of its valid live shows.
pub open spec fn cache_count_of(cached: Option<Seq<CatalogShow>>) -> i32 {
    match cached {
        None => -1i32,
        Some(v) => valid_shows(v).len() as i32,
    }
}

/// The registry as plain values: id to name.
pub open spec fn registry_view(reg: Map<i64, String>) -> Map<i64, Seq<char>> {
    reg.map_values(|s: String| s@)
}

/// The registry after registering `id` as `name`: a known id keeps its name.
pub open spec fn spec_register(reg: Map<i64, Seq<char>>, id: i64, name: Seq<char>) -> Map<i64, Seq<char>> {
    if reg.contains_key(id) { reg } else { reg.insert(id, name) }
}

/// Only the first registration of an id counts: registering it again,
/// under any name, changes nothing.
pub proof fn law_first_registration_wins(reg: Map<i64, Seq<char>>, id: i64, first: Seq<char>, second: Seq<char>)
    ensures
        spec_register(spec_register(reg, id, first), id, second) == spec_register(reg, id, first),
        spec_register(reg, id, first)[id] == (if reg.contains_key(id) { reg[id] } else { first }),
{
}

/// The count of a cache as read is -1 exactly when there is no usable
/// cache, and positive exactly when the cache holds a valid live show
/// (for caches of at most `i32::MAX` valid shows).
pub proof fn law_cache_count(cached: Option<Seq<CatalogShow>>)
    requires
        cached matches Some(v) ==> valid_shows(v).len() <= i32::MAX,
    ensures
        cache_count_of(cached) >= -1,
        (cache_count_of(cached) == -1) <==> cached is None,
        cached matches Some(v) ==> (cache_count_of(cached) > 0 <==> valid_shows(v).len() > 0),
{
}

/// How many of the discovered ids the registry does not hold yet.
pub open spec fn new_id_count(reg: Map<i64, String>, d: Seq<(i64, String)>) -> nat
    decreases d.len(),
{
    if d.len() == 0 {
        0
    } else {
        new_id_count(reg, d.drop_last()) + if reg.contains_key(d.last().0) { 0nat } else { 1nat }
    }
}

/// `id` is one of the discovered ids.
pub open spec fn is_discovered(d: Seq<(i64, String)>, id: i64) -> bool {
    exists|i: int| 0 <= i < d.len() && (#[trigger] d[i]).0 == id
}


/// Multi-artist catalog with per-artist caching, dedup, and search.
pub struct Catalog {
    cache_dir: PathBuf,
    /// All loaded shows (filtered to valid live shows by `build_indexes`).
    pub shows: Vec<CatalogShow>,
    by_year: Vec<(String, Vec<usize>)>,
    search_corpus: Vec<(i64, String)>,
    search_show_idx: HashMap<i64, usize>,
    artist_registry: HashMap<i64, String>,
    loaded_artists: HashSet<i64>,
    attempted_artists: HashSet<i64>,
    preferred_artist_ids: Vec<(String, i64)>,
    cache_counts: HashMap<i64, i32>,
    setlistfm_api_key: String,
}

impl Catalog {
    pub closed spec fn show_list(&self) -> Seq<CatalogShow> {
        self.shows@
    }

    pub closed spec fn dir(&self) -> PathBuf {
        self.cache_dir
    }

    pub closed spec fn year_index(&self) -> Seq<(String, Vec<usize>)> {
        self.by_year@
    }

    pub closed spec fn corpus(&self) -> Seq<(i64, String)> {
        self.search_corpus@
    }

    pub closed spec fn id_lookup(&self) -> Map<i64, usize> {
        self.search_show_idx@
    }

    pub closed spec fn registry(&self) -> Map<i64, String> {
        self.artist_registry@
    }

    pub closed spec fn loaded(&self) -> Set<i64> {
        self.loaded_artists@
    }

    pub closed spec fn attempted(&self) -> Set<i64> {
        self.attempted_artists@
    }

    pub closed spec fn preferred(&self) -> Seq<(String, i64)> {
        self.preferred_artist_ids@
    }

    pub closed spec fn cache_count_map(&self) -> Map<i64, i32> {
        self.cache_counts@
    }

    pub closed spec fn api_key(&self) -> Seq<char> {
        self.setlistfm_api_key@
    }

    /// Shows counted in the cache for `artist_id`; -1 when unknown.
    /// Every recorded cache count is -1 (no usable cache) or a count.
    pub open spec fn cache_counts_ok(&self) -> bool {
        forall|k: i64| #[trigger] self.cache_count_map().contains_key(k) ==> self.cache_count_map()[k] >= -1
    }

    pub open spec fn cached_count(&self, artist_id: i64) -> i32 {
        if self.cache_count_map().contains_key(artist_id) { self.cache_count_map()[artist_id] } else { -1i32 }
    }

    /// The rank key of `artist_id` among its aliases.
    pub open spec fn rank_of(&self, artist_id: i64) -> (u8, usize, u8, i32, i64) {
        spec_rank_key(artist_id, loaded_count(self.show_list(), artist_id) as usize, self.cached_count(artist_id))
    }

    /// Every registry id has a rank key (its negation fits in `i64`).
    pub open spec fn registry_ids_ok(&self) -> bool {
        forall|id: i64| #[trigger] self.registry().contains_key(id) ==> id > i64::MIN
    }

    /// The indexes point into `shows`.
    pub open spec fn indexes_ok(&self) -> bool {
        &&& forall|i: int, j: int| 0 <= i < j < self.year_index().len() ==> (#[trigger] self.year_index()[i]).0@ != (#[trigger] self.year_index()[j]).0@
        &&& forall|i: int, j: int| 0 <= i < self.year_index().len() && 0 <= j < (#[trigger] self.year_index()[i]).1@.len()
            ==> #[trigger] self.year_index()[i].1@[j] < self.show_list().len()
        &&& forall|cid: i64| #[trigger] self.id_lookup().contains_key(cid) ==> self.id_lookup()[cid] < self.show_list().len()
        &&& self.show_list().len() < usize::MAX
    }

    /// The indexes describe `shows` exactly.
    pub open spec fn indexes_current(&self) -> bool {
        &&& is_year_index(self.show_list(), self.year_index())
        &&& is_corpus_of(self.show_list(), self.corpus())
        &&& is_lookup_of(self.show_list(), self.id_lookup())
        &&& forall|k: int| 0 <= k < self.show_list().len() ==> spec_is_valid_live_show(#[trigger] self.show_list()[k])
    }

    /// An empty catalog keeping its caches under `cache_dir`.
    pub fn new(cache_dir: PathBuf) -> (r: Self)
        ensures
            r.show_list().len() == 0,
            r.year_index().len() == 0,
            r.corpus().len() == 0,
            r.id_lookup() == Map::<i64, usize>::empty(),
            r.registry() == Map::<i64, String>::empty(),
            r.loaded() == Set::<i64>::empty(),
            r.attempted() == Set::<i64>::empty(),
            r.preferred().len() == 0,
            r.cache_count_map() == Map::<i64, i32>::empty(),
            r.api_key().len() == 0,
            r.indexes_ok(),
            r.indexes_current(),
            r.cache_counts_ok(),
            r.registry_ids_ok(),
    {
        let r = Catalog {
            cache_dir,
            shows: Vec::new(),
            by_year: Vec::new(),
            search_corpus: Vec::new(),
            search_show_idx: HashMap::new(),
            artist_registry: HashMap::new(),
            loaded_artists: HashSet::new(),
            attempted_artists: HashSet::new(),
            preferred_artist_ids: Vec::new(),
            cache_counts: HashMap::new(),
            setlistfm_api_key: String::new(),
        };
        proof {
            assert(is_lookup_of(r.shows@, r.id_lookup()));
        }
        r
    }

    /// The directory the catalog caches are kept in.
    pub fn cache_dir(&self) -> (r: &PathBuf)
        ensures
            *r == self.dir(),
    {
        &self.cache_dir
    }

    /// Set the setlist.fm API key for catalog-time venue enrichment.
    pub fn set_setlistfm_api_key(&mut self, key: &str)
        ensures
            final(self).api_key() == key@,
            final(self).show_list() == old(self).show_list(),
            final(self).year_index() == old(self).year_index(),
            final(self).corpus() == old(self).corpus(),
            final(self).id_lookup() == old(self).id_lookup(),
            final(self).registry() == old(self).registry(),
            final(self).loaded() == old(self).loaded(),
            final(self).attempted() == old(self).attempted(),
            final(self).preferred() == old(self).preferred(),
            final(self).cache_count_map() == old(self).cache_count_map(),
    {
        self.setlistfm_api_key = crate::text::owned(key);
    }

    /// The setlist.fm API key.
    pub fn setlistfm_api_key(&self) -> (r: &str)
        ensures
            r@ == self.api_key(),
    {
        self.setlistfm_api_key.as_str()
    }

    /// Record how many shows the cache file of `artist_id` holds (-1 when
    /// it is missing, stale or corrupt), as the disk shows it.
    pub fn record_cache_count(&mut self, artist_id: i64, count: i32)
        requires
            count >= -1,
        ensures
            old(self).cache_counts_ok() ==> final(self).cache_counts_ok(),
            final(self).cache_count_map() == old(self).cache_count_map().insert(artist_id, count),
            final(self).show_list() == old(self).show_list(),
            final(self).year_index() == old(self).year_index(),
            final(self).corpus() == old(self).corpus(),
            final(self).id_lookup() == old(self).id_lookup(),
            final(self).registry() == old(self).registry(),
            final(self).loaded() == old(self).loaded(),
            final(self).attempted() == old(self).attempted(),
            final(self).preferred() == old(self).preferred(),
            final(self).api_key() == old(self).api_key(),
    {
        self.cache_counts.insert(artist_id, count);
        proof {
            if old(self).cache_counts_ok() {
                assert forall|k: i64| #[trigger] self.cache_count_map().contains_key(k) implies self.cache_count_map()[k] >= -1 by {
                    if k != artist_id {
                        assert(old(self).cache_count_map().contains_key(k));
                    }
                }
            }
        }
    }


    /// The id among `ids` that ranks first (loaded shows, then cache, then
    /// the lower id).
    fn choose_preferred_artist_id(&self, ids: &Vec<i64>) -> (r: i64)
        requires
            ids@.len() > 0,
            ids@.no_duplicates(),
            forall|i: int| 0 <= i < ids@.len() ==> #[trigger] ids@[i] > i64::MIN,
            self.show_list().len() < usize::MAX,
        ensures
            ids@.contains(r),
            forall|other: i64| #[trigger] ids@.contains(other) && other != r ==> key_lt(self.rank_of(other), self.rank_of(r)),
    {
        if ids.len() == 1 {
            return ids[0];
        }
        let mut keys: Vec<(u8, usize, u8, i32, i64)> = Vec::new();
        let mut i: usize = 0;
        while i < ids.len()
            invariant
                i <= ids@.len(),
                keys@.len() == i,
                forall|j: int| 0 <= j < ids@.len() ==> #[trigger] ids@[j] > i64::MIN,
                self.show_list().len() < usize::MAX,
                forall|j: int| 0 <= j < i ==> #[trigger] keys@[j] == self.rank_of(ids@[j]),
            decreases ids@.len() - i,
        {
            let id = ids[i];
            let loaded = count_shows_of(&self.shows, id);
            proof {
                self.show_list().lemma_filter_len(|s: CatalogShow| s.artist_id == id);
            }
            let cc = self.cache_show_count(id);
            keys.push(artist_rank_key(id, loaded, cc));
            i = i + 1;
        }
        let best = index_of_max(&keys);
        proof {
            assert forall|other: i64| #[trigger] ids@.contains(other) && other != ids@[best as int] implies
                key_lt(self.rank_of(other), self.rank_of(ids@[best as int])) by {
                let j = choose|j: int| 0 <= j < ids@.len() && ids@[j] == other;
                assert(keys@[j] == self.rank_of(other));
                assert(!key_lt(keys@[best as int], keys@[j]));
                assert(keys@[j].4 != keys@[best as int].4);
                lemma_key_lt_facts(keys@[j], keys@[best as int], keys@[j]);
            }
        }
        ids[best]
    }

    /// Recompute the preferred id of every normalized registry name.
    fn rebuild_preferred_artist_ids(&mut self)
        requires
            old(self).registry_ids_ok(),
            old(self).show_list().len() < usize::MAX,
        ensures
            is_preferred_table(*final(self)),
            final(self).show_list() == old(self).show_list(),
            final(self).year_index() == old(self).year_index(),
            final(self).corpus() == old(self).corpus(),
            final(self).id_lookup() == old(self).id_lookup(),
            final(self).registry() == old(self).registry(),
            final(self).loaded() == old(self).loaded(),
            final(self).attempted() == old(self).attempted(),
            final(self).cache_count_map() == old(self).cache_count_map(),
            final(self).api_key() == old(self).api_key(),
            final(self).dir() == old(self).dir(),
    {
        let groups = registry_groups(&self.artist_registry);
        let mut table: Vec<(String, i64)> = Vec::new();
        let mut g: usize = 0;
        while g < groups.len()
            invariant
                is_grouping(self.registry(), groups@),
                self.registry_ids_ok(),
                self.show_list().len() < usize::MAX,
                g <= groups@.len(),
                table@.len() == g,
                forall|i: int| 0 <= i < g ==> (#[trigger] table@[i]).0@ == groups@[i].0@,
                forall|i: int| 0 <= i < g ==> is_best_of(*self, (#[trigger] table@[i]).0@, table@[i].1),
            decreases groups@.len() - g,
        {
            let ids = &groups[g].1;
            proof {
                assert(groups@[g as int].1@.to_set() == ids_named(self.registry(), groups@[g as int].0@));
                assert forall|i: int| 0 <= i < ids@.len() implies #[trigger] ids@[i] > i64::MIN by {
                    assert(ids@.to_set().contains(ids@[i]));
                }
            }
            let best = self.choose_preferred_artist_id(ids);
            proof {
                let nm = groups@[g as int].0@;
                assert(ids@.to_set().contains(best));
                assert forall|other: i64| #[trigger] ids_named(self.registry(), nm).contains(other) && other != best
                    implies key_lt(self.rank_of(other), self.rank_of(best)) by {
                    assert(ids@.to_set().contains(other));
                }
            }
            let name = groups[g].0.clone();
            table.push((name, best));
            g = g + 1;
        }
        proof {
            let c = *self;
            assert forall|id: i64| #[trigger] self.registry().contains_key(id) implies exists|i: int| 0 <= i < table@.len()
                && (#[trigger] table@[i]).0@ == spec_normalize_artist_name(self.registry()[id]@) by {
                let i = choose|i: int| 0 <= i < groups@.len() && (#[trigger] groups@[i]).0@ == spec_normalize_artist_name(self.registry()[id]@);
                assert(table@[i].0@ == groups@[i].0@);
            }
        }
        let ghost c0 = *self;
        self.preferred_artist_ids = table;
        proof {
            assert forall|i: int| 0 <= i < self.preferred().len() implies is_best_of(*self, (#[trigger] self.preferred()[i]).0@, self.preferred()[i].1) by {
                let nm = table@[i].0@;
                let id = table@[i].1;
                assert(is_best_of(c0, nm, id));
                assert(self.registry() == c0.registry());
                assert forall|other: i64| #[trigger] ids_named(self.registry(), nm).contains(other) && other != id
                    implies key_lt(self.rank_of(other), self.rank_of(id)) by {
                    assert(self.rank_of(other) == c0.rank_of(other));
                    assert(self.rank_of(id) == c0.rank_of(id));
                }
            }
            assert forall|i: int, j: int| 0 <= i < j < self.preferred().len() implies (#[trigger] self.preferred()[i]).0@ != (#[trigger] self.preferred()[j]).0@ by {
                assert(table@[i].0@ == groups@[i].0@);
                assert(table@[j].0@ == groups@[j].0@);
            }
        }
    }

    /// Re-filter the shows to valid live shows and rebuild the year, search
    /// and id indexes and the preferred-id table.
    pub fn build_indexes(&mut self)
        requires
            old(self).registry_ids_ok(),
            old(self).show_list().len() < usize::MAX,
        ensures
            final(self).show_list() == old(self).show_list().filter(|s: CatalogShow| spec_is_valid_live_show(s)),
            final(self).indexes_ok(),
            final(self).indexes_current(),
            is_preferred_table(*final(self)),
            final(self).registry() == old(self).registry(),
            final(self).loaded() == old(self).loaded(),
            final(self).attempted() == old(self).attempted(),
            final(self).cache_count_map() == old(self).cache_count_map(),
            final(self).api_key() == old(self).api_key(),
            final(self).dir() == old(self).dir(),
            final(self).registry_ids_ok(),
    {
        let ghost valid = |s: CatalogShow| spec_is_valid_live_show(s);
        let ghost all = self.shows@;
        let mut kept: Vec<CatalogShow> = Vec::new();
        let mut i: usize = 0;
        while i < self.shows.len()
            invariant
                all == self.shows@,
                i <= all.len(),
                kept@ == all.take(i as int).filter(valid),
                valid == (|s: CatalogShow| spec_is_valid_live_show(s)),
            decreases all.len() - i,
        {
            proof {
                assert(all.take(i + 1) =~= all.take(i as int).push(all[i as int]));
                all.take(i as int).lemma_filter_push(all[i as int], valid);
            }
            if is_valid_live_show(&self.shows[i]) {
                kept.push(self.shows[i].duplicate());
            }
            i = i + 1;
        }
        proof {
            assert(all.take(all.len() as int) =~= all);
            all.lemma_filter_len(valid);
            all.filter_lemma(valid);
        }
        self.shows = kept;
        let ghost sh = self.shows@;
        let n = self.shows.len();

        let mut by_year: Vec<(String, Vec<usize>)> = Vec::new();
        let mut corpus: Vec<(i64, String)> = Vec::new();
        let mut lookup: HashMap<i64, usize> = HashMap::new();
        let mut k: usize = 0;
        while k < n
            invariant
                sh == self.shows@,
                n == sh.len(),
                k <= n,
                forall|i: int, j: int| 0 <= i < j < by_year@.len() ==> (#[trigger] by_year@[i]).0@ != (#[trigger] by_year@[j]).0@,
                forall|i: int| 0 <= i < by_year@.len() ==> (#[trigger] by_year@[i]).1@ == positions_with_year(sh, by_year@[i].0@, k as nat),
                forall|i: int| 0 <= i < by_year@.len() ==> (#[trigger] by_year@[i]).1@.len() > 0,
                forall|kk: int| 0 <= kk < k ==> has_year(by_year@, year_key(#[trigger] sh[kk])),
                corpus@.len() == k,
                forall|kk: int| 0 <= kk < k ==> (#[trigger] corpus@[kk]).0 == sh[kk].container_id && corpus@[kk].1@ == spec_corpus_entry(sh[kk]),
                forall|cid: i64| #[trigger] lookup@.contains_key(cid) == (last_with_id(sh, cid, k as nat) is Some)
                    && (lookup@.contains_key(cid) ==> Some(lookup@[cid]) == last_with_id(sh, cid, k as nat)),
            decreases n - k,
        {
            let y = year_key_of(&self.shows[k]);
            let mut g: usize = 0;
            while g < by_year.len() && !str_eq(by_year[g].0.as_str(), y)
                invariant
                    g <= by_year@.len(),
                    forall|i: int| 0 <= i < g ==> (#[trigger] by_year@[i]).0@ != y@,
                decreases by_year@.len() - g,
            {
                g = g + 1;
            }
            let ghost before = by_year@;
            if g < by_year.len() {
                by_year[g].1.push(k);
            } else {
                proof {
                    assert forall|kk: int| 0 <= kk < k implies year_key(#[trigger] sh[kk]) != y@ by {
                        assert(has_year(before, year_key(sh[kk])));
                        let i = choose|i: int| 0 <= i < before.len() && (#[trigger] before[i]).0@ == year_key(sh[kk]);
                    }
                    lemma_positions_empty(sh, y@, k as nat);
                }
                let mut v: Vec<usize> = Vec::new();
                v.push(k);
                by_year.push((crate::text::owned(y), v));
            }
            proof {
                assert forall|i: int, j: int| 0 <= i < j < by_year@.len() implies (#[trigger] by_year@[i]).0@ != (#[trigger] by_year@[j]).0@ by {
                    if j < before.len() {
                        assert(by_year@[i].0@ == before[i].0@);
                        assert(by_year@[j].0@ == before[j].0@);
                    }
                }
                assert forall|i: int| 0 <= i < by_year@.len() implies (#[trigger] by_year@[i]).1@ == positions_with_year(sh, by_year@[i].0@, (k + 1) as nat) by {
                    if i < before.len() && i != g {
                        assert(by_year@[i] == before[i]);
                    }
                }
                assert forall|kk: int| 0 <= kk < k + 1 implies has_year(by_year@, year_key(#[trigger] sh[kk])) by {
                    if kk == k {
                        assert(by_year@[g as int].0@ == y@);
                    } else {
                        assert(has_year(before, year_key(sh[kk])));
                        let i = choose|i: int| 0 <= i < before.len() && (#[trigger] before[i]).0@ == year_key(sh[kk]);
                        assert(by_year@[i].0@ == before[i].0@);
                    }
                }
            }
            let cid = self.shows[k].container_id;
            let text = build_corpus_entry(&self.shows[k]);
            corpus.push((cid, text));
            lookup.insert(cid, k);
            k = k + 1;
        }
        proof {
            assert forall|i: int, j: int| 0 <= i < by_year@.len() && 0 <= j < (#[trigger] by_year@[i]).1@.len()
                implies #[trigger] by_year@[i].1@[j] < n by {
                lemma_positions_bounded(sh, by_year@[i].0@, n as nat);
            }
            assert forall|kk: int| 0 <= kk < sh.len() implies spec_is_valid_live_show(#[trigger] sh[kk]) by {
                assert(sh.contains(sh[kk]));
            }
            assert forall|cid: i64| #[trigger] lookup@.contains_key(cid) implies lookup@[cid] < n by {
                lemma_last_with_id_bounded(sh, cid, n as nat);
            }
            assert(self.registry() == old(self).registry());
            assert(is_year_index(sh, by_year@));
            assert(is_corpus_of(sh, corpus@));
            assert(is_lookup_of(sh, lookup@));
        }
        self.by_year = by_year;
        self.search_corpus = corpus;
        self.search_show_idx = lookup;
        self.rebuild_preferred_artist_ids();
    }


    /// Set the registry name of `artist_id`; true when it changed (the
    /// registry then needs saving).
    fn set_artist_name(&mut self, artist_id: i64, name: &str) -> (r: bool)
        requires
            old(self).registry_ids_ok(),
            artist_id > i64::MIN,
            old(self).show_list().len() < usize::MAX,
        ensures
            r == !(old(self).registry().contains_key(artist_id) && old(self).registry()[artist_id]@ == name@),
            !r ==> *final(self) == *old(self),
            r ==> final(self).registry().dom() == old(self).registry().dom().insert(artist_id)
                && final(self).registry()[artist_id]@ == name@
                && (forall|k: i64| k != artist_id && #[trigger] old(self).registry().contains_key(k) ==> final(self).registry()[k] == old(self).registry()[k])
                && is_preferred_table(*final(self)),
            final(self).registry_ids_ok(),
            final(self).show_list() == old(self).show_list(),
            final(self).year_index() == old(self).year_index(),
            final(self).corpus() == old(self).corpus(),
            final(self).id_lookup() == old(self).id_lookup(),
            final(self).loaded() == old(self).loaded(),
            final(self).attempted() == old(self).attempted(),
            final(self).cache_count_map() == old(self).cache_count_map(),
            final(self).api_key() == old(self).api_key(),
            final(self).dir() == old(self).dir(),
    {
        match self.artist_registry.get(&artist_id) {
            Some(cur) => {
                if str_eq(cur.as_str(), name) {
                    return false;
                }
            },
            None => {},
        }
        self.artist_registry.insert(artist_id, crate::text::owned(name));
        proof {
            assert forall|id: i64| #[trigger] self.registry().contains_key(id) implies id > i64::MIN by {
                if id != artist_id {
                    assert(old(self).registry().contains_key(id));
                }
            }
        }
        self.rebuild_preferred_artist_ids();
        true
    }

    /// Write the artist name of the first show to the registry; true when
    /// the registry changed (and needs saving).
    pub fn reconcile_registry_name(&mut self, shows: &[CatalogShow]) -> (r: bool)
        requires
            old(self).registry_ids_ok(),
            old(self).show_list().len() < usize::MAX,
            shows@.len() > 0 ==> shows@[0].artist_id > i64::MIN,
        ensures
            shows@.len() == 0 ==> !r && *final(self) == *old(self),
            shows@.len() > 0 ==> {
                let id = shows@[0].artist_id;
                &&& r == !(old(self).registry().contains_key(id) && old(self).registry()[id]@ == shows@[0].artist_name@)
                &&& final(self).registry().contains_key(id)
                &&& final(self).registry()[id]@ == shows@[0].artist_name@
                &&& final(self).registry().dom() == old(self).registry().dom().insert(id)
                &&& forall|k: i64| k != id && #[trigger] old(self).registry().contains_key(k)
                    ==> final(self).registry()[k] == old(self).registry()[k]
            },
            final(self).registry_ids_ok(),
            final(self).show_list() == old(self).show_list(),
            final(self).loaded() == old(self).loaded(),
            final(self).attempted() == old(self).attempted(),
            final(self).dir() == old(self).dir(),
    {
        if shows.len() == 0 {
            return false;
        }
        let r = self.set_artist_name(shows[0].artist_id, shows[0].artist_name.as_str());
        proof {
            if !r {
                assert(self.registry().dom() =~= old(self).registry().dom().insert(shows@[0].artist_id));
            }
        }
        r
    }

    /// Merge the artists found by discovery into the registry; a name
    /// already there is kept. Returns how many ids were new, and whether
    /// anything was discovered (the registry then needs saving).
    pub fn merge_discovered_artists(&mut self, discovered: &Vec<(i64, String)>) -> (r: (usize, bool))
        requires
            old(self).registry_ids_ok(),
            old(self).show_list().len() < usize::MAX,
            forall|i: int| 0 <= i < discovered@.len() ==> (#[trigger] discovered@[i]).0 > i64::MIN,
            forall|i: int, j: int|
                0 <= i < j < discovered@.len() ==> (#[trigger] discovered@[i]).0 != (#[trigger] discovered@[j]).0,
        ensures
            r.0 == new_id_count(old(self).registry(), discovered@),
            r.1 == (discovered@.len() > 0),
            forall|k: i64| #[trigger] final(self).registry().contains_key(k)
                <==> (old(self).registry().contains_key(k) || is_discovered(discovered@, k)),
            forall|k: i64| #[trigger] old(self).registry().contains_key(k) ==> final(self).registry()[k] == old(self).registry()[k],
            forall|i: int| 0 <= i < discovered@.len() && !old(self).registry().contains_key((#[trigger] discovered@[i]).0)
                ==> final(self).registry()[discovered@[i].0]@ == discovered@[i].1@,
            discovered@.len() > 0 ==> is_preferred_table(*final(self)),
            discovered@.len() == 0 ==> *final(self) == *old(self),
            final(self).registry_ids_ok(),
            final(self).show_list() == old(self).show_list(),
            final(self).loaded() == old(self).loaded(),
            final(self).attempted() == old(self).attempted(),
            final(self).dir() == old(self).dir(),
    {
        if discovered.len() == 0 {
            return (0, false);
        }
        let mut reg: HashMap<i64, String> = HashMap::new();
        std::mem::swap(&mut reg, &mut self.artist_registry);
        let ghost r0 = reg@;
        proof {
            assert(r0 == old(self).registry());
            assert forall|id: i64| #[trigger] r0.contains_key(id) implies id > i64::MIN by {
                assert(old(self).registry().contains_key(id));
            }
        }
        let mut count: usize = 0;
        let mut i: usize = 0;
        while i < discovered.len()
            invariant
                i <= discovered@.len(),
                count <= i,
                count == new_id_count(r0, discovered@.take(i as int)),
                forall|k: i64| #[trigger] reg@.contains_key(k)
                    <==> (r0.contains_key(k) || is_discovered(discovered@.take(i as int), k)),
                forall|k: i64| #[trigger] r0.contains_key(k) ==> reg@[k] == r0[k],
                forall|j: int| 0 <= j < i && !r0.contains_key((#[trigger] discovered@[j]).0)
                    ==> reg@[discovered@[j].0]@ == discovered@[j].1@,
                forall|id: i64| #[trigger] r0.contains_key(id) ==> id > i64::MIN,
                forall|j: int| 0 <= j < discovered@.len() ==> (#[trigger] discovered@[j]).0 > i64::MIN,
                forall|a: int, b: int|
                    0 <= a < b < discovered@.len() ==> (#[trigger] discovered@[a]).0 != (#[trigger] discovered@[b]).0,
            decreases discovered@.len() - i,
        {
            let id = discovered[i].0;
            let ghost pre = discovered@.take(i as int);
            proof {
                assert(discovered@.take(i + 1).drop_last() =~= pre);
                assert(discovered@.take(i + 1).last() == discovered@[i as int]);
                if is_discovered(pre, id) {
                    let j = choose|j: int| 0 <= j < pre.len() && (#[trigger] pre[j]).0 == id;
                    assert(pre[j] == discovered@[j]);
                    assert(false);
                }
                assert forall|k: i64| is_discovered(discovered@.take(i + 1), k) <==> (is_discovered(pre, k) || k == id) by {
                    let t = discovered@.take(i + 1);
                    if is_discovered(t, k) {
                        let j = choose|j: int| 0 <= j < t.len() && (#[trigger] t[j]).0 == k;
                        if j < i {
                            assert(pre[j] == t[j]);
                        }
                    }
                    if is_discovered(pre, k) {
                        let j = choose|j: int| 0 <= j < pre.len() && (#[trigger] pre[j]).0 == k;
                        assert(t[j] == pre[j]);
                    }
                    if k == id {
                        assert(t[i as int].0 == id);
                    }
                }
            }
            if !reg.contains_key(&id) {
                reg.insert(id, discovered[i].1.clone());
                count = count + 1;
            }
            i = i + 1;
        }
        proof {
            assert(discovered@.take(discovered@.len() as int) =~= discovered@);
        }
        std::mem::swap(&mut reg, &mut self.artist_registry);
        self.rebuild_preferred_artist_ids();
        (count, true)
    }

    /// The normalized name a load of `target` has to meet (empty for a
    /// load by id).
    pub fn requested_name(target: &ArtistTarget) -> (r: String)
        ensures
            r@ == spec_requested_name(*target),
    {
        match target {
            ArtistTarget::Name(name) => normalize_artist_name(name.as_str()),
            ArtistTarget::Id(_) => String::new(),
        }
    }

    /// The decision of loading an artist for candidate `idx` of `n`, given
    /// the shows already loaded for it (`get_shows_by_artist_id`) and, after
    /// a fetch, the fetched shows.
    pub fn load_artist_step(
        &self,
        artist_id: i64,
        requested: &str,
        existing: &Vec<CatalogShow>,
        fetched: Option<&Vec<CatalogShow>>,
        idx: usize,
        n: usize,
        allow_alias_fallback: bool,
    ) -> (r: LoadStep)
        requires
            idx < n,
        ensures
            r == spec_load_step(
                requested@,
                existing@,
                self.attempted().contains(artist_id),
                opt_shows(fetched),
                idx as int,
                n as int,
                allow_alias_fallback,
            ),
    {
        let last = !allow_alias_fallback || idx == n - 1;
        let first_name: Option<&str> = match fetched {
            None => {
                if existing.len() > 0 {
                    Some(existing[0].artist_name.as_str())
                } else if !self.attempted_artists.contains(&artist_id) {
                    return LoadStep::Fetch;
                } else {
                    None
                }
            },
            Some(f) => {
                if f.len() > 0 {
                    Some(f[0].artist_name.as_str())
                } else {
                    None
                }
            },
        };
        match first_name {
            None => if last { LoadStep::Stop } else { LoadStep::Next },
            Some(name) => {
                if requested.unicode_len() > 0 {
                    let resolved = normalize_artist_name(name);
                    if !str_eq(resolved.as_str(), requested) {
                        return if last { LoadStep::Stop } else { LoadStep::Next };
                    }
                }
                LoadStep::Found
            },
        }
    }

    /// Add an artist to the registry unless it is already there; true when
    /// the registry changed (and needs saving).
    pub fn register_artist(&mut self, artist_id: i64, artist_name: &str) -> (r: bool)
        requires
            old(self).registry_ids_ok(),
            artist_id > i64::MIN,
            old(self).show_list().len() < usize::MAX,
        ensures
            registry_view(final(self).registry()) == spec_register(registry_view(old(self).registry()), artist_id, artist_name@),
            r == !old(self).registry().contains_key(artist_id),
            !r ==> *final(self) == *old(self),
            r ==> final(self).registry() == old(self).registry().insert(artist_id, final(self).registry()[artist_id])
                && final(self).registry()[artist_id]@ == artist_name@
                && is_preferred_table(*final(self)),
            final(self).registry_ids_ok(),
            final(self).show_list() == old(self).show_list(),
            final(self).year_index() == old(self).year_index(),
            final(self).corpus() == old(self).corpus(),
            final(self).id_lookup() == old(self).id_lookup(),
            final(self).loaded() == old(self).loaded(),
            final(self).attempted() == old(self).attempted(),
            final(self).cache_count_map() == old(self).cache_count_map(),
            final(self).api_key() == old(self).api_key(),
            final(self).dir() == old(self).dir(),
    {
        if self.artist_registry.contains_key(&artist_id) {
            return false;
        }
        let r = self.set_artist_name(artist_id, artist_name);
        proof {
            if r {
                assert(self.registry() =~= old(self).registry().insert(artist_id, self.registry()[artist_id]));
                assert(registry_view(self.registry()) =~= registry_view(old(self).registry()).insert(artist_id, artist_name@));
            }
        }
        r
    }

    /// Get artist name: from the first loaded show by the artist, else
    /// from the registry.
    pub fn get_artist_name(&self, artist_id: i64) -> (r: Option<&str>)
        ensures
            first_name_of(self.show_list(), artist_id) matches Some(n) ==> r is Some && r.unwrap()@ == n,
            first_name_of(self.show_list(), artist_id) is None ==> (r is Some <==> self.registry().contains_key(artist_id))
                && (r is Some ==> r.unwrap()@ == self.registry()[artist_id]@),
    {
        let ghost f = |s: CatalogShow| s.artist_id == artist_id;
        let mut i: usize = 0;
        while i < self.shows.len()
            invariant
                i <= self.shows@.len(),
                self.shows@.take(i as int).filter(f).len() == 0,
                f == (|s: CatalogShow| s.artist_id == artist_id),
            decreases self.shows@.len() - i,
        {
            proof {
                assert(self.shows@.take(i + 1) =~= self.shows@.take(i as int).push(self.shows@[i as int]));
                self.shows@.take(i as int).lemma_filter_push(self.shows@[i as int], f);
            }
            if self.shows[i].artist_id == artist_id {
                proof {
                    let t = self.shows@.take(i + 1);
                    assert(t.filter(f) =~= seq![self.shows@[i as int]]);
                    assert(self.shows@ =~= t + self.shows@.skip(i + 1));
                    Seq::filter_distributes_over_add(t, self.shows@.skip(i + 1), f);
                }
                return Some(self.shows[i].artist_name.as_str());
            }
            i = i + 1;
        }
        proof {
            assert(self.shows@.take(self.shows@.len() as int) =~= self.shows@);
        }
        match self.artist_registry.get(&artist_id) {
            Some(n) => Some(n.as_str()),
            None => None,
        }
    }

    /// The artist registry: id to display name.
    pub fn artist_registry(&self) -> (r: &HashMap<i64, String>)
        ensures
            r@ == self.registry(),
    {
        &self.artist_registry
    }

    /// Whether artist discovery has been performed (registry is non-empty).
    pub fn has_discovered(&self) -> (r: bool)
        ensures
            r == (self.registry().dom().len() > 0),
    {
        proof {
            vstd::std_specs::hash::axiom_hashmap_view_finite_dom(self.artist_registry);
        }
        !self.artist_registry.is_empty()
    }

    /// Whether the artist has loaded shows, or shows in its cache.
    pub fn artist_has_data(&self, artist_id: i64) -> (r: bool)
        ensures
            r == (shows_of_artist(self.show_list(), artist_id).len() > 0 || self.cached_count(artist_id) > 0),
    {
        let n = count_shows_of(&self.shows, artist_id);
        if n > 0 {
            return true;
        }
        self.cache_show_count(artist_id) > 0
    }


    /// Get available years, latest first.
    pub fn get_years(&self) -> (r: Vec<String>)
        ensures
            exists|p: Seq<usize>| is_stable_order(year_sort_keys(self.year_index()), p, true)
                && string_views(r@) == permuted(year_names(self.year_index()), p),
    {
        let p = year_order(&self.by_year);
        let mut out: Vec<String> = Vec::new();
        let mut k: usize = 0;
        while k < p.len()
            invariant
                is_stable_order(year_sort_keys(self.by_year@), p@, true),
                k <= p@.len(),
                string_views(out@) == permuted(year_names(self.by_year@), p@).take(k as int),
            decreases p@.len() - k,
        {
            assert(p@[k as int] < self.by_year@.len());
            let ghost before = out@;
            out.push(self.by_year[p[k]].0.clone());
            proof {
                assert(permuted(year_names(self.by_year@), p@)[k as int] == self.by_year@[p@[k as int] as int].0@);
                assert(string_views(out@) =~= string_views(before).push(self.by_year@[p@[k as int] as int].0@));
                assert(string_views(out@) =~= permuted(year_names(self.by_year@), p@).take(k + 1));
            }
            k = k + 1;
        }
        proof {
            assert(permuted(year_names(self.by_year@), p@).take(p@.len() as int) =~= permuted(year_names(self.by_year@), p@));
            assert(is_stable_order(year_sort_keys(self.year_index()), p@, true) && string_views(out@) == permuted(year_names(self.year_index()), p@));
        }
        out
    }

    /// Get years with show counts, latest first.
    pub fn year_show_counts(&self) -> (r: Vec<(String, usize)>)
        ensures
            exists|p: Seq<usize>| is_stable_order(year_sort_keys(self.year_index()), p, true)
                && count_views(r@) == permuted(year_counts(self.year_index()), p),
    {
        let p = year_order(&self.by_year);
        let mut out: Vec<(String, usize)> = Vec::new();
        let mut k: usize = 0;
        while k < p.len()
            invariant
                is_stable_order(year_sort_keys(self.by_year@), p@, true),
                k <= p@.len(),
                count_views(out@) == permuted(year_counts(self.by_year@), p@).take(k as int),
            decreases p@.len() - k,
        {
            assert(p@[k as int] < self.by_year@.len());
            let e = &self.by_year[p[k]];
            let ghost before = out@;
            out.push((e.0.clone(), e.1.len()));
            proof {
                assert(permuted(year_counts(self.by_year@), p@)[k as int] == (e.0@, e.1@.len()));
                assert(count_views(out@) =~= count_views(before).push((e.0@, e.1@.len())));
                assert(count_views(out@) =~= permuted(year_counts(self.by_year@), p@).take(k + 1));
            }
            k = k + 1;
        }
        proof {
            assert(permuted(year_counts(self.by_year@), p@).take(p@.len() as int) =~= permuted(year_counts(self.by_year@), p@));
            assert(is_stable_order(year_sort_keys(self.year_index()), p@, true) && count_views(out@) == permuted(year_counts(self.year_index()), p@));
        }
        out
    }

    /// Get shows for a year, newest first.
    pub fn get_shows_by_year(&self, year: &str) -> (r: Vec<CatalogShow>)
        requires
            self.indexes_ok(),
        ensures
            is_newest_first(shows_at(self.show_list(), year_entry(self.year_index(), year@)), r@),
    {
        let mut g: usize = 0;
        while g < self.by_year.len() && !str_eq(self.by_year[g].0.as_str(), year)
            invariant
                g <= self.by_year@.len(),
                forall|i: int| 0 <= i < g ==> (#[trigger] self.by_year@[i]).0@ != year@,
            decreases self.by_year@.len() - g,
        {
            g = g + 1;
        }
        let mut list: Vec<CatalogShow> = Vec::new();
        if g < self.by_year.len() {
            let idx = &self.by_year[g].1;
            proof {
                assert(has_year(self.by_year@, year@));
                let c = choose|i: int| 0 <= i < self.by_year@.len() && (#[trigger] self.by_year@[i]).0@ == year@;
                if c < g {
                    assert(self.year_index()[c].0@ != self.year_index()[g as int].0@);
                } else if g < c {
                    assert(self.year_index()[g as int].0@ != self.year_index()[c].0@);
                }
                assert(year_entry(self.by_year@, year@) == idx@);
            }
            let mut k: usize = 0;
            while k < idx.len()
                invariant
                    self.indexes_ok(),
                    g < self.by_year@.len(),
                    idx == &self.by_year@[g as int].1,
                    k <= idx@.len(),
                    list@ == shows_at(self.show_list(), idx@).take(k as int),
                decreases idx@.len() - k,
            {
                assert(self.year_index()[g as int].1@[k as int] < self.show_list().len());
                list.push(self.shows[idx[k]].duplicate());
                proof {
                    assert(list@ =~= shows_at(self.show_list(), idx@).take(k + 1));
                }
                k = k + 1;
            }
            proof {
                assert(shows_at(self.show_list(), idx@).take(idx@.len() as int) =~= shows_at(self.show_list(), idx@));
            }
        } else {
            proof {
                assert(!has_year(self.by_year@, year@));
                assert(shows_at(self.show_list(), year_entry(self.by_year@, year@)) =~= Seq::<CatalogShow>::empty());
            }
        }
        newest_first(&list)
    }

    /// Get shows for an artist, newest first.
    pub fn get_shows_by_artist_id(&self, artist_id: i64) -> (r: Vec<CatalogShow>)
        ensures
            is_newest_first(shows_of_artist(self.show_list(), artist_id), r@),
    {
        let ghost f = |s: CatalogShow| s.artist_id == artist_id;
        let mut list: Vec<CatalogShow> = Vec::new();
        let mut i: usize = 0;
        while i < self.shows.len()
            invariant
                i <= self.shows@.len(),
                list@ == self.shows@.take(i as int).filter(f),
                f == (|s: CatalogShow| s.artist_id == artist_id),
            decreases self.shows@.len() - i,
        {
            proof {
                assert(self.shows@.take(i + 1) =~= self.shows@.take(i as int).push(self.shows@[i as int]));
                self.shows@.take(i as int).lemma_filter_push(self.shows@[i as int], f);
            }
            if self.shows[i].artist_id == artist_id {
                list.push(self.shows[i].duplicate());
            }
            i = i + 1;
        }
        proof {
            assert(self.shows@.take(self.shows@.len() as int) =~= self.shows@);
        }
        newest_first(&list)
    }

    /// Fuzzy search across all shows.
    pub fn search(&self, query: &str, limit: usize) -> (r: Vec<CatalogShow>)
        requires
            self.indexes_ok(),
            space_count(trim(query@)) < 65535,
        ensures
            trim(query@).len() == 0 ==> r@.len() == 0,
            trim(query@).len() > 0 ==> exists|p: Seq<usize>|
                is_stable_desc_by_score(scores_of(scored_entries(trim(query@), self.corpus())), p)
                && r@ == shows_for_ids(ranked_ids(scored_entries(trim(query@), self.corpus()), p, limit), self.id_lookup(), self.show_list()),
    {
        proof {
            assert forall|k: i64| #[trigger] self.search_show_idx@.contains_key(k) implies self.search_show_idx@[k] < self.shows@.len() by {
                assert(self.id_lookup().contains_key(k));
            }
        }
        let r = search_shows(query, self.search_corpus.as_slice(), &self.search_show_idx, self.shows.as_slice(), limit);
        proof {
            if trim(query@).len() > 0 {
                let e = scored_entries(trim(query@), self.search_corpus@);
                let p = choose|p: Seq<usize>| is_stable_desc_by_score(scores_of(e), p)
                    && r@ == shows_for_ids(ranked_ids(e, p, limit), self.search_show_idx@, self.shows@);
                assert(self.corpus() == self.search_corpus@);
                assert(self.id_lookup() == self.search_show_idx@);
                assert(self.show_list() == self.shows@);
            }
        }
        r
    }

    /// Fuzzy search within a single artist's shows.
    pub fn search_artist(&self, query: &str, artist_id: i64, limit: usize) -> (r: Vec<CatalogShow>)
        requires
            self.indexes_ok(),
            space_count(trim(query@)) < 65535,
        ensures
            trim(query@).len() == 0 ==> r@.len() == 0,
            trim(query@).len() > 0 ==> exists|p: Seq<usize>|
                is_stable_desc_by_score(scores_of(scored_entries(trim(query@), artist_corpus(self.corpus(), artist_id, self.id_lookup(), self.show_list()))), p)
                && r@ == shows_for_ids(ranked_ids(scored_entries(trim(query@), artist_corpus(self.corpus(), artist_id, self.id_lookup(), self.show_list())), p, limit), self.id_lookup(), self.show_list()),
    {
        proof {
            assert forall|k: i64| #[trigger] self.search_show_idx@.contains_key(k) implies self.search_show_idx@[k] < self.shows@.len() by {
                assert(self.id_lookup().contains_key(k));
            }
        }
        let r = search_artist_shows(query, artist_id, self.search_corpus.as_slice(), &self.search_show_idx, self.shows.as_slice(), limit);
        proof {
            if trim(query@).len() > 0 {
                let e = scored_entries(trim(query@), artist_corpus(self.search_corpus@, artist_id, self.search_show_idx@, self.shows@));
                let p = choose|p: Seq<usize>| is_stable_desc_by_score(scores_of(e), p)
                    && r@ == shows_for_ids(ranked_ids(e, p, limit), self.search_show_idx@, self.shows@);
                assert(self.corpus() == self.search_corpus@);
                assert(self.id_lookup() == self.search_show_idx@);
                assert(self.show_list() == self.shows@);
            }
        }
        r
    }


    /// Record `artist_id` as the preferred id of its normalized name.
    pub fn remember_preferred_artist(&mut self, artist_id: i64)
        ensures
            old(self).registry().contains_key(artist_id) ==> pref_view(final(self).preferred())
                == put_pref(pref_view(old(self).preferred()), spec_normalize_artist_name(old(self).registry()[artist_id]@), artist_id),
            !old(self).registry().contains_key(artist_id) ==> final(self).preferred() == old(self).preferred(),
            final(self).show_list() == old(self).show_list(),
            final(self).year_index() == old(self).year_index(),
            final(self).corpus() == old(self).corpus(),
            final(self).id_lookup() == old(self).id_lookup(),
            final(self).registry() == old(self).registry(),
            final(self).loaded() == old(self).loaded(),
            final(self).attempted() == old(self).attempted(),
            final(self).cache_count_map() == old(self).cache_count_map(),
            final(self).api_key() == old(self).api_key(),
            final(self).dir() == old(self).dir(),
    {
        let name = match self.artist_registry.get(&artist_id) {
            Some(n) => normalize_artist_name(n.as_str()),
            None => return,
        };
        let ghost t = pref_view(self.preferred_artist_ids@);
        let mut i: usize = 0;
        while i < self.preferred_artist_ids.len() && !str_eq(self.preferred_artist_ids[i].0.as_str(), name.as_str())
            invariant
                t == pref_view(self.preferred_artist_ids@),
                i <= t.len(),
                forall|j: int| 0 <= j < i ==> (#[trigger] t[j]).0 != name@,
            decreases t.len() - i,
        {
            i = i + 1;
        }
        proof {
            lemma_pref_index(t, name@);
        }
        if i < self.preferred_artist_ids.len() {
            proof {
                assert(t[i as int].0 == name@);
                match pref_index(t, name@) {
                    Some(k) => { assert(k == i); },
                    None => {},
                }
            }
            self.preferred_artist_ids.set(i, (name, artist_id));
            proof {
                assert(pref_view(self.preferred_artist_ids@) =~= t.update(i as int, (name@, artist_id)));
            }
        } else {
            self.preferred_artist_ids.push((name, artist_id));
            proof {
                assert(pref_index(t, name@) is None);
                assert(pref_view(self.preferred_artist_ids@) =~= t.push((name@, artist_id)));
            }
        }
    }

    /// Artist ids to try for `target`, the first one first.
    pub fn candidate_artist_ids(&self, target: &ArtistTarget, allow_alias_fallback: bool) -> (r: Vec<i64>)
        requires
            self.registry_ids_ok(),
            self.show_list().len() < usize::MAX,
        ensures
            r@.no_duplicates(),
            match *target {
                ArtistTarget::Id(req) => if allow_alias_fallback && self.registry().contains_key(req)
                    && spec_normalize_artist_name(self.registry()[req]@).len() > 0 {
                    r@.len() > 0 && r@[0] == req
                        && r@.to_set() == ids_named(self.registry(), spec_normalize_artist_name(self.registry()[req]@))
                } else {
                    r@ == seq![req]
                },
                ArtistTarget::Name(name) => if spec_normalize_artist_name(name@).len() == 0 {
                    r@.len() == 0
                } else {
                    let pref = pref_of(pref_view(self.preferred()), spec_normalize_artist_name(name@));
                    let front = pref is Some && r@.to_set().contains(pref.unwrap());
                    let rest = if front { r@.skip(1) } else { r@ };
                    &&& r@.to_set() == ids_named(self.registry(), spec_normalize_artist_name(name@))
                    &&& front ==> r@[0] == pref.unwrap()
                    &&& forall|i: int, j: int| 0 <= i < j < rest.len() ==> !key_lt(self.rank_of(#[trigger] rest[i]), self.rank_of(#[trigger] rest[j]))
                },
            },
    {
        match target {
            ArtistTarget::Id(requested_id) => {
                let requested_id = *requested_id;
                let mut single: Vec<i64> = Vec::new();
                single.push(requested_id);
                proof {
                    assert(single@ =~= seq![requested_id]);
                }
                if !allow_alias_fallback {
                    return single;
                }
                let name = match self.artist_registry.get(&requested_id) {
                    Some(n) => n,
                    None => return single,
                };
                let ids = find_artist_ids(&self.artist_registry, name.as_str());
                if ids.len() == 0 {
                    proof {
                        let n = spec_normalize_artist_name(name@);
                        if n.len() > 0 {
                            assert(ids_named(self.registry(), n).contains(requested_id));
                            assert(ids@.to_set().contains(requested_id));
                        }
                    }
                    return single;
                }
                proof {
                    assert(self.registry()[requested_id] == *name);
                    assert(spec_normalize_artist_name(name@).len() > 0);
                    assert(ids_named(self.registry(), spec_normalize_artist_name(name@)).contains(requested_id));
                    assert(ids@.to_set().contains(requested_id));
                }
                let r = move_to_front(&ids, requested_id);
                proof {
                    assert(r@.to_set() == ids_named(self.registry(), spec_normalize_artist_name(self.registry()[requested_id]@)));
                }
                r
            },
            ArtistTarget::Name(name) => {
                let ids = find_artist_ids(&self.artist_registry, name.as_str());
                if ids.len() == 0 {
                    return ids;
                }
                let ghost n = spec_normalize_artist_name(name@);
                let mut keys: Vec<(u8, usize, u8, i32, i64)> = Vec::new();
                let mut i: usize = 0;
                while i < ids.len()
                    invariant
                        i <= ids@.len(),
                        keys@.len() == i,
                        ids@.to_set() == ids_named(self.registry(), n),
                        self.registry_ids_ok(),
                        self.show_list().len() < usize::MAX,
                        forall|j: int| 0 <= j < i ==> #[trigger] keys@[j] == self.rank_of(ids@[j]),
                    decreases ids@.len() - i,
                {
                    let id = ids[i];
                    proof {
                        assert(ids@.to_set().contains(id));
                    }
                    let loaded = count_shows_of(&self.shows, id);
                    proof {
                        self.show_list().lemma_filter_len(|s: CatalogShow| s.artist_id == id);
                    }
                    let cc = self.cache_show_count(id);
                    keys.push(artist_rank_key(id, loaded, cc));
                    i = i + 1;
                }
                let order = rank_order(&keys);
                let mut sorted: Vec<i64> = Vec::new();
                let mut k: usize = 0;
                while k < order.len()
                    invariant
                        is_rank_order(keys@, order@),
                        keys@.len() == ids@.len(),
                        forall|j: int| 0 <= j < ids@.len() ==> #[trigger] keys@[j] == self.rank_of(ids@[j]),
                        k <= order@.len(),
                        sorted@ == permuted(ids@, order@).take(k as int),
                    decreases order@.len() - k,
                {
                    sorted.push(ids[order[k]]);
                    proof {
                        assert(sorted@ =~= permuted(ids@, order@).take(k + 1));
                    }
                    k = k + 1;
                }
                proof {
                    assert(permuted(ids@, order@).take(order@.len() as int) =~= permuted(ids@, order@));
                    lemma_permuted_set(ids@, order@);
                    assert forall|a: int, b: int| 0 <= a < b < sorted@.len() implies
                        !key_lt(self.rank_of(#[trigger] sorted@[a]), self.rank_of(#[trigger] sorted@[b])) by {
                        assert(keys@[order@[a] as int] == self.rank_of(sorted@[a]));
                        assert(keys@[order@[b] as int] == self.rank_of(sorted@[b]));
                    }
                }
                let normalized = normalize_artist_name(name.as_str());
                let ghost t = pref_view(self.preferred_artist_ids@);
                let mut j: usize = 0;
                while j < self.preferred_artist_ids.len() && !str_eq(self.preferred_artist_ids[j].0.as_str(), normalized.as_str())
                    invariant
                        t == pref_view(self.preferred_artist_ids@),
                        j <= t.len(),
                        forall|q: int| 0 <= q < j ==> (#[trigger] t[q]).0 != normalized@,
                    decreases t.len() - j,
                {
                    j = j + 1;
                }
                proof {
                    lemma_pref_index(t, normalized@);
                }
                if j < self.preferred_artist_ids.len() {
                    let pid = self.preferred_artist_ids[j].1;
                    proof {
                        assert(t[j as int].0 == normalized@);
                        match pref_index(t, normalized@) {
                            Some(q) => { assert(q == j); },
                            None => {},
                        }
                        assert(pref_of(t, normalized@) == Some(pid));
                    }
                    if vec_contains(&sorted, pid) {
                        let r = move_to_front(&sorted, pid);
                        proof {
                            assert forall|a: int, b: int| 0 <= a < b < r@.skip(1).len() implies
                                !key_lt(self.rank_of(#[trigger] r@.skip(1)[a]), self.rank_of(#[trigger] r@.skip(1)[b])) by {
                                lemma_filter_order(sorted@, |y: i64| y != pid, |x: i64, y: i64| !key_lt(self.rank_of(x), self.rank_of(y)), a, b);
                            }
                        }
                        return r;
                    }
                } else {
                    proof {
                        assert(pref_of(t, normalized@) is None);
                    }
                }
                sorted
            },
        }
    }


    /// Whether this artist ID maps to "Phish" in the registry.
    pub fn is_phish_artist(&self, artist_id: i64) -> (r: bool)
        ensures
            r == (self.registry().contains_key(artist_id)
                && spec_normalize_artist_name(self.registry()[artist_id]@) == "phish"@),
    {
        match self.artist_registry.get(&artist_id) {
            Some(n) => {
                let norm = normalize_artist_name(n.as_str());
                str_eq(norm.as_str(), "phish")
            },
            None => false,
        }
    }

    /// Replace the registry with one read from disk.
    pub fn set_registry(&mut self, registry: HashMap<i64, String>)
        requires
            forall|id: i64| #[trigger] registry@.contains_key(id) ==> id > i64::MIN,
        ensures
            final(self).registry() == registry@,
            final(self).registry_ids_ok(),
            final(self).show_list() == old(self).show_list(),
            final(self).year_index() == old(self).year_index(),
            final(self).corpus() == old(self).corpus(),
            final(self).id_lookup() == old(self).id_lookup(),
            final(self).loaded() == old(self).loaded(),
            final(self).attempted() == old(self).attempted(),
            final(self).preferred() == old(self).preferred(),
            final(self).cache_count_map() == old(self).cache_count_map(),
            final(self).api_key() == old(self).api_key(),
            final(self).dir() == old(self).dir(),
    {
        self.artist_registry = registry;
    }

    /// What to do with the cache of `artist_id` while loading: skip it when
    /// the Bman catalog is loaded and the artist is a Bman artist; take the
    /// artist as loaded when the LivePhish catalog is loaded and the artist
    /// is Phish; else read it.
    pub fn cache_decision(&self, artist_id: i64, bman_loaded: bool, livephish_loaded: bool) -> (r: CacheDecision)
        ensures
            (bman_loaded && (artist_id == BMAN_GD_ARTIST_ID || artist_id == BMAN_JGB_ARTIST_ID)) ==> r is Skip,
            !(bman_loaded && (artist_id == BMAN_GD_ARTIST_ID || artist_id == BMAN_JGB_ARTIST_ID)) ==> (
                (livephish_loaded && self.registry().contains_key(artist_id)
                    && spec_normalize_artist_name(self.registry()[artist_id]@) == "phish"@) ==> r is MarkLoaded),
            !(bman_loaded && (artist_id == BMAN_GD_ARTIST_ID || artist_id == BMAN_JGB_ARTIST_ID)) && !(livephish_loaded
                && self.registry().contains_key(artist_id) && spec_normalize_artist_name(self.registry()[artist_id]@) == "phish"@)
                ==> r is Read,
    {
        if bman_loaded && is_bman_artist(artist_id) {
            return CacheDecision::Skip;
        }
        if livephish_loaded && self.is_phish_artist(artist_id) {
            return CacheDecision::MarkLoaded;
        }
        CacheDecision::Read
    }

    /// Take the shows of the Bman catalog cache; false (nothing taken) when
    /// it is empty.
    pub fn add_bman_cache(&mut self, shows: Vec<CatalogShow>) -> (r: bool)
        ensures
            r == (shows@.len() > 0),
            r ==> final(self).show_list() == old(self).show_list() + shows@
                && final(self).attempted() == old(self).attempted().union(artist_ids_of(shows@))
                && final(self).loaded() == old(self).loaded().union(artist_ids_of(shows@)),
            !r ==> final(self).show_list() == old(self).show_list() && final(self).attempted() == old(self).attempted()
                && final(self).loaded() == old(self).loaded(),
            final(self).year_index() == old(self).year_index(),
            final(self).corpus() == old(self).corpus(),
            final(self).id_lookup() == old(self).id_lookup(),
            final(self).registry() == old(self).registry(),
            final(self).preferred() == old(self).preferred(),
            final(self).cache_count_map() == old(self).cache_count_map(),
            final(self).api_key() == old(self).api_key(),
            final(self).dir() == old(self).dir(),
    {
        if shows.len() == 0 {
            return false;
        }
        let mut att: HashSet<i64> = HashSet::new();
        let mut lod: HashSet<i64> = HashSet::new();
        std::mem::swap(&mut att, &mut self.attempted_artists);
        std::mem::swap(&mut lod, &mut self.loaded_artists);
        let ghost a0 = att@;
        let ghost l0 = lod@;
        let mut i: usize = 0;
        while i < shows.len()
            invariant
                i <= shows@.len(),
                att@ == a0.union(artist_ids_of(shows@.take(i as int))),
                lod@ == l0.union(artist_ids_of(shows@.take(i as int))),
            decreases shows@.len() - i,
        {
            let aid = shows[i].artist_id;
            att.insert(aid);
            lod.insert(aid);
            proof {
                assert(artist_ids_of(shows@.take(i + 1)) =~= artist_ids_of(shows@.take(i as int)).insert(aid)) by {
                    assert forall|a: i64| artist_ids_of(shows@.take(i + 1)).contains(a) implies artist_ids_of(shows@.take(i as int)).insert(aid).contains(a) by {
                        let j = choose|j: int| 0 <= j < shows@.take(i + 1).len() && (#[trigger] shows@.take(i + 1)[j]).artist_id == a;
                        if j < i {
                            assert(shows@.take(i as int)[j] == shows@.take(i + 1)[j]);
                        }
                    }
                    assert forall|a: i64| artist_ids_of(shows@.take(i as int)).insert(aid).contains(a) implies artist_ids_of(shows@.take(i + 1)).contains(a) by {
                        if a == aid {
                            assert(shows@.take(i + 1)[i as int].artist_id == a);
                        } else {
                            let j = choose|j: int| 0 <= j < shows@.take(i as int).len() && (#[trigger] shows@.take(i as int)[j]).artist_id == a;
                            assert(shows@.take(i + 1)[j] == shows@.take(i as int)[j]);
                        }
                    }
                }
                assert(att@ =~= a0.union(artist_ids_of(shows@.take(i + 1))));
                assert(lod@ =~= l0.union(artist_ids_of(shows@.take(i + 1))));
            }
            i = i + 1;
        }
        proof {
            assert(shows@.take(shows@.len() as int) =~= shows@);
        }
        self.attempted_artists = att;
        self.loaded_artists = lod;
        let mut more = shows;
        self.shows.append(&mut more);
        true
    }

    /// Take the shows of the LivePhish catalog cache; false (nothing
    /// taken) when it is empty.
    pub fn add_livephish_cache(&mut self, shows: Vec<CatalogShow>) -> (r: bool)
        ensures
            r == (shows@.len() > 0),
            r ==> final(self).show_list() == old(self).show_list() + shows@,
            !r ==> final(self).show_list() == old(self).show_list(),
            final(self).year_index() == old(self).year_index(),
            final(self).corpus() == old(self).corpus(),
            final(self).id_lookup() == old(self).id_lookup(),
            final(self).registry() == old(self).registry(),
            final(self).loaded() == old(self).loaded(),
            final(self).attempted() == old(self).attempted(),
            final(self).preferred() == old(self).preferred(),
            final(self).cache_count_map() == old(self).cache_count_map(),
            final(self).api_key() == old(self).api_key(),
            final(self).dir() == old(self).dir(),
    {
        if shows.len() == 0 {
            return false;
        }
        let mut more = shows;
        self.shows.append(&mut more);
        true
    }

    /// Mark an artist as fetched and loaded.
    pub fn mark_loaded(&mut self, artist_id: i64)
        ensures
            final(self).attempted() == old(self).attempted().insert(artist_id),
            final(self).loaded() == old(self).loaded().insert(artist_id),
            final(self).show_list() == old(self).show_list(),
            final(self).year_index() == old(self).year_index(),
            final(self).corpus() == old(self).corpus(),
            final(self).id_lookup() == old(self).id_lookup(),
            final(self).registry() == old(self).registry(),
            final(self).preferred() == old(self).preferred(),
            final(self).cache_count_map() == old(self).cache_count_map(),
            final(self).api_key() == old(self).api_key(),
            final(self).dir() == old(self).dir(),
    {
        self.attempted_artists.insert(artist_id);
        self.loaded_artists.insert(artist_id);
    }

    /// After a fetch of the Bman catalog: both Bman artists are marked
    /// attempted, and loaded when some show is theirs. Returns the shows of
    /// the requested artist.
    pub fn finish_bman_fetch(&mut self, artist_id: i64, shows: &Vec<CatalogShow>) -> (r: Vec<CatalogShow>)
        ensures
            final(self).attempted() == old(self).attempted().insert(BMAN_GD_ARTIST_ID).insert(BMAN_JGB_ARTIST_ID),
            final(self).loaded() == old(self).loaded().union(
                artist_ids_of(shows@).intersect(set![BMAN_GD_ARTIST_ID, BMAN_JGB_ARTIST_ID]),
            ),
            r@ == shows_of_artist(shows@, artist_id),
            final(self).show_list() == old(self).show_list(),
            final(self).year_index() == old(self).year_index(),
            final(self).corpus() == old(self).corpus(),
            final(self).id_lookup() == old(self).id_lookup(),
            final(self).registry() == old(self).registry(),
            final(self).preferred() == old(self).preferred(),
            final(self).cache_count_map() == old(self).cache_count_map(),
            final(self).api_key() == old(self).api_key(),
            final(self).dir() == old(self).dir(),
    {
        let ghost f = |s: CatalogShow| s.artist_id == artist_id;
        let mut out: Vec<CatalogShow> = Vec::new();
        let mut has_gd = false;
        let mut has_jgb = false;
        let mut i: usize = 0;
        while i < shows.len()
            invariant
                i <= shows@.len(),
                out@ == shows@.take(i as int).filter(f),
                f == (|s: CatalogShow| s.artist_id == artist_id),
                has_gd == artist_ids_of(shows@.take(i as int)).contains(BMAN_GD_ARTIST_ID),
                has_jgb == artist_ids_of(shows@.take(i as int)).contains(BMAN_JGB_ARTIST_ID),
            decreases shows@.len() - i,
        {
            let ghost t0 = shows@.take(i as int);
            let ghost t1 = shows@.take(i + 1);
            proof {
                assert(t1 =~= t0.push(shows@[i as int]));
                t0.lemma_filter_push(shows@[i as int], f);
                assert forall|a: i64| artist_ids_of(t1).contains(a) <==> (artist_ids_of(t0).contains(a) || a == shows@[i as int].artist_id) by {
                    if artist_ids_of(t1).contains(a) {
                        let j = choose|j: int| 0 <= j < t1.len() && (#[trigger] t1[j]).artist_id == a;
                        if j < i {
                            assert(t0[j] == t1[j]);
                        }
                    }
                    if artist_ids_of(t0).contains(a) {
                        let j = choose|j: int| 0 <= j < t0.len() && (#[trigger] t0[j]).artist_id == a;
                        assert(t1[j] == t0[j]);
                    }
                    if a == shows@[i as int].artist_id {
                        assert(t1[i as int].artist_id == a);
                    }
                }
            }
            let aid = shows[i].artist_id;
            if aid == BMAN_GD_ARTIST_ID {
                has_gd = true;
            }
            if aid == BMAN_JGB_ARTIST_ID {
                has_jgb = true;
            }
            if aid == artist_id {
                out.push(shows[i].duplicate());
            }
            i = i + 1;
        }
        proof {
            assert(shows@.take(shows@.len() as int) =~= shows@);
        }
        self.attempted_artists.insert(BMAN_GD_ARTIST_ID);
        self.attempted_artists.insert(BMAN_JGB_ARTIST_ID);
        if has_gd {
            self.loaded_artists.insert(BMAN_GD_ARTIST_ID);
        }
        if has_jgb {
            self.loaded_artists.insert(BMAN_JGB_ARTIST_ID);
        }
        proof {
            let ids = artist_ids_of(shows@);
            assert(self.loaded() =~= old(self).loaded().union(ids.intersect(set![BMAN_GD_ARTIST_ID, BMAN_JGB_ARTIST_ID])));
        }
        out
    }

    /// Take the cache read for `artist_id`: a missing cache changes
    /// nothing; a cache marks the artist attempted, and loaded when it has
    /// shows, whose first one's artist name is then written to the
    /// registry. True when the registry changed (and needs saving).
    pub fn add_artist_cache(&mut self, artist_id: i64, cached: Option<Vec<CatalogShow>>) -> (r: bool)
        requires
            old(self).registry_ids_ok(),
            old(self).show_list().len() < usize::MAX,
            match cached {
                Some(v) => v@.len() > 0 ==> v@[0].artist_id > i64::MIN,
                None => true,
            },
        ensures
            final(self).registry_ids_ok(),
            match cached {
                None => *final(self) == *old(self) && !r,
                Some(v) => if v@.len() == 0 {
                    !r
                    && final(self).attempted() == old(self).attempted().insert(artist_id)
                    && final(self).loaded() == old(self).loaded().remove(artist_id)
                    && final(self).show_list() == old(self).show_list()
                    && final(self).registry() == old(self).registry()
                } else {
                    r == !(old(self).registry().contains_key(v@[0].artist_id) && old(self).registry()[v@[0].artist_id]@ == v@[0].artist_name@)
                    && final(self).registry().contains_key(v@[0].artist_id)
                    && final(self).registry()[v@[0].artist_id]@ == v@[0].artist_name@
                    && (forall|k: i64| k != v@[0].artist_id && #[trigger] old(self).registry().contains_key(k)
                        ==> final(self).registry().contains_key(k) && final(self).registry()[k] == old(self).registry()[k])
                    && final(self).registry().dom() == old(self).registry().dom().insert(v@[0].artist_id)
                    && final(self).attempted() == old(self).attempted().insert(artist_id)
                    && final(self).loaded() == old(self).loaded().insert(artist_id)
                    && final(self).show_list() == old(self).show_list() + v@
                },
            },
            final(self).year_index() == old(self).year_index(),
            final(self).corpus() == old(self).corpus(),
            final(self).id_lookup() == old(self).id_lookup(),
            final(self).cache_count_map() == old(self).cache_count_map(),
            final(self).api_key() == old(self).api_key(),
            final(self).dir() == old(self).dir(),
    {
        let shows = match cached {
            Some(v) => v,
            None => return false,
        };
        self.attempted_artists.insert(artist_id);
        if shows.len() == 0 {
            self.loaded_artists.remove(&artist_id);
            proof {
                assert(self.registry() == old(self).registry());
            }
            return false;
        }
        proof {
            assert(self.registry() == old(self).registry());
            assert(self.show_list() == old(self).show_list());
        }
        let first_id = shows[0].artist_id;
        let changed = self.set_artist_name(first_id, shows[0].artist_name.as_str());
        proof {
            if !changed {
                assert(self.registry().dom() =~= old(self).registry().dom().insert(first_id));
            }
        }
        let ghost reg = self.registry();
        let mut more = shows;
        self.shows.append(&mut more);
        self.loaded_artists.insert(artist_id);
        proof {
            assert(self.registry() == reg);
        }
        changed
    }

    /// Take the shows fetched for `artist_id`: keep the valid live ones,
    /// write the artist name of the first to the registry, replace the
    /// artist's shows with them, mark the artist attempted (and loaded when
    /// any are left), rebuild the indexes and record the kept count as the
    /// artist's cache count (the kept shows become its cache). Returns the
    /// kept shows (for the cache) and whether the registry changed (and
    /// needs saving).
    pub fn apply_fetched_artist(&mut self, artist_id: i64, fetched: Vec<CatalogShow>) -> (r: (Vec<CatalogShow>, bool))
        requires
            old(self).registry_ids_ok(),
            artist_id > i64::MIN,
            old(self).show_list().len() + fetched@.len() < usize::MAX,
        ensures
            r.0@ == valid_shows(fetched@),
            r.1 == (r.0@.len() > 0 && !(old(self).registry().contains_key(artist_id)
                && old(self).registry()[artist_id]@ == r.0@[0].artist_name@)),
            final(self).show_list() == valid_shows(without_artist(old(self).show_list(), artist_id) + r.0@),
            final(self).attempted() == old(self).attempted().insert(artist_id),
            r.0@.len() > 0 ==> final(self).loaded() == old(self).loaded().insert(artist_id)
                && final(self).registry().contains_key(artist_id)
                && final(self).registry()[artist_id]@ == r.0@[0].artist_name@,
            r.0@.len() == 0 ==> final(self).loaded() == old(self).loaded().remove(artist_id)
                && final(self).registry() == old(self).registry(),
            final(self).indexes_ok(),
            final(self).indexes_current(),
            is_preferred_table(*final(self)),
            final(self).registry_ids_ok(),
            old(self).cache_counts_ok() && r.0@.len() <= i32::MAX ==> final(self).cache_counts_ok(),
            final(self).cache_count_map() == old(self).cache_count_map().insert(artist_id, r.0@.len() as i32),
            final(self).api_key() == old(self).api_key(),
            final(self).dir() == old(self).dir(),
    {
        let shows = filter_valid(fetched);
        proof {
            fetched@.lemma_filter_len(|s: CatalogShow| spec_is_valid_live_show(s));
        }
        let mut changed = false;
        if shows.len() > 0 {
            changed = self.set_artist_name(artist_id, shows[0].artist_name.as_str());
        }
        let ghost reg1 = self.registry();
        let ghost f = |s: CatalogShow| s.artist_id != artist_id;
        let ghost all = self.shows@;
        let mut kept: Vec<CatalogShow> = Vec::new();
        let mut i: usize = 0;
        while i < self.shows.len()
            invariant
                all == self.shows@,
                i <= all.len(),
                kept@ == all.take(i as int).filter(f),
                f == (|s: CatalogShow| s.artist_id != artist_id),
            decreases all.len() - i,
        {
            proof {
                assert(all.take(i + 1) =~= all.take(i as int).push(all[i as int]));
                all.take(i as int).lemma_filter_push(all[i as int], f);
            }
            if self.shows[i].artist_id != artist_id {
                kept.push(self.shows[i].duplicate());
            }
            i = i + 1;
        }
        proof {
            assert(all.take(all.len() as int) =~= all);
            all.lemma_filter_len(f);
        }
        let mut added: Vec<CatalogShow> = Vec::new();
        let mut k: usize = 0;
        while k < shows.len()
            invariant
                k <= shows@.len(),
                added@ == shows@.take(k as int),
            decreases shows@.len() - k,
        {
            added.push(shows[k].duplicate());
            proof {
                assert(added@ =~= shows@.take(k + 1));
            }
            k = k + 1;
        }
        proof {
            assert(shows@.take(shows@.len() as int) =~= shows@);
        }
        kept.append(&mut added);
        self.shows = kept;
        self.attempted_artists.insert(artist_id);
        if shows.len() > 0 {
            self.loaded_artists.insert(artist_id);
            self.remember_preferred_artist(artist_id);
        } else {
            self.loaded_artists.remove(&artist_id);
        }
        proof {
            assert(self.registry() == reg1);
        }
        let kept_count = #[verifier::truncate] (shows.len() as i32);
        let ghost counts0 = self.cache_count_map();
        self.cache_counts.insert(artist_id, kept_count);
        proof {
            if old(self).cache_counts_ok() && shows@.len() <= i32::MAX {
                assert(kept_count == shows@.len());
                assert forall|k: i64| #[trigger] self.cache_count_map().contains_key(k) implies self.cache_count_map()[k] >= -1 by {
                    if k != artist_id {
                        assert(counts0.contains_key(k));
                        assert(old(self).cache_count_map().contains_key(k));
                    }
                }
            }
        }
        self.build_indexes();
        (shows, changed)
    }

    /// Take the deduplicated Bman shows of an archive walk: register the
    /// two Bman artists, turn each show into a catalog entry under its
    /// synthetic id, and replace the Bman shows of the catalog with them.
    /// Returns the entries (for the cache).
    pub fn install_bman_catalog(&mut self, deduped: &Vec<ParsedShow>, id_map: &mut BmanIdMap) -> (r: Vec<CatalogShow>)
        requires
            old(self).registry_ids_ok(),
            old(self).show_list().len() + deduped@.len() < usize::MAX,
            old(id_map).wf(),
            old(id_map).view().len() + deduped@.len() < i64::MAX,
        ensures
            final(id_map).wf(),
            r@.len() == deduped@.len(),
            forall|i: int| 0 <= i < r@.len() ==> bman_catalog_show_ok(#[trigger] r@[i], deduped@[i], r@[i].container_id)
                && id_of(final(id_map).view(), deduped@[i].folder_id@) == Some(r@[i].container_id),
            forall|d: Seq<char>| #[trigger] has_drive(old(id_map).view(), d) ==> id_of(final(id_map).view(), d) == id_of(old(id_map).view(), d),
            final(self).show_list() == valid_shows(without_service(old(self).show_list(), Service::Bman) + r@),
            final(self).registry().contains_key(BMAN_GD_ARTIST_ID),
            final(self).registry().contains_key(BMAN_JGB_ARTIST_ID),
            forall|k: i64| #[trigger] old(self).registry().contains_key(k) ==> final(self).registry()[k] == old(self).registry()[k],
            final(self).indexes_ok(),
            final(self).indexes_current(),
            final(self).registry_ids_ok(),
            final(self).loaded() == old(self).loaded(),
            final(self).attempted() == old(self).attempted(),
            final(self).dir() == old(self).dir(),
    {
        self.register_artist(BMAN_GD_ARTIST_ID, "Grateful Dead");
        self.register_artist(BMAN_JGB_ARTIST_ID, "Jerry Garcia Band");
        let shows = bman_catalog_shows(deduped, id_map);
        let mut copy: Vec<CatalogShow> = Vec::new();
        let mut i: usize = 0;
        while i < shows.len()
            invariant
                i <= shows@.len(),
                copy@ == shows@.take(i as int),
            decreases shows@.len() - i,
        {
            copy.push(shows[i].duplicate());
            proof {
                assert(copy@ =~= shows@.take(i + 1));
            }
            i = i + 1;
        }
        proof {
            assert(copy@ =~= shows@);
        }
        self.apply_bman_shows(copy);
        shows
    }

    /// Replace the Bman shows with `shows` and rebuild the indexes.
    pub fn apply_bman_shows(&mut self, shows: Vec<CatalogShow>)
        requires
            old(self).registry_ids_ok(),
            old(self).show_list().len() + shows@.len() < usize::MAX,
        ensures
            final(self).show_list() == valid_shows(without_service(old(self).show_list(), Service::Bman) + shows@),
            final(self).indexes_ok(),
            final(self).indexes_current(),
            is_preferred_table(*final(self)),
            final(self).registry() == old(self).registry(),
            final(self).loaded() == old(self).loaded(),
            final(self).attempted() == old(self).attempted(),
            final(self).registry_ids_ok(),
            final(self).cache_count_map() == old(self).cache_count_map(),
            final(self).api_key() == old(self).api_key(),
            final(self).dir() == old(self).dir(),
    {
        let ghost f = |s: CatalogShow| s.service != Service::Bman;
        let ghost all = self.shows@;
        let mut kept: Vec<CatalogShow> = Vec::new();
        let mut i: usize = 0;
        while i < self.shows.len()
            invariant
                all == self.shows@,
                i <= all.len(),
                kept@ == all.take(i as int).filter(f),
                f == (|s: CatalogShow| s.service != Service::Bman),
            decreases all.len() - i,
        {
            proof {
                assert(all.take(i + 1) =~= all.take(i as int).push(all[i as int]));
                all.take(i as int).lemma_filter_push(all[i as int], f);
            }
            if self.shows[i].service != Service::Bman {
                kept.push(self.shows[i].duplicate());
            }
            i = i + 1;
        }
        proof {
            assert(all.take(all.len() as int) =~= all);
            all.lemma_filter_len(f);
        }
        let mut more = shows;
        kept.append(&mut more);
        self.shows = kept;
        proof {
            assert(self.registry() == old(self).registry());
        }
        self.build_indexes();
    }


    /// Deduplicated artist choices for menus: the best-ranked id of each
    /// normalized registry name with its display name, ordered by
    /// lower-cased name.
    pub fn get_all_artist_choices(&self) -> (r: Vec<(i64, String)>)
        requires
            self.registry_ids_ok(),
            self.show_list().len() < usize::MAX,
        ensures
            exists|groups: Seq<(String, Vec<i64>)>, p: Seq<usize>|
                is_grouping(self.registry(), groups)
                && is_stable_order(choice_keys(choices_for(*self, groups)), p, false)
                && choice_views(r@) == permuted(choices_for(*self, groups), p),
    {
        let groups = registry_groups(&self.artist_registry);
        let mut choices: Vec<(i64, String)> = Vec::new();
        let mut keys: Vec<(Vec<char>, Vec<char>)> = Vec::new();
        let mut g: usize = 0;
        while g < groups.len()
            invariant
                is_grouping(self.registry(), groups@),
                self.registry_ids_ok(),
                self.show_list().len() < usize::MAX,
                g <= groups@.len(),
                choice_views(choices@) == choices_for(*self, groups@.take(g as int)),
                key_views(keys@) == choice_keys(choice_views(choices@)),
            decreases groups@.len() - g,
        {
            proof {
                assert(groups@.take(g + 1).drop_last() =~= groups@.take(g as int));
            }
            let ids = &groups[g].1;
            proof {
                assert(groups@[g as int].1@.to_set() == ids_named(self.registry(), groups@[g as int].0@));
                assert forall|i: int| 0 <= i < ids@.len() implies #[trigger] ids@[i] > i64::MIN by {
                    assert(ids@.to_set().contains(ids@[i]));
                }
            }
            let best = self.choose_preferred_artist_id(ids);
            proof {
                let nm = groups@[g as int].0@;
                assert(ids@.to_set().contains(best));
                assert forall|other: i64| #[trigger] ids_named(self.registry(), nm).contains(other) && other != best
                    implies key_lt(self.rank_of(other), self.rank_of(best)) by {
                    assert(ids@.to_set().contains(other));
                }
                assert(is_best_of(*self, nm, best));
                lemma_best_unique(*self, nm, best, best_id(*self, nm));
                assert(groups@.take(g + 1).last() == groups@[g as int]);
            }
            match self.get_artist_name(best) {
                Some(name) => {
                    let ghost before = choices@;
                    let ghost kb = keys@;
                    let lower = to_lowercase(name);
                    choices.push((best, crate::text::owned(name)));
                    keys.push((chars_of(lower.as_str()), Vec::new()));
                    proof {
                        assert(display_name(*self, best) == Some(name@));
                        assert(choice_views(choices@) =~= choice_views(before).push((best, name@)));
                        assert(key_views(keys@) =~= key_views(kb).push((lowercase(name@), Seq::<char>::empty())));
                        assert(choice_keys(choice_views(choices@)) =~= choice_keys(choice_views(before)).push((lowercase(name@), Seq::<char>::empty())));
                    }
                },
                None => {
                    proof {
                        assert(display_name(*self, best) is None);
                    }
                },
            }
            g = g + 1;
        }
        proof {
            assert(groups@.take(groups@.len() as int) =~= groups@);
        }
        let p = stable_order(&keys, false);
        let mut out: Vec<(i64, String)> = Vec::new();
        let mut k: usize = 0;
        while k < p.len()
            invariant
                is_stable_order(key_views(keys@), p@, false),
                key_views(keys@).len() == choices@.len(),
                k <= p@.len(),
                choice_views(out@) == permuted(choice_views(choices@), p@).take(k as int),
            decreases p@.len() - k,
        {
            assert(p@[k as int] < choices@.len());
            let e = &choices[p[k]];
            let ghost before = out@;
            out.push((e.0, e.1.clone()));
            proof {
                assert(choice_views(out@) =~= choice_views(before).push((e.0, e.1@)));
                assert(choice_views(out@) =~= permuted(choice_views(choices@), p@).take(k + 1));
            }
            k = k + 1;
        }
        proof {
            assert(permuted(choice_views(choices@), p@).take(p@.len() as int) =~= permuted(choice_views(choices@), p@));
            assert(is_grouping(self.registry(), groups@)
                && is_stable_order(choice_keys(choices_for(*self, groups@)), p@, false)
                && choice_views(out@) == permuted(choices_for(*self, groups@), p@));
        }
        out
    }

    /// Shows counted in the cache for `artist_id`; -1 when unknown.
    pub fn cache_show_count(&self, artist_id: i64) -> (r: i32)
        ensures
            r == self.cached_count(artist_id),
            self.cache_counts_ok() ==> r >= -1,
    {
        match self.cache_counts.get(&artist_id) {
            Some(c) => *c,
            None => -1,
        }
    }
}

} // verus!
