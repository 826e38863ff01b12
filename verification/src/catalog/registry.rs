//! The artist registry: seed artists, name normalization and grouping of
//! artist ids that share a normalized name.
use vstd::prelude::*;
use std::collections::HashMap;
use vstd::std_specs::iter::IteratorSpec;
use crate::pattern::{regex_replace_all, replace_all};
use crate::text::{chars_of, lowercase, push, push_str, squash_whitespace, squash_ws, str_eq, string_of, to_lowercase};

verus! {

broadcast use vstd::std_specs::hash::group_hash_axioms;

/// Schema version of the artist registry kept in the catalog metadata.
pub const ARTIST_REGISTRY_SCHEMA_VERSION: i64 = 1;

/// Apostrophes, backticks and dots, dropped by normalization.
pub const APOSTROPHE_RE: &'static str = r"[`'\.]";

/// Runs of characters other than lower-case ASCII letters and digits.
pub const NON_ALNUM_RE: &'static str = r"[^a-z0-9]+";

/// The seed artists as a map.
pub open spec fn seed_map() -> Map<i64, Seq<char>> {
    map![
        62i64 => "Phish"@,
        461i64 => "Grateful Dead"@,
        1125i64 => "Billy Strings"@,
        1205i64 => "Goose"@,
        58i64 => "Widespread Panic"@,
        22i64 => "Umphrey's McGee"@,
        2i64 => "The String Cheese Incident"@,
        676i64 => "Trey Anastasio"@,
        709i64 => "Gov't Mule"@,
        1138i64 => "Bobby Weir & Wolf Bros"@,
        1020i64 => "Joe Russo's Almost Dead"@,
        196i64 => "moe."@,
        991i64 => "Bruce Springsteen"@,
        321i64 => "Pearl Jam"@,
        628i64 => "Metallica"@,
        823i64 => "Tedeschi Trucks Band"@,
        128i64 => "The Disco Biscuits"@,
        32i64 => "Lettuce"@
    ]
}

/// Seed artists as offline fallback.
pub fn seed_artists() -> (r: HashMap<i64, &'static str>)
    ensures
        r@.dom() == seed_map().dom(),
        forall|k: i64| #[trigger] r@.contains_key(k) ==> r@[k]@ == seed_map()[k],
{
    let mut m: HashMap<i64, &'static str> = HashMap::new();
    m.insert(62, "Phish");
    m.insert(461, "Grateful Dead");
    m.insert(1125, "Billy Strings");
    m.insert(1205, "Goose");
    m.insert(58, "Widespread Panic");
    m.insert(22, "Umphrey's McGee");
    m.insert(2, "The String Cheese Incident");
    m.insert(676, "Trey Anastasio");
    m.insert(709, "Gov't Mule");
    m.insert(1138, "Bobby Weir & Wolf Bros");
    m.insert(1020, "Joe Russo's Almost Dead");
    m.insert(196, "moe.");
    m.insert(991, "Bruce Springsteen");
    m.insert(321, "Pearl Jam");
    m.insert(628, "Metallica");
    m.insert(823, "Tedeschi Trucks Band");
    m.insert(128, "The Disco Biscuits");
    m.insert(32, "Lettuce");
    proof {
        assert(m@.dom() =~= seed_map().dom());
    }
    m
}


/// Merge the seed artists into a registry read from disk; names already
/// there are kept.
pub fn merge_seed_artists(registry: &mut HashMap<i64, String>)
    ensures
        final(registry)@.dom() == old(registry)@.dom().union(seed_map().dom()),
        forall|k: i64| #[trigger] old(registry)@.contains_key(k) ==> final(registry)@[k] == old(registry)@[k],
        forall|k: i64| !old(registry)@.contains_key(k) && #[trigger] seed_map().contains_key(k) ==> final(registry)@[k]@ == seed_map()[k],
{
    let seeds = seed_artists();
    let ghost all = seeds.iter().remaining();
    let ghost r0 = registry@;
    for (k, v) in it: seeds.iter()
        invariant
            it.seq() == all,
            all.len() == seeds@.dom().len(),
            forall|j: int| 0 <= j < all.len() ==> seeds@.contains_key(*(#[trigger] all[j]).0) && seeds@[*all[j].0] == *all[j].1,
            forall|kk: i64| #[trigger] seeds@.contains_key(kk) ==> all.contains((&kk, &seeds@[kk])),
            seeds@.dom() == seed_map().dom(),
            forall|kk: i64| #[trigger] seeds@.contains_key(kk) ==> seeds@[kk]@ == seed_map()[kk],
            registry@.dom() == r0.dom().union(Set::new(|x: i64| exists|j: int| 0 <= j < it.index() && *(#[trigger] all[j]).0 == x)),
            forall|kk: i64| #[trigger] r0.contains_key(kk) ==> registry@[kk] == r0[kk],
            forall|kk: i64| !r0.contains_key(kk) && #[trigger] registry@.contains_key(kk) ==> registry@[kk]@ == seed_map()[kk],
    {
        let ghost idx = it.index();
        let ghost before = registry@;
        let id = *k;
        if !registry.contains_key(&id) {
            registry.insert(id, crate::text::owned(*v));
        }
        proof {
            assert(all[idx] == (k, v));
            assert(registry@.dom() =~= r0.dom().union(Set::new(|x: i64| exists|j: int| 0 <= j < idx + 1 && *(#[trigger] all[j]).0 == x))) by {
                assert forall|x: i64| registry@.dom().contains(x) implies r0.dom().union(Set::new(|x: i64| exists|j: int| 0 <= j < idx + 1 && *(#[trigger] all[j]).0 == x)).contains(x) by {
                    if x != id {
                        assert(before.dom().contains(x));
                        if !r0.dom().contains(x) {
                            let j = choose|j: int| 0 <= j < idx && *(#[trigger] all[j]).0 == x;
                            assert(0 <= j < idx + 1 && *all[j].0 == x);
                        }
                    } else {
                        assert(*all[idx].0 == x);
                    }
                }
                assert forall|x: i64| r0.dom().union(Set::new(|x: i64| exists|j: int| 0 <= j < idx + 1 && *(#[trigger] all[j]).0 == x)).contains(x) implies registry@.dom().contains(x) by {
                    if !r0.dom().contains(x) && x != id {
                        let j = choose|j: int| 0 <= j < idx + 1 && *(#[trigger] all[j]).0 == x;
                        assert(j != idx);
                        assert(Set::new(|x: i64| exists|j: int| 0 <= j < idx && *(#[trigger] all[j]).0 == x).contains(x));
                    }
                }
            }
        }
    }
    proof {
        assert forall|x: i64| seed_map().dom().contains(x) implies registry@.dom().contains(x) by {
            assert(seeds@.contains_key(x));
            assert(all.contains((&x, &seeds@[x])));
            let j = choose|j: int| 0 <= j < all.len() && all[j] == (&x, &seeds@[x]);
            assert(*all[j].0 == x);
            assert(Set::new(|x: i64| exists|j: int| 0 <= j < all.len() && *(#[trigger] all[j]).0 == x).contains(x));
        }
        assert forall|x: i64| registry@.dom().contains(x) implies r0.dom().union(seed_map().dom()).contains(x) by {
            if !r0.dom().contains(x) {
                let j = choose|j: int| 0 <= j < all.len() && *(#[trigger] all[j]).0 == x;
                assert(seeds@.contains_key(*all[j].0));
            }
        }
        assert(registry@.dom() =~= r0.dom().union(seed_map().dom()));
    }
}

/// Every `c` in `s` replaced by `rep` (`str::replace` with a `char`).
pub open spec fn replace_char(s: Seq<char>, c: char, rep: Seq<char>) -> Seq<char>
    decreases s.len(),
{
    if s.len() == 0 {
        Seq::<char>::empty()
    } else {
        replace_char(s.drop_last(), c, rep) + (if s.last() == c { rep } else { seq![s.last()] })
    }
}

/// The result of a regex replacement, or the text unchanged when the
/// pattern does not compile (the patterns used here all compile).
pub open spec fn replaced(pattern: Seq<char>, hay: Seq<char>, rep: Seq<char>) -> Seq<char> {
    match regex_replace_all(pattern, hay, rep) {
        Some(t) => t,
        None => hay,
    }
}

/// Normalized artist name: lower-cased; `&` and `+` read as " and "; the
/// right single quotation mark read as an apostrophe; apostrophes,
/// backticks and dots dropped; every other run of characters outside
/// `[a-z0-9]` a single space; no space at either end.
pub open spec fn spec_normalize_artist_name(name: Seq<char>) -> Seq<char> {
    let s1 = lowercase(name);
    let s2 = replace_char(s1, '&', seq![' ', 'a', 'n', 'd', ' ']);
    let s3 = replace_char(s2, '+', seq![' ', 'a', 'n', 'd', ' ']);
    let s4 = replace_char(s3, '\u{2019}', seq!['\'']);
    let s5 = replaced(APOSTROPHE_RE@, s4, Seq::<char>::empty());
    let s6 = replaced(NON_ALNUM_RE@, s5, seq![' ']);
    squash_ws(s6)
}

fn replace_char_exec(s: &str, c: char, rep: &str) -> (r: String)
    ensures
        r@ == replace_char(s@, c, rep@),
{
    let cs = chars_of(s);
    let mut out = String::new();
    let mut i: usize = 0;
    while i < cs.len()
        invariant
            cs@ == s@,
            i <= cs@.len(),
            out@ == replace_char(s@.take(i as int), c, rep@),
        decreases cs@.len() - i,
    {
        proof {
            assert(s@.take(i + 1).drop_last() =~= s@.take(i as int));
        }
        if cs[i] == c {
            push_str(&mut out, rep);
        } else {
            push(&mut out, cs[i]);
            proof {
                assert(out@ =~= replace_char(s@.take(i as int), c, rep@) + seq![cs@[i as int]]);
            }
        }
        i = i + 1;
    }
    proof {
        assert(s@.take(s@.len() as int) =~= s@);
    }
    out
}

fn replace_or_keep(pattern: &str, hay: String, rep: &str) -> (r: String)
    ensures
        r@ == replaced(pattern@, hay@, rep@),
{
    match replace_all(pattern, hay.as_str(), rep) {
        Some(t) => t,
        None => hay,
    }
}

/// Normalize artist names for dedup/matching.
pub fn normalize_artist_name(name: &str) -> (r: String)
    ensures
        r@ == spec_normalize_artist_name(name@),
{
    let s1 = to_lowercase(name);
    let s2 = replace_char_exec(s1.as_str(), '&', " and ");
    let s3 = replace_char_exec(s2.as_str(), '+', " and ");
    let s4 = replace_char_exec(s3.as_str(), '\u{2019}', "'");
    proof {
        reveal_strlit(" and ");
        reveal_strlit("'");
        reveal_strlit("");
        reveal_strlit(" ");
        assert(" and "@ =~= seq![' ', 'a', 'n', 'd', ' ']);
        assert("'"@ =~= seq!['\'']);
        assert(" "@ =~= seq![' ']);
        assert(""@ =~= Seq::<char>::empty());
    }
    let s5 = replace_or_keep(APOSTROPHE_RE, s4, "");
    let s6 = replace_or_keep(NON_ALNUM_RE, s5, " ");
    let squashed = squash_whitespace(chars_of(s6.as_str()).as_slice());
    proof {
        let t1 = lowercase(name@);
        assert(s1@ == t1);
        let t2 = replace_char(t1, '&', seq![' ', 'a', 'n', 'd', ' ']);
        assert(s2@ == t2);
        let t3 = replace_char(t2, '+', seq![' ', 'a', 'n', 'd', ' ']);
        assert(s3@ == t3);
        let t4 = replace_char(t3, '\u{2019}', seq!['\'']);
        assert(s4@ == t4);
        let t5 = replaced(APOSTROPHE_RE@, t4, Seq::<char>::empty());
        assert(s5@ == t5);
        let t6 = replaced(NON_ALNUM_RE@, t5, seq![' ']);
        assert(s6@ == t6);
    }
    string_of(squashed.as_slice())
}

/// The ids of `registry` whose name normalizes to `name`.
pub open spec fn ids_named(registry: Map<i64, String>, name: Seq<char>) -> Set<i64> {
    Set::new(|id: i64| registry.contains_key(id) && spec_normalize_artist_name(registry[id]@) == name)
}

/// `groups` lists each normalized name of `registry` once, with exactly the
/// ids that carry it, each once.
pub open spec fn is_grouping(registry: Map<i64, String>, groups: Seq<(String, Vec<i64>)>) -> bool {
    &&& forall|i: int, j: int| 0 <= i < j < groups.len() ==> (#[trigger] groups[i]).0@ != (#[trigger] groups[j]).0@
    &&& forall|i: int| 0 <= i < groups.len() ==> (#[trigger] groups[i]).1@.no_duplicates()
    &&& forall|i: int| 0 <= i < groups.len() ==> (#[trigger] groups[i]).1@.to_set() == ids_named(registry, groups[i].0@)
    &&& forall|i: int| 0 <= i < groups.len() ==> (#[trigger] groups[i]).1@.len() > 0
    &&& forall|id: i64| #[trigger] registry.contains_key(id) ==> exists|i: int|
        0 <= i < groups.len() && (#[trigger] groups[i]).0@ == spec_normalize_artist_name(registry[id]@)
}

/// Some group of `groups` carries `name`.
pub open spec fn has_group(groups: Seq<(String, Vec<i64>)>, name: Seq<char>) -> bool {
    exists|i: int| 0 <= i < groups.len() && (#[trigger] groups[i]).0@ == name
}

/// Group artist IDs by normalized name.
pub fn registry_groups(registry: &HashMap<i64, String>) -> (r: Vec<(String, Vec<i64>)>)
    ensures
        is_grouping(registry@, r@),
{
    let ghost all = registry.iter().remaining();
    let ghost reg = registry@;
    let mut groups: Vec<(String, Vec<i64>)> = Vec::new();
    for (k, v) in it: registry.iter()
        invariant
            it.seq() == all,
            reg == registry@,
            all.len() == reg.dom().len(),
            forall|j: int| 0 <= j < all.len() ==> reg.contains_key(*(#[trigger] all[j]).0) && reg[*all[j].0] == *all[j].1,
            forall|kk: i64| #[trigger] reg.contains_key(kk) ==> all.contains((&kk, &reg[kk])),
            all.no_duplicates(),
            forall|i: int, j: int| 0 <= i < j < groups@.len() ==> (#[trigger] groups@[i]).0@ != (#[trigger] groups@[j]).0@,
            forall|i: int| 0 <= i < groups@.len() ==> (#[trigger] groups@[i]).1@.no_duplicates(),
            forall|i: int| 0 <= i < groups@.len() ==> (#[trigger] groups@[i]).1@.len() > 0,
            forall|i: int, id: i64| #![trigger groups@[i].1@.contains(id)] 0 <= i < groups@.len() ==> (groups@[i].1@.contains(id) <==>
                exists|j: int| 0 <= j < it.index() && *(#[trigger] all[j]).0 == id
                    && spec_normalize_artist_name(reg[id]@) == groups@[i].0@),
            forall|j: int| 0 <= j < it.index() ==> has_group(groups@, spec_normalize_artist_name((*(#[trigger] all[j]).1)@)),
    {
        let ghost idx = it.index();
        let n = normalize_artist_name(v.as_str());
        let mut g: usize = 0;
        while g < groups.len() && !str_eq(groups[g].0.as_str(), n.as_str())
            invariant
                g <= groups@.len(),
                forall|i: int| 0 <= i < g ==> (#[trigger] groups@[i]).0@ != n@,
            decreases groups@.len() - g,
        {
            g = g + 1;
        }
        let id = *k;
        proof {
            assert(all[idx] == (k, v));
            assert forall|i: int| 0 <= i < groups@.len() implies !(#[trigger] groups@[i]).1@.contains(id) by {
                if groups@[i].1@.contains(id) {
                    let j = choose|j: int| 0 <= j < idx && *(#[trigger] all[j]).0 == id
                        && spec_normalize_artist_name(reg[id]@) == groups@[i].0@;
                    assert(all[j].1 == all[idx].1);
                    assert(all[j] == all[idx]);
                }
            }
        }
        let ghost before = groups@;
        if g < groups.len() {
            groups[g].1.push(id);
            proof {
                assert forall|i: int| 0 <= i < groups@.len() implies (#[trigger] groups@[i]).1@.no_duplicates() by {
                    if i == g {
                        assert(groups@[i].1@ == before[i].1@.push(id));
                        assert(!before[i].1@.contains(id));
                    } else {
                        assert(groups@[i] == before[i]);
                    }
                }
            }
        } else {
            let mut ids: Vec<i64> = Vec::new();
            ids.push(id);
            groups.push((n, ids));
        }
        proof {
            assert forall|i: int, j: int| 0 <= i < j < groups@.len() implies (#[trigger] groups@[i]).0@ != (#[trigger] groups@[j]).0@ by {
                if j < before.len() {
                    assert(groups@[i].0@ == before[i].0@);
                    assert(groups@[j].0@ == before[j].0@);
                }
            }
            assert forall|i: int, x: i64| #![trigger groups@[i].1@.contains(x)] 0 <= i < groups@.len() implies (groups@[i].1@.contains(x) <==>
                exists|j: int| 0 <= j < idx + 1 && *(#[trigger] all[j]).0 == x
                    && spec_normalize_artist_name(reg[x]@) == groups@[i].0@) by {
                if groups@[i].1@.contains(x) {
                    if x == id && (i == g || (g == before.len() && i == g)) {
                        assert(*all[idx].0 == x);
                    } else if i < before.len() {
                        if i == g {
                            let t = choose|t: int| 0 <= t < groups@[i].1@.len() && groups@[i].1@[t] == x;
                            if t < before[i].1@.len() {
                                assert(before[i].1@[t] == x);
                                assert(before[i].1@.contains(x));
                            }
                        } else {
                            assert(groups@[i] == before[i]);
                        }
                    }
                }
                if exists|j: int| 0 <= j < idx + 1 && *(#[trigger] all[j]).0 == x
                    && spec_normalize_artist_name(reg[x]@) == groups@[i].0@ {
                    let j = choose|j: int| 0 <= j < idx + 1 && *(#[trigger] all[j]).0 == x
                        && spec_normalize_artist_name(reg[x]@) == groups@[i].0@;
                    if j == idx {
                        assert(x == id);
                        assert(reg[id] == *v);
                        if i < before.len() && i != g {
                            assert(groups@[i] == before[i]);
                        }
                        if i == g {
                            assert(groups@[i].1@.last() == id);
                        }
                    } else {
                        if i < before.len() {
                            assert(before[i].1@.contains(x));
                            if i == g {
                                let t = choose|t: int| 0 <= t < before[i].1@.len() && before[i].1@[t] == x;
                                assert(groups@[i].1@[t] == x);
                            } else {
                                assert(groups@[i] == before[i]);
                            }
                        } else {
                            assert(groups@[i].0@ == n@);
                            assert(reg[id] == *v);
                            assert(has_group(before, spec_normalize_artist_name((*all[j].1)@)));
                            assert(reg[*all[j].0] == *all[j].1);
                        }
                    }
                }
            }
            assert forall|j: int| 0 <= j < idx + 1 implies has_group(groups@, spec_normalize_artist_name((*(#[trigger] all[j]).1)@)) by {
                if j == idx {
                    assert(groups@[g as int].0@ == n@);
                } else {
                    assert(has_group(before, spec_normalize_artist_name((*all[j].1)@)));
                    let i = choose|i: int| 0 <= i < before.len()
                        && (#[trigger] before[i]).0@ == spec_normalize_artist_name((*all[j].1)@);
                    assert(groups@[i].0@ == before[i].0@);
                }
            }
        }
    }
    proof {
        assert forall|i: int| 0 <= i < groups@.len() implies (#[trigger] groups@[i]).1@.to_set() == ids_named(reg, groups@[i].0@) by {
            assert forall|x: i64| groups@[i].1@.to_set().contains(x) <==> ids_named(reg, groups@[i].0@).contains(x) by {
                if ids_named(reg, groups@[i].0@).contains(x) {
                    assert(all.contains((&x, &reg[x])));
                    let j = choose|j: int| 0 <= j < all.len() && all[j] == (&x, &reg[x]);
                    assert(*all[j].0 == x);
                }
                if groups@[i].1@.to_set().contains(x) {
                    assert(groups@[i].1@.contains(x));
                    let j = choose|j: int| 0 <= j < all.len() && *(#[trigger] all[j]).0 == x
                        && spec_normalize_artist_name(reg[x]@) == groups@[i].0@;
                    assert(reg.contains_key(*all[j].0));
                }
            }
            assert(groups@[i].1@.to_set() =~= ids_named(reg, groups@[i].0@));
        }
        assert forall|id: i64| #[trigger] reg.contains_key(id) implies exists|i: int|
            0 <= i < groups@.len() && (#[trigger] groups@[i]).0@ == spec_normalize_artist_name(reg[id]@) by {
            assert(all.contains((&id, &reg[id])));
            let j = choose|j: int| 0 <= j < all.len() && all[j] == (&id, &reg[id]);
            assert(*all[j].1 == reg[id]);
            assert(has_group(groups@, spec_normalize_artist_name((*all[j].1)@)));
        }
    }
    groups
}

/// Find all artist IDs matching a name (by normalization): each id of the
/// registry whose name normalizes like `name`, once; none when `name`
/// normalizes to nothing.
pub fn find_artist_ids(registry: &HashMap<i64, String>, name: &str) -> (r: Vec<i64>)
    ensures
        r@.no_duplicates(),
        spec_normalize_artist_name(name@).len() == 0 ==> r@.len() == 0,
        spec_normalize_artist_name(name@).len() > 0 ==>
            r@.to_set() == ids_named(registry@, spec_normalize_artist_name(name@)),
{
    let normalized = normalize_artist_name(name);
    if normalized.as_str().is_empty() {
        return Vec::new();
    }
    let mut groups = registry_groups(registry);
    let mut g: usize = 0;
    while g < groups.len()
        invariant
            g <= groups@.len(),
            is_grouping(registry@, groups@),
            normalized@ == spec_normalize_artist_name(name@),
            normalized@.len() > 0,
            forall|i: int| 0 <= i < g ==> (#[trigger] groups@[i]).0@ != normalized@,
        decreases groups@.len() - g,
    {
        if str_eq(groups[g].0.as_str(), normalized.as_str()) {
            let ghost gs = groups@;
            let entry = groups.swap_remove(g);
            proof {
                assert(entry == gs[g as int]);
                assert(entry.0@ == normalized@);
                assert(entry.1@.to_set() == ids_named(registry@, normalized@));
            }
            return entry.1;
        }
        g = g + 1;
    }
    proof {
        let s = ids_named(registry@, normalized@);
        assert(s =~= Set::<i64>::empty()) by {
            if exists|x: i64| s.contains(x) {
                let x = choose|x: i64| s.contains(x);
                assert(registry@.contains_key(x));
                let i = choose|i: int| 0 <= i < groups@.len() && (#[trigger] groups@[i]).0@ == spec_normalize_artist_name(registry@[x]@);
            }
        }
        assert(Seq::<i64>::empty().to_set() =~= Set::<i64>::empty());
    }
    Vec::new()
}

} // verus!
