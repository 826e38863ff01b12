//! Search corpus construction and fuzzy show search.
use vstd::prelude::*;
use std::collections::HashMap;
use nucleo_matcher::pattern::{CaseMatching, Normalization, Pattern};
use nucleo_matcher::{Config, Matcher, Utf32Str};
use vstd::string::StrSliceExecFns;
use crate::models::CatalogShow;
use crate::sorting::{is_stable_desc_by_score, stable_order_desc_by_score};
use crate::text::{
    chars_of, is_suffix, join, join_chars, lemma_split_ws_words_nonempty, lowercase, space_count, split_whitespace,
    split_ws, str_eq, string_of, to_lowercase, to_uppercase, trim, trim_str, uppercase, views,
};

verus! {

broadcast use vstd::std_specs::hash::group_hash_axioms;

/// First letters of the words of a name of two or more words; empty
/// otherwise ("Madison Square Garden" gives "MSG").
pub open spec fn spec_abbreviate(name: Seq<char>) -> Seq<char> {
    let words = split_ws(name);
    if words.len() < 2 {
        Seq::<char>::empty()
    } else {
        Seq::new(words.len(), |i: int| words[i][0])
    }
}

/// Generate an abbreviation from the first letters of a multi-word name.
pub fn abbreviate(name: &str) -> (r: String)
    ensures
        r@ == spec_abbreviate(name@),
{
    let words = split_whitespace(chars_of(name).as_slice());
    let ghost ws = views(words@);
    if words.len() < 2 {
        return String::new();
    }
    proof {
        lemma_split_ws_words_nonempty(name@);
    }
    let mut out: Vec<char> = Vec::new();
    let mut i: usize = 0;
    while i < words.len()
        invariant
            ws == views(words@),
            ws == split_ws(name@),
            forall|k: int| 0 <= k < ws.len() ==> #[trigger] ws[k].len() > 0,
            i <= words@.len(),
            out@ == Seq::new(i as nat, |k: int| ws[k][0]),
        decreases words@.len() - i,
    {
        assert(ws[i as int].len() > 0);
        assert(words@[i as int]@ == ws[i as int]);
        let c = words[i][0];
        out.push(c);
        proof {
            assert(out@ =~= Seq::new((i + 1) as nat, |k: int| ws[k][0]));
        }
        i = i + 1;
    }
    string_of(out.as_slice())
}

/// Full name of a US state (or DC) by its two-letter code; empty for any
/// other text.
pub open spec fn spec_state_name(code: Seq<char>) -> Seq<char> {
    if code == "AL"@ {
        "Alabama"@
    } else if code == "AK"@ {
        "Alaska"@
    } else if code == "AZ"@ {
        "Arizona"@
    } else if code == "AR"@ {
        "Arkansas"@
    } else if code == "CA"@ {
        "California"@
    } else if code == "CO"@ {
        "Colorado"@
    } else if code == "CT"@ {
        "Connecticut"@
    } else if code == "DE"@ {
        "Delaware"@
    } else if code == "FL"@ {
        "Florida"@
    } else if code == "GA"@ {
        "Georgia"@
    } else if code == "HI"@ {
        "Hawaii"@
    } else if code == "ID"@ {
        "Idaho"@
    } else if code == "IL"@ {
        "Illinois"@
    } else if code == "IN"@ {
        "Indiana"@
    } else if code == "IA"@ {
        "Iowa"@
    } else if code == "KS"@ {
        "Kansas"@
    } else if code == "KY"@ {
        "Kentucky"@
    } else if code == "LA"@ {
        "Louisiana"@
    } else if code == "ME"@ {
        "Maine"@
    } else if code == "MD"@ {
        "Maryland"@
    } else if code == "MA"@ {
        "Massachusetts"@
    } else if code == "MI"@ {
        "Michigan"@
    } else if code == "MN"@ {
        "Minnesota"@
    } else if code == "MS"@ {
        "Mississippi"@
    } else if code == "MO"@ {
        "Missouri"@
    } else if code == "MT"@ {
        "Montana"@
    } else if code == "NE"@ {
        "Nebraska"@
    } else if code == "NV"@ {
        "Nevada"@
    } else if code == "NH"@ {
        "New Hampshire"@
    } else if code == "NJ"@ {
        "New Jersey"@
    } else if code == "NM"@ {
        "New Mexico"@
    } else if code == "NY"@ {
        "New York"@
    } else if code == "NC"@ {
        "North Carolina"@
    } else if code == "ND"@ {
        "North Dakota"@
    } else if code == "OH"@ {
        "Ohio"@
    } else if code == "OK"@ {
        "Oklahoma"@
    } else if code == "OR"@ {
        "Oregon"@
    } else if code == "PA"@ {
        "Pennsylvania"@
    } else if code == "RI"@ {
        "Rhode Island"@
    } else if code == "SC"@ {
        "South Carolina"@
    } else if code == "SD"@ {
        "South Dakota"@
    } else if code == "TN"@ {
        "Tennessee"@
    } else if code == "TX"@ {
        "Texas"@
    } else if code == "UT"@ {
        "Utah"@
    } else if code == "VT"@ {
        "Vermont"@
    } else if code == "VA"@ {
        "Virginia"@
    } else if code == "WA"@ {
        "Washington"@
    } else if code == "WV"@ {
        "West Virginia"@
    } else if code == "WI"@ {
        "Wisconsin"@
    } else if code == "WY"@ {
        "Wyoming"@
    } else if code == "DC"@ {
        "District of Columbia"@
    } else {
        Seq::<char>::empty()
    }
}

/// Full name of a US state (or DC) by its two-letter code; empty for any
/// other text.
pub fn us_state_name(code: &str) -> (r: &'static str)
    ensures
        r@ == spec_state_name(code@),
{
    proof {
        reveal_strlit("");
    }
    if str_eq(code, "AL") {
        "Alabama"
    } else if str_eq(code, "AK") {
        "Alaska"
    } else if str_eq(code, "AZ") {
        "Arizona"
    } else if str_eq(code, "AR") {
        "Arkansas"
    } else if str_eq(code, "CA") {
        "California"
    } else if str_eq(code, "CO") {
        "Colorado"
    } else if str_eq(code, "CT") {
        "Connecticut"
    } else if str_eq(code, "DE") {
        "Delaware"
    } else if str_eq(code, "FL") {
        "Florida"
    } else if str_eq(code, "GA") {
        "Georgia"
    } else if str_eq(code, "HI") {
        "Hawaii"
    } else if str_eq(code, "ID") {
        "Idaho"
    } else if str_eq(code, "IL") {
        "Illinois"
    } else if str_eq(code, "IN") {
        "Indiana"
    } else if str_eq(code, "IA") {
        "Iowa"
    } else if str_eq(code, "KS") {
        "Kansas"
    } else if str_eq(code, "KY") {
        "Kentucky"
    } else if str_eq(code, "LA") {
        "Louisiana"
    } else if str_eq(code, "ME") {
        "Maine"
    } else if str_eq(code, "MD") {
        "Maryland"
    } else if str_eq(code, "MA") {
        "Massachusetts"
    } else if str_eq(code, "MI") {
        "Michigan"
    } else if str_eq(code, "MN") {
        "Minnesota"
    } else if str_eq(code, "MS") {
        "Mississippi"
    } else if str_eq(code, "MO") {
        "Missouri"
    } else if str_eq(code, "MT") {
        "Montana"
    } else if str_eq(code, "NE") {
        "Nebraska"
    } else if str_eq(code, "NV") {
        "Nevada"
    } else if str_eq(code, "NH") {
        "New Hampshire"
    } else if str_eq(code, "NJ") {
        "New Jersey"
    } else if str_eq(code, "NM") {
        "New Mexico"
    } else if str_eq(code, "NY") {
        "New York"
    } else if str_eq(code, "NC") {
        "North Carolina"
    } else if str_eq(code, "ND") {
        "North Dakota"
    } else if str_eq(code, "OH") {
        "Ohio"
    } else if str_eq(code, "OK") {
        "Oklahoma"
    } else if str_eq(code, "OR") {
        "Oregon"
    } else if str_eq(code, "PA") {
        "Pennsylvania"
    } else if str_eq(code, "RI") {
        "Rhode Island"
    } else if str_eq(code, "SC") {
        "South Carolina"
    } else if str_eq(code, "SD") {
        "South Dakota"
    } else if str_eq(code, "TN") {
        "Tennessee"
    } else if str_eq(code, "TX") {
        "Texas"
    } else if str_eq(code, "UT") {
        "Utah"
    } else if str_eq(code, "VT") {
        "Vermont"
    } else if str_eq(code, "VA") {
        "Virginia"
    } else if str_eq(code, "WA") {
        "Washington"
    } else if str_eq(code, "WV") {
        "West Virginia"
    } else if str_eq(code, "WI") {
        "Wisconsin"
    } else if str_eq(code, "WY") {
        "Wyoming"
    } else if str_eq(code, "DC") {
        "District of Columbia"
    } else {
        ""
    }
}

/// The text fields of a show that its search entry is made of, in order:
/// artist, venue, venue abbreviation, city, state code, state name, date,
/// formatted date, container info, song list.
pub open spec fn corpus_fields(show: CatalogShow) -> Seq<Seq<char>> {
    let state_full = if show.venue_state@.len() > 0 {
        spec_state_name(uppercase(show.venue_state@))
    } else {
        Seq::<char>::empty()
    };
    seq![
        show.artist_name@,
        show.venue_name@,
        spec_abbreviate(show.venue_name@),
        show.venue_city@,
        show.venue_state@,
        state_full,
        show.performance_date@,
        show.performance_date_formatted@,
        show.container_info@,
        show.song_list@,
    ]
}

pub open spec fn non_empty(parts: Seq<Seq<char>>) -> Seq<Seq<char>> {
    parts.filter(|p: Seq<char>| p.len() > 0)
}

/// The lower-cased search text of a show: its non-empty fields joined by
/// single spaces.
pub open spec fn spec_corpus_entry(show: CatalogShow) -> Seq<char> {
    lowercase(join(non_empty(corpus_fields(show)), seq![' ']))
}

/// Build the search corpus text for a single show.
pub fn build_corpus_entry(show: &CatalogShow) -> (r: String)
    ensures
        r@ == spec_corpus_entry(*show),
{
    let state_full: &str = if !show.venue_state.as_str().is_empty() {
        let up = to_uppercase(show.venue_state.as_str());
        us_state_name(up.as_str())
    } else {
        ""
    };
    proof {
        reveal_strlit("");
    }
    let venue_abbrev = abbreviate(show.venue_name.as_str());
    let mut fields: Vec<Vec<char>> = Vec::new();
    fields.push(chars_of(show.artist_name.as_str()));
    fields.push(chars_of(show.venue_name.as_str()));
    fields.push(chars_of(venue_abbrev.as_str()));
    fields.push(chars_of(show.venue_city.as_str()));
    fields.push(chars_of(show.venue_state.as_str()));
    fields.push(chars_of(state_full));
    fields.push(chars_of(show.performance_date.as_str()));
    fields.push(chars_of(show.performance_date_formatted.as_str()));
    fields.push(chars_of(show.container_info.as_str()));
    fields.push(chars_of(show.song_list.as_str()));
    let ghost all = views(fields@);
    proof {
        let cf = corpus_fields(*show);
        assert(all.len() == cf.len());
        assert(all[5] == cf[5]);
        assert(all[2] == cf[2]);
        assert(all =~= cf);
    }
    let ghost keep = |p: Seq<char>| p.len() > 0;
    let mut kept: Vec<Vec<char>> = Vec::new();
    let mut i: usize = 0;
    while i < fields.len()
        invariant
            all == views(fields@),
            i <= fields@.len(),
            views(kept@) == all.take(i as int).filter(keep),
            keep == (|p: Seq<char>| p.len() > 0),
        decreases fields@.len() - i,
    {
        proof {
            assert(all.take(i + 1) =~= all.take(i as int).push(all[i as int]));
            all.take(i as int).lemma_filter_push(all[i as int], keep);
        }
        if fields[i].len() > 0 {
            let ghost before = views(kept@);
            let f = clone_chars(&fields[i]);
            kept.push(f);
            proof {
                assert(views(kept@) =~= before.push(all[i as int]));
            }
        }
        i = i + 1;
    }
    proof {
        assert(all.take(all.len() as int) =~= all);
    }
    let sp: [char; 1] = [' '];
    proof {
        assert(sp@ =~= seq![' ']);
    }
    let joined = string_of(join_chars(&kept, &sp).as_slice());
    to_lowercase(joined.as_str())
}

fn clone_chars(v: &Vec<char>) -> (r: Vec<char>)
    ensures
        r@ == v@,
{
    let mut r: Vec<char> = Vec::new();
    let mut i: usize = 0;
    while i < v.len()
        invariant
            i <= v@.len(),
            r@ == v@.take(i as int),
        decreases v@.len() - i,
    {
        r.push(v[i]);
        proof {
            assert(v@.take(i + 1) =~= v@.take(i as int).push(v@[i as int]));
        }
        i = i + 1;
    }
    proof {
        assert(v@.take(v@.len() as int) =~= v@);
    }
    r
}

/// Score of `haystack` against the fuzzy pattern parsed from `query`
/// (words matched independently, case ignored, smart normalization), the
/// haystack taken as ASCII bytes when it is all ASCII, else as characters;
/// `None` when some word does not match.
pub uninterp spec fn fuzzy_score(query: Seq<char>, haystack: Seq<char>) -> Option<u32>;

/// Declares `nucleo_matcher::Matcher`, the scratch space of the fuzzy matcher.
#[verifier::external_type_specification]
#[verifier::external_body]
pub struct ExMatcher(Matcher);

/// Calls `nucleo_matcher::Matcher::new` with `Config::DEFAULT`: a matcher
/// with fresh scratch space.
#[verifier::external_body]
fn new_matcher() -> (m: Matcher) {
    Matcher::new(Config::DEFAULT)
}

/// Calls `nucleo_matcher::pattern::Pattern::parse(query, CaseMatching::Ignore,
/// Normalization::Smart)` and `Pattern::score` on an ASCII `haystack` as
/// `Utf32Str::Ascii` of its bytes. The result depends on `query` and
/// `haystack` alone (the matcher only lends scratch space); it is named
/// `fuzzy_score`. The source panics on a haystack longer than `u32::MAX`
/// characters and may overflow the `u32` sum of the per-word scores (at
/// most `u16::MAX` each) when the query has more than 65536 words; a query
/// with fewer than 65535 spaces has at most 65535 words, so the inputs
/// left out are longer haystacks and queries with that many spaces.
#[verifier::external_body]
fn ascii_pattern_score(query: &str, haystack: &str, matcher: &mut Matcher) -> (r: Option<u32>)
    requires
        space_count(query@) < 65535,
        haystack@.len() <= u32::MAX,
        all_ascii(haystack@),
    ensures
        r == fuzzy_score(query@, haystack@),
{
    let pattern = Pattern::parse(query, CaseMatching::Ignore, Normalization::Smart);
    pattern.score(Utf32Str::Ascii(haystack.as_bytes()), matcher)
}

/// As `ascii_pattern_score`, for a `haystack` that is not all ASCII, passed
/// as `Utf32Str::Unicode` of its characters; the result is named
/// `fuzzy_score` too (each haystack takes one of the two forms only).
#[verifier::external_body]
fn unicode_pattern_score(query: &str, haystack: &str, matcher: &mut Matcher) -> (r: Option<u32>)
    requires
        space_count(query@) < 65535,
        haystack@.len() <= u32::MAX,
        !all_ascii(haystack@),
    ensures
        r == fuzzy_score(query@, haystack@),
{
    let pattern = Pattern::parse(query, CaseMatching::Ignore, Normalization::Smart);
    let chars: Vec<char> = haystack.chars().collect();
    pattern.score(Utf32Str::Unicode(&chars), matcher)
}

/// Every character is ASCII.
pub open spec fn all_ascii(s: Seq<char>) -> bool {
    forall|i: int| 0 <= i < s.len() ==> (#[trigger] s[i]) <= '\u{7f}'
}

fn is_all_ascii(s: &str) -> (r: bool)
    ensures
        r == all_ascii(s@),
{
    let cs = chars_of(s);
    let mut i: usize = 0;
    while i < cs.len()
        invariant
            i <= cs@.len(),
            cs@ == s@,
            forall|j: int| 0 <= j < i ==> (#[trigger] cs@[j]) <= '\u{7f}',
        decreases cs@.len() - i,
    {
        if cs[i] > '\u{7f}' {
            return false;
        }
        i = i + 1;
    }
    true
}

/// Score of `haystack` against the fuzzy pattern of `query`, the haystack
/// passed to the matcher as ASCII bytes when it is all ASCII, else as
/// characters.
fn pattern_score(query: &str, haystack: &str, matcher: &mut Matcher) -> (r: Option<u32>)
    requires
        space_count(query@) < 65535,
        haystack@.len() <= u32::MAX,
    ensures
        r == fuzzy_score(query@, haystack@),
{
    if is_all_ascii(haystack) {
        ascii_pattern_score(query, haystack, matcher)
    } else {
        unicode_pattern_score(query, haystack, matcher)
    }
}

/// Corpus entries that match `query`, with their scores, in corpus order
/// (texts longer than `u32::MAX` characters, which the matcher cannot take,
/// match nothing).
pub open spec fn scored_entries(query: Seq<char>, corpus: Seq<(i64, String)>) -> Seq<(i64, u32)>
    decreases corpus.len(),
{
    if corpus.len() == 0 {
        Seq::<(i64, u32)>::empty()
    } else {
        let prev = scored_entries(query, corpus.drop_last());
        if corpus.last().1@.len() > u32::MAX {
            prev
        } else {
            match fuzzy_score(query, corpus.last().1@) {
                Some(s) => prev.push((corpus.last().0, s)),
                None => prev,
            }
        }
    }
}

pub open spec fn scores_of(e: Seq<(i64, u32)>) -> Seq<u32> {
    e.map_values(|x: (i64, u32)| x.1)
}

/// The ids of `e` taken in the order `p`, the first `limit` of them.
pub open spec fn ranked_ids(e: Seq<(i64, u32)>, p: Seq<usize>, limit: usize) -> Seq<i64> {
    let n: int = if limit < p.len() { limit as int } else { p.len() as int };
    p.take(n).map_values(|i: usize| e[i as int].0)
}

/// The shows that `lookup` maps the ids to, skipping unmapped ids.
pub open spec fn shows_for_ids(ids: Seq<i64>, lookup: Map<i64, usize>, shows: Seq<CatalogShow>) -> Seq<CatalogShow>
    decreases ids.len(),
{
    if ids.len() == 0 {
        Seq::<CatalogShow>::empty()
    } else {
        let prev = shows_for_ids(ids.drop_last(), lookup, shows);
        if lookup.contains_key(ids.last()) {
            prev.push(shows[lookup[ids.last()] as int])
        } else {
            prev
        }
    }
}

/// Every id that `lookup` maps points into `shows`.
pub open spec fn lookup_in_bounds(lookup: Map<i64, usize>, n: nat) -> bool {
    forall|k: i64| #[trigger] lookup.contains_key(k) ==> lookup[k] < n
}

/// Fuzzy search: the shows of the corpus entries that match the trimmed
/// query, best score first (ties in corpus order), at most `limit` of them;
/// empty for a blank query.
pub fn search_shows(
    query: &str,
    corpus: &[(i64, String)],
    show_lookup: &HashMap<i64, usize>,
    shows: &[CatalogShow],
    limit: usize,
) -> (r: Vec<CatalogShow>)
    requires
        space_count(trim(query@)) < 65535,
        lookup_in_bounds(show_lookup@, shows@.len()),
    ensures
        trim(query@).len() == 0 ==> r@.len() == 0,
        trim(query@).len() > 0 ==> exists|p: Seq<usize>|
            is_stable_desc_by_score(scores_of(scored_entries(trim(query@), corpus@)), p)
            && r@ == shows_for_ids(ranked_ids(scored_entries(trim(query@), corpus@), p, limit), show_lookup@, shows@),
{
    let q = trim_str(query);
    if q.as_str().is_empty() {
        return Vec::new();
    }
    let ghost qv = q@;
    let mut matcher = new_matcher();
    let mut entries: Vec<(i64, u32)> = Vec::new();
    let mut scores: Vec<u32> = Vec::new();
    let mut i: usize = 0;
    while i < corpus.len()
        invariant
            qv == q@,
            space_count(q@) < 65535,
            i <= corpus@.len(),
            entries@ == scored_entries(qv, corpus@.take(i as int)),
            scores@ == scores_of(entries@),
        decreases corpus@.len() - i,
    {
        proof {
            assert(corpus@.take(i + 1).drop_last() =~= corpus@.take(i as int));
        }
        let len = corpus[i].1.as_str().unicode_len();
        let s = if (len as u64) <= (u32::MAX as u64) {
            pattern_score(q.as_str(), corpus[i].1.as_str(), &mut matcher)
        } else {
            None
        };
        match s {
            Some(v) => {
                entries.push((corpus[i].0, v));
                scores.push(v);
                proof {
                    assert(scores@ =~= scores_of(entries@));
                }
            },
            None => {},
        }
        i = i + 1;
    }
    proof {
        assert(corpus@.take(corpus@.len() as int) =~= corpus@);
    }
    let p = stable_order_desc_by_score(&scores);
    let n = if limit < p.len() { limit } else { p.len() };
    let ghost ids = ranked_ids(entries@, p@, limit);
    let mut out: Vec<CatalogShow> = Vec::new();
    let mut k: usize = 0;
    while k < n
        invariant
            n <= p@.len(),
            n == (if limit < p@.len() { limit as int } else { p@.len() as int }),
            p@.len() == entries@.len(),
            forall|j: int| 0 <= j < p@.len() ==> #[trigger] p@[j] < entries@.len(),
            ids == ranked_ids(entries@, p@, limit),
            ids.len() == n,
            lookup_in_bounds(show_lookup@, shows@.len()),
            k <= n,
            out@ == shows_for_ids(ids.take(k as int), show_lookup@, shows@),
        decreases n - k,
    {
        proof {
            assert(ids.take(k + 1).drop_last() =~= ids.take(k as int));
            assert(ids[k as int] == entries@[p@[k as int] as int].0);
        }
        let cid = entries[p[k]].0;
        match show_lookup.get(&cid) {
            Some(idx) => {
                out.push(shows[*idx].duplicate());
            },
            None => {},
        }
        k = k + 1;
    }
    proof {
        assert(ids.take(n as int) =~= ids);
    }
    out
}

/// Corpus entries whose show belongs to `artist_id`.
pub open spec fn artist_corpus(corpus: Seq<(i64, String)>, artist_id: i64, lookup: Map<i64, usize>, shows: Seq<CatalogShow>) -> Seq<(i64, String)> {
    corpus.filter(|e: (i64, String)| lookup.contains_key(e.0) && shows[lookup[e.0] as int].artist_id == artist_id)
}

/// Fuzzy search within a single artist's shows.
pub fn search_artist_shows(
    query: &str,
    artist_id: i64,
    corpus: &[(i64, String)],
    show_lookup: &HashMap<i64, usize>,
    shows: &[CatalogShow],
    limit: usize,
) -> (r: Vec<CatalogShow>)
    requires
        space_count(trim(query@)) < 65535,
        lookup_in_bounds(show_lookup@, shows@.len()),
    ensures
        trim(query@).len() == 0 ==> r@.len() == 0,
        trim(query@).len() > 0 ==> exists|p: Seq<usize>|
            is_stable_desc_by_score(scores_of(scored_entries(trim(query@), artist_corpus(corpus@, artist_id, show_lookup@, shows@))), p)
            && r@ == shows_for_ids(ranked_ids(scored_entries(trim(query@), artist_corpus(corpus@, artist_id, show_lookup@, shows@)), p, limit), show_lookup@, shows@),
{
    let ghost keep = |e: (i64, String)| show_lookup@.contains_key(e.0) && shows@[show_lookup@[e.0] as int].artist_id == artist_id;
    let mut sub: Vec<(i64, String)> = Vec::new();
    let mut i: usize = 0;
    while i < corpus.len()
        invariant
            lookup_in_bounds(show_lookup@, shows@.len()),
            i <= corpus@.len(),
            sub@ == corpus@.take(i as int).filter(keep),
            keep == (|e: (i64, String)| show_lookup@.contains_key(e.0) && shows@[show_lookup@[e.0] as int].artist_id == artist_id),
        decreases corpus@.len() - i,
    {
        proof {
            assert(corpus@.take(i + 1) =~= corpus@.take(i as int).push(corpus@[i as int]));
            corpus@.take(i as int).lemma_filter_push(corpus@[i as int], keep);
        }
        let cid = corpus[i].0;
        match show_lookup.get(&cid) {
            Some(idx) => {
                if shows[*idx].artist_id == artist_id {
                    sub.push((cid, corpus[i].1.clone()));
                }
            },
            None => {},
        }
        i = i + 1;
    }
    proof {
        assert(corpus@.take(corpus@.len() as int) =~= corpus@);
    }
    proof {
        assert(sub@ == artist_corpus(corpus@, artist_id, show_lookup@, shows@));
    }
    search_shows(query, sub.as_slice(), show_lookup, shows, limit)
}

/// The search text of a show holds its song list: it is the lower-cased
/// form of a text that ends with the (non-empty) song list, so a search for
/// a song finds the show.
pub proof fn law_corpus_entry_holds_song_list(show: CatalogShow)
    requires
        show.song_list@.len() > 0,
    ensures
        exists|t: Seq<char>| spec_corpus_entry(show) == lowercase(t) && #[trigger] is_suffix(show.song_list@, t),
{
    let parts = non_empty(corpus_fields(show));
    let f = |p: Seq<char>| p.len() > 0;
    let fields = corpus_fields(show);
    assert(fields =~= fields.drop_last().push(show.song_list@));
    fields.drop_last().lemma_filter_push(show.song_list@, f);
    assert(parts == fields.drop_last().filter(f).push(show.song_list@));
    let t = join(parts, seq![' ']);
    assert(parts.last() == show.song_list@);
    if parts.len() == 1 {
        assert(t == show.song_list@);
    } else {
        assert(t == join(parts.drop_last(), seq![' ']) + seq![' '] + show.song_list@);
    }
    assert(t.skip(t.len() - show.song_list@.len()) =~= show.song_list@);
    assert(is_suffix(show.song_list@, t));
}

} // verus!
