//! The search screen: artist names that match the query, and labels.
use vstd::prelude::*;
use nucleo_matcher::pattern::{AtomKind, CaseMatching, Normalization, Pattern};
use nucleo_matcher::{Config, Matcher, Utf32Str};
use vstd::string::StrSliceExecFns;
use crate::browser::style::{dim, DIM, RESET};
use crate::sorting::{is_stable_desc_by_score, stable_order_desc_by_score};
use crate::text::{owned, push_str, space_count};

verus! {

broadcast use vstd::string::group_string_axioms;

/// Minimum fuzzy score for an artist name to match.
pub const ARTIST_MATCH_THRESHOLD: u32 = 80;
/// At most this many artist matches are offered.
pub const MAX_ARTIST_MATCHES: usize = 5;
/// At most this many shows are offered.
pub const MAX_SHOW_RESULTS: usize = 50;

/// Score of an artist `name` against `query` as a fuzzy pattern (each word
/// matched on its own, case ignored, smart normalization, `!`, `^` and `$`
/// taken literally); `None` when some word does not match.
pub uninterp spec fn artist_score(query: Seq<char>, name: Seq<char>) -> Option<u32>;

/// Calls `nucleo_matcher::pattern::Pattern::new(query, CaseMatching::Ignore,
/// Normalization::Smart, AtomKind::Fuzzy)` and `Pattern::score` on `name`
/// (through `Utf32Str::new`) with a fresh `Matcher` of `Config::DEFAULT`.
/// The result depends on `query` and `name` alone; it is named
/// `artist_score`. The source panics on a haystack longer than `u32::MAX`
/// characters and may overflow the `u32` sum of the per-word scores (at most
/// `u16::MAX` each) past 65536 words; a query with fewer than 65535 spaces
/// has at most 65535 words, so only queries with that many spaces (and
/// longer haystacks) are left out.
#[verifier::external_body]
fn score_artist(query: &str, name: &str) -> (r: Option<u32>)
    requires
        space_count(query@) < 65535,
        name@.len() <= u32::MAX,
    ensures
        r == artist_score(query@, name@),
{
    let pattern = Pattern::new(query, CaseMatching::Ignore, Normalization::Smart, AtomKind::Fuzzy);
    let mut matcher = Matcher::new(Config::DEFAULT);
    let mut buf = Vec::new();
    let hay = Utf32Str::new(name, &mut buf);
    pattern.score(hay, &mut matcher)
}

/// The artists whose name scores at least the threshold, with their
/// scores, in the order of `choices` (names longer than `u32::MAX`
/// characters, which the matcher cannot take, match nothing).
pub open spec fn artist_hits(query: Seq<char>, choices: Seq<(i64, String)>) -> Seq<(i64, Seq<char>, u32)>
    decreases choices.len(),
{
    if choices.len() == 0 {
        Seq::<(i64, Seq<char>, u32)>::empty()
    } else {
        let prev = artist_hits(query, choices.drop_last());
        let (id, name) = choices.last();
        if name@.len() > u32::MAX {
            prev
        } else {
            match artist_score(query, name@) {
                Some(s) => if s >= ARTIST_MATCH_THRESHOLD {
                    prev.push((id, name@, s))
                } else {
                    prev
                },
                None => prev,
            }
        }
    }
}

pub open spec fn hit_scores(h: Seq<(i64, Seq<char>, u32)>) -> Seq<u32> {
    h.map_values(|x: (i64, Seq<char>, u32)| x.2)
}

/// The hits taken in the order `p`, the first `limit` of them.
pub open spec fn top_hits(h: Seq<(i64, Seq<char>, u32)>, p: Seq<usize>, limit: usize) -> Seq<(i64, Seq<char>, u32)> {
    let n: int = if limit < p.len() { limit as int } else { p.len() as int };
    p.take(n).map_values(|i: usize| h[i as int])
}

pub open spec fn match_views(v: Seq<(i64, String, u32)>) -> Seq<(i64, Seq<char>, u32)> {
    v.map_values(|x: (i64, String, u32)| (x.0, x.1@, x.2))
}

/// The artists of `choices` whose name matches `query`, best score first
/// (ties in the order of `choices`), at most `MAX_ARTIST_MATCHES` of them.
pub fn artist_matches(choices: &Vec<(i64, String)>, query: &str) -> (r: Vec<(i64, String, u32)>)
    requires
        space_count(query@) < 65535,
    ensures
        exists|p: Seq<usize>| is_stable_desc_by_score(hit_scores(artist_hits(query@, choices@)), p)
            && match_views(r@) == top_hits(artist_hits(query@, choices@), p, MAX_ARTIST_MATCHES),
{
    let mut hits: Vec<(i64, String, u32)> = Vec::new();
    let mut scores: Vec<u32> = Vec::new();
    let mut i: usize = 0;
    while i < choices.len()
        invariant
            space_count(query@) < 65535,
            i <= choices@.len(),
            match_views(hits@) == artist_hits(query@, choices@.take(i as int)),
            scores@ == hit_scores(match_views(hits@)),
        decreases choices@.len() - i,
    {
        proof {
            assert(choices@.take(i + 1).drop_last() =~= choices@.take(i as int));
            assert(choices@.take(i + 1).last() == choices@[i as int]);
        }
        let name = choices[i].1.as_str();
        let len = name.unicode_len();
        if (len as u64) <= (u32::MAX as u64) {
            match score_artist(query, name) {
                Some(s) => {
                    if s >= ARTIST_MATCH_THRESHOLD {
                        let ghost before = match_views(hits@);
                        hits.push((choices[i].0, owned(name), s));
                        scores.push(s);
                        proof {
                            assert(match_views(hits@) =~= before.push((choices@[i as int].0, name@, s)));
                            assert(scores@ =~= hit_scores(match_views(hits@)));
                        }
                    }
                },
                None => {},
            }
        }
        i = i + 1;
    }
    proof {
        assert(choices@.take(choices@.len() as int) =~= choices@);
    }
    let ghost h = match_views(hits@);
    let p = stable_order_desc_by_score(&scores);
    let n = if MAX_ARTIST_MATCHES < p.len() { MAX_ARTIST_MATCHES } else { p.len() };
    let mut out: Vec<(i64, String, u32)> = Vec::new();
    let mut k: usize = 0;
    while k < n
        invariant
            n <= p@.len(),
            n == (if MAX_ARTIST_MATCHES < p@.len() { MAX_ARTIST_MATCHES as int } else { p@.len() as int }),
            p@.len() == hits@.len(),
            h == match_views(hits@),
            forall|j: int| 0 <= j < p@.len() ==> #[trigger] p@[j] < hits@.len(),
            k <= n,
            match_views(out@) == p@.take(k as int).map_values(|j: usize| h[j as int]),
        decreases n - k,
    {
        let j = p[k];
        let ghost before = match_views(out@);
        out.push((hits[j].0, owned(hits[j].1.as_str()), hits[j].2));
        proof {
            assert(match_views(out@) =~= before.push(h[j as int]));
            assert(p@.take(k + 1).map_values(|j: usize| h[j as int]) =~= p@.take(k as int).map_values(|j: usize| h[j as int]).push(h[j as int]));
        }
        k = k + 1;
    }
    proof {
        assert(match_views(out@) =~= top_hits(h, p@, MAX_ARTIST_MATCHES));
    }
    out
}

/// An artist match label: the name, two spaces, and a dim
/// "(artist catalog)".
pub fn dim_artist_label(name: &str) -> (r: String)
    ensures
        r@ == name@ + "  "@ + DIM@ + "(artist catalog)"@ + RESET@,
{
    let mut r = owned(name);
    push_str(&mut r, "  ");
    let d = dim("(artist catalog)");
    push_str(&mut r, d.as_str());
    r
}

} // verus!
