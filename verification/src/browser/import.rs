//! Parsing of pasted nugs.net links and ids for the import screen.
use vstd::prelude::*;
use crate::pattern::{is_match, regex_matches};
use crate::text::{chars_of, is_ws, is_ws_char, owned, push_str, str_eq, string_of, trim, trim_chars, views};

verus! {

broadcast use vstd::string::group_string_axioms;

/// `play.nugs.net/release/{id}`.
pub const RELEASE_RE: &'static str = r"play\.nugs\.net/release/(\d+)";
/// `play.nugs.net/#/playlists/playlist/{id}` or `.../library/playlist/{id}`.
pub const PLAYLIST_RE: &'static str = r"play\.nugs\.net/(?:#/playlists|library)/playlist/(\d+)";
/// `2nu.gs/{id}`.
pub const SHORTLINK_RE: &'static str = r"2nu\.gs/([a-zA-Z\d]+)";
/// `play.nugs.net/artist/{id}`.
pub const ARTIST_RE: &'static str = r"play\.nugs\.net/artist/(\d+)";
/// A bare numeric id.
pub const BARE_ID_RE: &'static str = r"^\d+$";

/// Kind of a parsed link.
#[derive(Debug, Clone, Copy, PartialEq, Eq, Structural)]
pub enum UrlType {
    Release,
    Playlist,
    Shortlink,
    Artist,
}

/// The word a link kind adds to its dedup key.
pub open spec fn spec_key_suffix(t: UrlType) -> Seq<char> {
    match t {
        UrlType::Release => "release"@,
        UrlType::Playlist => "playlist"@,
        UrlType::Shortlink => "shortlink"@,
        UrlType::Artist => "artist"@,
    }
}

impl UrlType {
    /// The word this kind adds to a dedup key.
    pub fn key_suffix(&self) -> (r: &'static str)
        ensures
            r@ == spec_key_suffix(*self),
    {
        proof {
            reveal_strlit("release");
            reveal_strlit("playlist");
            reveal_strlit("shortlink");
            reveal_strlit("artist");
        }
        match self {
            UrlType::Release => "release",
            UrlType::Playlist => "playlist",
            UrlType::Shortlink => "shortlink",
            UrlType::Artist => "artist",
        }
    }
}

/// A parsed id with its kind.
#[derive(Debug, Clone)]
pub struct ParsedUrl {
    pub id: String,
    pub url_type: UrlType,
}

/// For each match of `pattern` in `haystack`, in order (`Regex::new` then
/// `Regex::captures_iter`), the text of capture group `group` (`None` for
/// a match in which the group did not take part); `None` when the pattern
/// does not compile.
pub uninterp spec fn regex_group_all(pattern: Seq<char>, haystack: Seq<char>, group: nat) -> Option<Seq<Option<Seq<char>>>>;

/// Calls `regex::Regex::new` and `regex::Regex::captures_iter`, taking
/// group `group` of each match; the result is named
/// `regex_group_all(pattern, haystack, group)`.
#[verifier::external_body]
fn group_all(pattern: &str, haystack: &str, group: usize) -> (r: Option<Vec<Option<String>>>)
    ensures
        r is Some <==> regex_group_all(pattern@, haystack@, group as nat) is Some,
        r matches Some(v) ==> regex_group_all(pattern@, haystack@, group as nat) == Some(
            v@.map_values(|g: Option<String>| match g { Some(s) => Some(s@), None => None }),
        ),
{
    let re = regex::Regex::new(pattern).ok()?;
    Some(re.captures_iter(haystack).map(|c| c.get(group).map(|m| m.as_str().to_string())).collect())
}

/// The group texts that are there, in order.
pub open spec fn present(gs: Seq<Option<Seq<char>>>) -> Seq<Seq<char>>
    decreases gs.len(),
{
    if gs.len() == 0 {
        Seq::<Seq<char>>::empty()
    } else {
        let prev = present(gs.drop_last());
        match gs.last() {
            Some(t) => prev.push(t),
            None => prev,
        }
    }
}

/// The ids that `pattern` finds in `text` (its first group, match by match).
pub open spec fn ids_found(pattern: Seq<char>, text: Seq<char>) -> Seq<Seq<char>> {
    match regex_group_all(pattern, text, 1) {
        Some(gs) => present(gs),
        None => Seq::<Seq<char>>::empty(),
    }
}

/// A separator between bare ids: white space or a comma.
pub open spec fn is_id_sep(c: char) -> bool {
    is_ws(c) || c == ','
}

/// Pieces of `s` between separators (`str::split` with a predicate).
pub open spec fn split_ids(s: Seq<char>) -> Seq<Seq<char>>
    decreases s.len(),
{
    if s.len() == 0 {
        seq![Seq::<char>::empty()]
    } else {
        let r = split_ids(s.drop_last());
        if is_id_sep(s.last()) {
            r.push(Seq::<char>::empty())
        } else {
            r.update(r.len() - 1, r.last().push(s.last()))
        }
    }
}

/// The bare numeric ids among the pieces, trimmed, in order.
pub open spec fn bare_ids(pieces: Seq<Seq<char>>) -> Seq<Seq<char>>
    decreases pieces.len(),
{
    if pieces.len() == 0 {
        Seq::<Seq<char>>::empty()
    } else {
        let prev = bare_ids(pieces.drop_last());
        let t = trim(pieces.last());
        if regex_matches(BARE_ID_RE@, t) {
            prev.push(t)
        } else {
            prev
        }
    }
}

/// Pair each id with a kind.
pub open spec fn tagged(ids: Seq<Seq<char>>, t: UrlType) -> Seq<(Seq<char>, UrlType)> {
    ids.map_values(|id: Seq<char>| (id, t))
}

/// Every candidate of the text, in order: release links, playlist links,
/// shortlinks, artist links, then bare ids (taken as releases).
pub open spec fn url_candidates(text: Seq<char>) -> Seq<(Seq<char>, UrlType)> {
    tagged(ids_found(RELEASE_RE@, text), UrlType::Release)
        + tagged(ids_found(PLAYLIST_RE@, text), UrlType::Playlist)
        + tagged(ids_found(SHORTLINK_RE@, text), UrlType::Shortlink)
        + tagged(ids_found(ARTIST_RE@, text), UrlType::Artist)
        + tagged(bare_ids(split_ids(text)), UrlType::Release)
}

/// The dedup key of a candidate: "id:kind".
pub open spec fn url_key(c: (Seq<char>, UrlType)) -> Seq<char> {
    c.0 + ":"@ + spec_key_suffix(c.1)
}

/// The candidates without those whose key an earlier one already had.
pub open spec fn dedup_urls(c: Seq<(Seq<char>, UrlType)>) -> Seq<(Seq<char>, UrlType)>
    decreases c.len(),
{
    if c.len() == 0 {
        Seq::<(Seq<char>, UrlType)>::empty()
    } else {
        let prev = dedup_urls(c.drop_last());
        if exists|j: int| 0 <= j < prev.len() && url_key(#[trigger] prev[j]) == url_key(c.last()) {
            prev
        } else {
            prev.push(c.last())
        }
    }
}

/// Deduplication keeps keys apart and loses none: no two results share a
/// key, every candidate's key is among the results, and every result is a
/// candidate.
proof fn lemma_dedup_urls(c: Seq<(Seq<char>, UrlType)>)
    ensures
        forall|i: int, j: int| 0 <= i < j < dedup_urls(c).len() ==> url_key(#[trigger] dedup_urls(c)[i]) != url_key(#[trigger] dedup_urls(c)[j]),
        forall|k: int| 0 <= k < c.len() ==> exists|j: int| 0 <= j < dedup_urls(c).len() && url_key(#[trigger] dedup_urls(c)[j]) == url_key(#[trigger] c[k]),
        forall|j: int| 0 <= j < dedup_urls(c).len() ==> c.contains(#[trigger] dedup_urls(c)[j]),
    decreases c.len(),
{
    if c.len() > 0 {
        let prev = dedup_urls(c.drop_last());
        lemma_dedup_urls(c.drop_last());
        assert forall|k: int| 0 <= k < c.len() implies exists|j: int| 0 <= j < dedup_urls(c).len() && url_key(#[trigger] dedup_urls(c)[j]) == url_key(#[trigger] c[k]) by {
            if k < c.len() - 1 {
                assert(c.drop_last()[k] == c[k]);
                let j = choose|j: int| 0 <= j < prev.len() && url_key(#[trigger] prev[j]) == url_key(c.drop_last()[k]);
                assert(dedup_urls(c)[j] == prev[j]);
            } else if exists|j: int| 0 <= j < prev.len() && url_key(#[trigger] prev[j]) == url_key(c.last()) {
                let j = choose|j: int| 0 <= j < prev.len() && url_key(#[trigger] prev[j]) == url_key(c.last());
                assert(dedup_urls(c)[j] == prev[j]);
            } else {
                assert(dedup_urls(c)[prev.len() as int] == c.last());
            }
        }
        assert forall|j: int| 0 <= j < dedup_urls(c).len() implies c.contains(#[trigger] dedup_urls(c)[j]) by {
            if j < prev.len() {
                assert(c.drop_last().contains(prev[j]));
                let m = choose|m: int| 0 <= m < c.drop_last().len() && c.drop_last()[m] == prev[j];
                assert(c[m] == prev[j]);
            } else {
                assert(c[c.len() - 1] == c.last());
            }
        }
    }
}

/// Each parsed id-and-kind appears once, every candidate of the text is
/// represented by its key, and nothing is made up.
pub proof fn law_parse_urls_dedup(text: Seq<char>)
    ensures
        forall|i: int, j: int| 0 <= i < j < dedup_urls(url_candidates(text)).len()
            ==> url_key(#[trigger] dedup_urls(url_candidates(text))[i]) != url_key(#[trigger] dedup_urls(url_candidates(text))[j]),
        forall|k: int| 0 <= k < url_candidates(text).len() ==> exists|j: int| 0 <= j < dedup_urls(url_candidates(text)).len()
            && url_key(#[trigger] dedup_urls(url_candidates(text))[j]) == url_key(#[trigger] url_candidates(text)[k]),
        forall|j: int| 0 <= j < dedup_urls(url_candidates(text)).len()
            ==> url_candidates(text).contains(#[trigger] dedup_urls(url_candidates(text))[j]),
{
    lemma_dedup_urls(url_candidates(text));
}

pub open spec fn parsed_views(v: Seq<ParsedUrl>) -> Seq<(Seq<char>, UrlType)> {
    v.map_values(|p: ParsedUrl| (p.id@, p.url_type))
}

/// Pieces of `s` between separators.
fn split_on_ids(s: &[char]) -> (r: Vec<Vec<char>>)
    ensures
        views(r@) == split_ids(s@),
{
    let mut parts: Vec<Vec<char>> = Vec::new();
    let mut cur: Vec<char> = Vec::new();
    let mut i: usize = 0;
    while i < s.len()
        invariant
            i <= s.len(),
            views(parts@).push(cur@) == split_ids(s@.take(i as int)),
        decreases s.len() - i,
    {
        proof {
            assert(s@.take(i + 1).drop_last() =~= s@.take(i as int));
            assert(s@.take(i + 1).last() == s@[i as int]);
        }
        if is_ws_char(s[i]) || s[i] == ',' {
            let done = cur;
            parts.push(done);
            cur = Vec::new();
            proof {
                assert(views(parts@).push(cur@) =~= split_ids(s@.take(i as int)).push(Seq::<char>::empty()));
            }
        } else {
            let ghost before = views(parts@).push(cur@);
            cur.push(s[i]);
            proof {
                assert(views(parts@).push(cur@) =~= before.update(before.len() - 1, before.last().push(s@[i as int])));
            }
        }
        i = i + 1;
    }
    parts.push(cur);
    proof {
        assert(s@.take(s@.len() as int) =~= s@);
    }
    parts
}

/// Append the ids `pattern` finds in `text`, tagged with `t`.
fn push_found(out: &mut Vec<(String, UrlType)>, pattern: &str, text: &str, t: UrlType)
    ensures
        final(out)@.map_values(|c: (String, UrlType)| (c.0@, c.1))
            == old(out)@.map_values(|c: (String, UrlType)| (c.0@, c.1)) + tagged(ids_found(pattern@, text@), t),
{
    let ghost start = out@.map_values(|c: (String, UrlType)| (c.0@, c.1));
    match group_all(pattern, text, 1) {
        Some(gs) => {
            let ghost gv = gs@.map_values(|g: Option<String>| match g { Some(s) => Some(s@), None => None });
            let mut i: usize = 0;
            while i < gs.len()
                invariant
                    i <= gs@.len(),
                    gv == gs@.map_values(|g: Option<String>| match g { Some(s) => Some(s@), None => None }),
                    regex_group_all(pattern@, text@, 1) == Some(gv),
                    out@.map_values(|c: (String, UrlType)| (c.0@, c.1)) == start + tagged(present(gv.take(i as int)), t),
                decreases gs@.len() - i,
            {
                proof {
                    assert(gv.take(i + 1).drop_last() =~= gv.take(i as int));
                }
                match &gs[i] {
                    Some(id) => {
                        let ghost before = out@.map_values(|c: (String, UrlType)| (c.0@, c.1));
                        out.push((owned(id.as_str()), t));
                        proof {
                            assert(out@.map_values(|c: (String, UrlType)| (c.0@, c.1)) =~= before.push((id@, t)));
                            assert(present(gv.take(i + 1)) == present(gv.take(i as int)).push(id@));
                            assert(tagged(present(gv.take(i + 1)), t) =~= tagged(present(gv.take(i as int)), t).push((id@, t)));
                        }
                    },
                    None => {
                        proof {
                            assert(present(gv.take(i + 1)) == present(gv.take(i as int)));
                        }
                    },
                }
                i = i + 1;
            }
            proof {
                assert(gv.take(gs@.len() as int) =~= gv);
            }
        },
        None => {
            proof {
                assert(tagged(Seq::<Seq<char>>::empty(), t) =~= Seq::<(Seq<char>, UrlType)>::empty());
                assert(start + Seq::<(Seq<char>, UrlType)>::empty() =~= start);
            }
        },
    }
}

/// Every candidate of the text, in order.
fn candidates(text: &str) -> (r: Vec<(String, UrlType)>)
    ensures
        r@.map_values(|c: (String, UrlType)| (c.0@, c.1)) == url_candidates(text@),
{
    let mut out: Vec<(String, UrlType)> = Vec::new();
    proof {
        assert(out@.map_values(|c: (String, UrlType)| (c.0@, c.1)) =~= Seq::<(Seq<char>, UrlType)>::empty());
    }
    push_found(&mut out, RELEASE_RE, text, UrlType::Release);
    push_found(&mut out, PLAYLIST_RE, text, UrlType::Playlist);
    push_found(&mut out, SHORTLINK_RE, text, UrlType::Shortlink);
    push_found(&mut out, ARTIST_RE, text, UrlType::Artist);
    let ghost url_part = out@.map_values(|c: (String, UrlType)| (c.0@, c.1));
    proof {
        assert(url_part =~= tagged(ids_found(RELEASE_RE@, text@), UrlType::Release)
            + tagged(ids_found(PLAYLIST_RE@, text@), UrlType::Playlist)
            + tagged(ids_found(SHORTLINK_RE@, text@), UrlType::Shortlink)
            + tagged(ids_found(ARTIST_RE@, text@), UrlType::Artist));
    }
    let cs = chars_of(text);
    let pieces = split_on_ids(cs.as_slice());
    let ghost pv = views(pieces@);
    let mut i: usize = 0;
    while i < pieces.len()
        invariant
            i <= pieces@.len(),
            pv == views(pieces@),
            pv == split_ids(text@),
            out@.map_values(|c: (String, UrlType)| (c.0@, c.1)) == url_part + tagged(bare_ids(pv.take(i as int)), UrlType::Release),
        decreases pieces@.len() - i,
    {
        proof {
            assert(pv.take(i + 1).drop_last() =~= pv.take(i as int));
            assert(pv.take(i + 1).last() == pieces@[i as int]@);
        }
        let t = string_of(trim_chars(pieces[i].as_slice()).as_slice());
        if is_match(BARE_ID_RE, t.as_str()) {
            let ghost before = out@.map_values(|c: (String, UrlType)| (c.0@, c.1));
            let ghost tv = t@;
            out.push((t, UrlType::Release));
            proof {
                assert(out@.map_values(|c: (String, UrlType)| (c.0@, c.1)) =~= before.push((tv, UrlType::Release)));
                assert(tagged(bare_ids(pv.take(i + 1)), UrlType::Release) =~= tagged(bare_ids(pv.take(i as int)), UrlType::Release).push((tv, UrlType::Release)));
            }
        }
        i = i + 1;
    }
    proof {
        assert(pv.take(pieces@.len() as int) =~= pv);
    }
    out
}

/// The dedup key of a candidate.
fn key_of(id: &str, t: UrlType) -> (r: String)
    ensures
        r@ == url_key((id@, t)),
{
    let mut k = owned(id);
    push_str(&mut k, ":");
    push_str(&mut k, t.key_suffix());
    proof {
        reveal_strlit(":");
    }
    k
}

/// Parse text input into a list of (id, type) pairs, each key once, in
/// the order of `url_candidates`: links of
/// `play.nugs.net/release/{id}`, `play.nugs.net/(#/playlists|library)/playlist/{id}`,
/// `2nu.gs/{id}` and `play.nugs.net/artist/{id}`, then bare numeric ids
/// (taken as releases).
pub fn parse_urls(text: &str) -> (r: Vec<ParsedUrl>)
    ensures
        parsed_views(r@) == dedup_urls(url_candidates(text@)),
{
    let cands = candidates(text);
    let ghost cv = cands@.map_values(|c: (String, UrlType)| (c.0@, c.1));
    let mut out: Vec<ParsedUrl> = Vec::new();
    let mut keys: Vec<String> = Vec::new();
    let mut i: usize = 0;
    while i < cands.len()
        invariant
            i <= cands@.len(),
            cv == cands@.map_values(|c: (String, UrlType)| (c.0@, c.1)),
            cv == url_candidates(text@),
            parsed_views(out@) == dedup_urls(cv.take(i as int)),
            keys@.len() == out@.len(),
            forall|j: int| 0 <= j < keys@.len() ==> (#[trigger] keys@[j])@ == url_key(parsed_views(out@)[j]),
        decreases cands@.len() - i,
    {
        proof {
            assert(cv.take(i + 1).drop_last() =~= cv.take(i as int));
            assert(cv.take(i + 1).last() == cv[i as int]);
        }
        let k = key_of(cands[i].0.as_str(), cands[i].1);
        let mut seen = false;
        let mut j: usize = 0;
        while j < keys.len()
            invariant
                j <= keys@.len(),
                seen <==> exists|m: int| 0 <= m < j && (#[trigger] keys@[m])@ == k@,
            decreases keys@.len() - j,
        {
            if str_eq(keys[j].as_str(), k.as_str()) {
                seen = true;
            }
            j = j + 1;
        }
        let ghost prev = parsed_views(out@);
        proof {
            if seen {
                let m = choose|m: int| 0 <= m < keys@.len() && (#[trigger] keys@[m])@ == k@;
                assert(url_key(prev[m]) == url_key(cv[i as int]));
            } else {
                assert forall|m: int| 0 <= m < prev.len() implies url_key(#[trigger] prev[m]) != url_key(cv[i as int]) by {
                    assert(keys@[m]@ == url_key(prev[m]));
                }
            }
        }
        if !seen {
            let id = owned(cands[i].0.as_str());
            out.push(ParsedUrl { id, url_type: cands[i].1 });
            keys.push(k);
            proof {
                assert(parsed_views(out@) =~= prev.push(cv[i as int]));
            }
        }
        i = i + 1;
    }
    proof {
        assert(cv.take(cands@.len() as int) =~= cv);
    }
    out
}

} // verus!
