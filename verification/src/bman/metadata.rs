//! Track-title enrichment for Bman shows: titles come from several
//! sources of rising authority (file name, Vorbis comment, info file,
//! setlist.fm), and a title from one source never replaces a title that a
//! higher-ranked source gave. Tracks still untitled at the end get
//! "Track NN".
use vstd::prelude::*;
use std::collections::HashMap;
use crate::models::{Show, Track};
use crate::pattern::{captures, group, group_text, is_match, regex_matches};
use crate::sorting::{is_stable_num_order, stable_order_by_nums};
use crate::text::{
    chars_of, dec2_chars, dec_chars, fmt_dec, fmt_dec2, owned, parse_u64, parse_u64_str, push_chars, push_str,
    split_char, split_on_char, string_of, trim, trim_str, views,
};

verus! {

broadcast use {vstd::std_specs::hash::group_hash_axioms, vstd::string::group_string_axioms};

/// Ranking of title sources (later = more authoritative).
#[derive(Debug, Clone, Copy, PartialEq, Eq, PartialOrd, Ord, Hash, Structural)]
pub enum TitleSource {
    Fallback,
    Filename,
    InfoFile,
    VorbisComment,
    SetlistFm,
}

/// The authority of a source: 0 for the fallback up to 4 for setlist.fm.
pub open spec fn source_rank(s: TitleSource) -> int {
    match s {
        TitleSource::Fallback => 0,
        TitleSource::Filename => 1,
        TitleSource::InfoFile => 2,
        TitleSource::VorbisComment => 3,
        TitleSource::SetlistFm => 4,
    }
}

impl TitleSource {
    /// The authority of this source.
    pub fn rank(self) -> (r: u8)
        ensures
            r == source_rank(self),
    {
        match self {
            TitleSource::Fallback => 0,
            TitleSource::Filename => 1,
            TitleSource::InfoFile => 2,
            TitleSource::VorbisComment => 3,
            TitleSource::SetlistFm => 4,
        }
    }
}

/// Info-file track lines: `1. Title`, `01-Title`, `1) Title`, `01 Title`.
pub const INFO_TRACK_RE: &'static str = r"^\s*(\d+)(?:\s*[-.)]\s*|\s+)(\S.*)$";

/// Info-file section headers to skip ("Set 1:", "Encore:", "Disc 2:").
pub const SECTION_HEADER_RE: &'static str = r"(?i)^\s*(set\s*\d*|encore|disk\s*\d*|disc\s*\d*)\s*:?\s*$";

// ---- Lines ------------------------------------------------------------------

/// A line without the carriage return of a `\r\n` ending.
pub open spec fn strip_cr(l: Seq<char>) -> Seq<char> {
    if l.len() > 0 && l.last() == '\r' { l.drop_last() } else { l }
}

/// `str::lines`: pieces between newlines, each ended line without a
/// trailing carriage return, and no empty piece after a final newline.
pub open spec fn text_lines(s: Seq<char>) -> Seq<Seq<char>> {
    let pieces = split_char(s, '\n');
    let body = pieces.take(pieces.len() - 1).map_values(|l: Seq<char>| strip_cr(l));
    if pieces.last().len() == 0 { body } else { body.push(pieces.last()) }
}

proof fn lemma_split_nonempty(s: Seq<char>, c: char)
    ensures
        split_char(s, c).len() >= 1,
    decreases s.len(),
{
    if s.len() > 0 {
        lemma_split_nonempty(s.drop_last(), c);
    }
}

/// The lines of `s`.
pub fn lines_of(s: &str) -> (r: Vec<String>)
    ensures
        r@.map_values(|l: String| l@) == text_lines(s@),
{
    let cs = chars_of(s);
    let pieces = split_on_char(cs.as_slice(), '\n');
    let ghost pv = views(pieces@);
    proof {
        lemma_split_nonempty(s@, '\n');
    }
    let n = pieces.len();
    let mut out: Vec<String> = Vec::new();
    let mut i: usize = 0;
    while i + 1 < n
        invariant
            n == pieces@.len(),
            n >= 1,
            pv == views(pieces@),
            pv == split_char(s@, '\n'),
            i < n,
            out@.map_values(|l: String| l@) == pv.take(i as int).map_values(|l: Seq<char>| strip_cr(l)),
        decreases n - i,
    {
        let piece = &pieces[i];
        let l = if piece.len() > 0 && piece[piece.len() - 1] == '\r' {
            string_of(crate::text::slice(piece.as_slice(), 0, piece.len() - 1).as_slice())
        } else {
            string_of(piece.as_slice())
        };
        proof {
            assert(piece@ == pv[i as int]);
            assert(piece@.subrange(0, piece@.len() - 1) =~= piece@.drop_last());
        }
        let ghost before = out@.map_values(|l: String| l@);
        let ghost lv = l@;
        out.push(l);
        proof {
            assert(out@.map_values(|l: String| l@) =~= before.push(lv));
            assert(pv.take(i + 1).map_values(|l: Seq<char>| strip_cr(l)) =~= pv.take(i as int).map_values(|l: Seq<char>| strip_cr(l)).push(strip_cr(pv[i as int])));
        }
        i = i + 1;
    }
    let last = &pieces[n - 1];
    proof {
        assert(last@ == pv.last());
    }
    if last.len() > 0 {
        let ghost before = out@.map_values(|l: String| l@);
        let l = string_of(last.as_slice());
        let ghost lv = l@;
        out.push(l);
        proof {
            assert(out@.map_values(|l: String| l@) =~= before.push(lv));
        }
    }
    out
}

// ---- Info files -------------------------------------------------------------

/// The track a line of an info file names: its number (0 when it does not
/// fit a `u64`) and trimmed title, kept when the number is positive and
/// the title not empty; section headers name none.
pub open spec fn info_entry(line: Seq<char>) -> Option<(u64, Seq<char>)> {
    if regex_matches(SECTION_HEADER_RE@, line) {
        None
    } else {
        match (group_text(INFO_TRACK_RE@, line, 1), group_text(INFO_TRACK_RE@, line, 2)) {
            (Some(n), Some(t)) => {
                let num: u64 = match parse_u64(n) {
                    Some(v) => v,
                    None => 0,
                };
                if num > 0 && trim(t).len() > 0 { Some((num, trim(t))) } else { None }
            },
            _ => None,
        }
    }
}

/// The tracks the lines name, in order.
pub open spec fn info_entries(lines: Seq<Seq<char>>) -> Seq<(u64, Seq<char>)>
    decreases lines.len(),
{
    if lines.len() == 0 {
        Seq::<(u64, Seq<char>)>::empty()
    } else {
        let prev = info_entries(lines.drop_last());
        match info_entry(lines.last()) {
            Some(e) => prev.push(e),
            None => prev,
        }
    }
}

/// The title of the first entry numbered `n`.
pub open spec fn first_title(es: Seq<(u64, Seq<char>)>, n: u64) -> Option<Seq<char>>
    decreases es.len(),
{
    if es.len() == 0 {
        None
    } else {
        match first_title(es.drop_last(), n) {
            Some(t) => Some(t),
            None => if es.last().0 == n { Some(es.last().1) } else { None },
        }
    }
}

/// `out` lists the entries by increasing track number, each number once,
/// with the title of the first entry of that number.
pub open spec fn is_info_listing(entries: Seq<(u64, Seq<char>)>, out: Seq<(u64, Seq<char>)>) -> bool {
    &&& forall|i: int, j: int| 0 <= i < j < out.len() ==> (#[trigger] out[i]).0 < (#[trigger] out[j]).0
    &&& forall|i: int| 0 <= i < out.len() ==> first_title(entries, (#[trigger] out[i]).0) == Some(out[i].1)
    &&& forall|n: u64| #[trigger] first_title(entries, n) is Some ==> exists|i: int| 0 <= i < out.len() && (#[trigger] out[i]).0 == n
}

/// The track named by one line, if any.
fn entry_of(line: &str) -> (r: Option<(u64, String)>)
    ensures
        match r {
            Some(e) => info_entry(line@) == Some((e.0, e.1@)),
            None => info_entry(line@) is None,
        },
{
    if is_match(SECTION_HEADER_RE, line) {
        return None;
    }
    match captures(INFO_TRACK_RE, line) {
        Some(c) => {
            match (group(&c, 1), group(&c, 2)) {
                (Some(n), Some(t)) => {
                    let num: u64 = match parse_u64_str(n.as_str()) {
                        Some(v) => v,
                        None => 0,
                    };
                    let title = trim_str(t.as_str());
                    if num > 0 && !title.as_str().is_empty() {
                        Some((num, title))
                    } else {
                        None
                    }
                },
                _ => None,
            }
        },
        None => None,
    }
}

pub open spec fn entry_views(v: Seq<(u64, String)>) -> Seq<(u64, Seq<char>)> {
    v.map_values(|e: (u64, String)| (e.0, e.1@))
}

/// A second entry of a number already listed leaves the listing as it is.
proof fn lemma_listing_dup(es: Seq<(u64, Seq<char>)>, before: Seq<(u64, Seq<char>)>, e: (u64, Seq<char>), pos: int)
    requires
        is_info_listing(es, before),
        0 <= pos < before.len(),
        before[pos].0 == e.0,
    ensures
        is_info_listing(es.push(e), before),
{
    let es2 = es.push(e);
    assert(es2.drop_last() =~= es);
    assert(first_title(es, e.0) is Some);
    assert forall|n: u64| #[trigger] first_title(es2, n) == first_title(es, n) by {}
}

/// An entry of a new number goes in at its place in the listing.
proof fn lemma_listing_insert(es: Seq<(u64, Seq<char>)>, before: Seq<(u64, Seq<char>)>, e: (u64, Seq<char>), pos: int)
    requires
        is_info_listing(es, before),
        0 <= pos <= before.len(),
        forall|j: int| 0 <= j < pos ==> (#[trigger] before[j]).0 < e.0,
        pos < before.len() ==> before[pos].0 > e.0,
    ensures
        is_info_listing(es.push(e), before.insert(pos, e)),
{
    let es2 = es.push(e);
    let after = before.insert(pos, e);
    assert(es2.drop_last() =~= es);
    assert forall|q: int| 0 <= q < before.len() implies (#[trigger] before[q]).0 != e.0 by {
        if q > pos {
            assert(before[pos].0 < before[q].0);
        }
    }
    if first_title(es, e.0) is Some {
        let i = choose|i: int| 0 <= i < before.len() && (#[trigger] before[i]).0 == e.0;
        assert(false);
    }
    assert forall|a: int, b: int| 0 <= a < b < after.len() implies (#[trigger] after[a]).0 < (#[trigger] after[b]).0 by {
        if b < pos {
            assert(after[a] == before[a] && after[b] == before[b]);
        } else if b == pos {
            assert(after[a] == before[a]);
        } else if a < pos {
            assert(after[a] == before[a] && after[b] == before[b - 1]);
            if b - 1 > pos {
                assert(before[pos].0 < before[b - 1].0);
            }
        } else if a == pos {
            assert(after[b] == before[b - 1]);
            if b - 1 > pos {
                assert(before[pos].0 < before[b - 1].0);
            }
        } else {
            assert(after[a] == before[a - 1] && after[b] == before[b - 1]);
        }
    }
    assert forall|q: int| 0 <= q < after.len() implies first_title(es2, (#[trigger] after[q]).0) == Some(after[q].1) by {
        if q != pos {
            let q0 = if q < pos { q } else { q - 1 };
            assert(after[q] == before[q0]);
            assert(first_title(es, before[q0].0) == Some(before[q0].1));
        }
    }
    assert forall|n: u64| #[trigger] first_title(es2, n) is Some implies exists|i: int| 0 <= i < after.len() && (#[trigger] after[i]).0 == n by {
        if first_title(es, n) is Some {
            let i = choose|i: int| 0 <= i < before.len() && (#[trigger] before[i]).0 == n;
            let i1 = if i < pos { i } else { i + 1 };
            assert(after[i1] == before[i]);
        } else {
            assert(after[pos] == e);
        }
    }
}

/// Parse an info file and return its track titles ordered by track
/// number: section headers are skipped, and of several lines with one
/// number the first counts.
pub fn parse_info_file(contents: &str) -> (r: Vec<String>)
    ensures
        exists|out: Seq<(u64, Seq<char>)>| is_info_listing(info_entries(text_lines(contents@)), out)
            && r@.map_values(|t: String| t@) == out.map_values(|e: (u64, Seq<char>)| e.1),
{
    let lines = lines_of(contents);
    let ghost lv = lines@.map_values(|l: String| l@);
    let mut acc: Vec<(u64, String)> = Vec::new();
    let mut i: usize = 0;
    while i < lines.len()
        invariant
            i <= lines@.len(),
            lv == lines@.map_values(|l: String| l@),
            lv == text_lines(contents@),
            is_info_listing(info_entries(lv.take(i as int)), entry_views(acc@)),
        decreases lines@.len() - i,
    {
        let ghost es = info_entries(lv.take(i as int));
        proof {
            assert(lv.take(i + 1).drop_last() =~= lv.take(i as int));
            assert(lv.take(i + 1).last() == lines@[i as int]@);
        }
        match entry_of(lines[i].as_str()) {
            Some((num, title)) => {
                let ghost e = (num, title@);
                let ghost before = entry_views(acc@);
                proof {
                    assert(info_entries(lv.take(i + 1)) == es.push(e));
                }
                let mut pos: usize = 0;
                while pos < acc.len() && acc[pos].0 < num
                    invariant
                        pos <= acc@.len(),
                        forall|j: int| 0 <= j < pos ==> (#[trigger] acc@[j]).0 < num,
                    decreases acc@.len() - pos,
                {
                    pos = pos + 1;
                }
                if pos < acc.len() && acc[pos].0 == num {
                    proof {
                        lemma_listing_dup(es, before, e, pos as int);
                    }
                } else {
                    acc.insert(pos, (num, title));
                    proof {
                        assert(entry_views(acc@) =~= before.insert(pos as int, e));
                        lemma_listing_insert(es, before, e, pos as int);
                    }
                }
            },
            None => {
                proof {
                    assert(info_entries(lv.take(i + 1)) == es);
                }
            },
        }
        i = i + 1;
    }
    proof {
        assert(lv.take(lines@.len() as int) =~= lv);
    }
    let ghost out = entry_views(acc@);
    let mut titles: Vec<String> = Vec::new();
    let mut k: usize = 0;
    while k < acc.len()
        invariant
            k <= acc@.len(),
            out == entry_views(acc@),
            titles@.map_values(|t: String| t@) == out.take(k as int).map_values(|e: (u64, Seq<char>)| e.1),
        decreases acc@.len() - k,
    {
        let ghost before = titles@.map_values(|t: String| t@);
        let t = owned(acc[k].1.as_str());
        let ghost tv = t@;
        titles.push(t);
        proof {
            assert(titles@.map_values(|t: String| t@) =~= before.push(tv));
            assert(out.take(k + 1).map_values(|e: (u64, Seq<char>)| e.1) =~= out.take(k as int).map_values(|e: (u64, Seq<char>)| e.1).push(out[k as int].1));
        }
        k = k + 1;
    }
    proof {
        assert(out.take(acc@.len() as int) =~= out);
    }
    titles
}

/// Number of lines that look like track entries.
pub open spec fn track_line_count(lines: Seq<Seq<char>>) -> nat
    decreases lines.len(),
{
    if lines.len() == 0 {
        0
    } else {
        track_line_count(lines.drop_last()) + if regex_matches(INFO_TRACK_RE@, lines.last()) { 1nat } else { 0nat }
    }
}

/// Count lines that look like track entries (how info files are compared).
pub fn count_track_lines(contents: &str) -> (r: usize)
    ensures
        r == track_line_count(text_lines(contents@)),
{
    let lines = lines_of(contents);
    let ghost lv = lines@.map_values(|l: String| l@);
    let mut n: usize = 0;
    let mut i: usize = 0;
    while i < lines.len()
        invariant
            i <= lines@.len(),
            lv == lines@.map_values(|l: String| l@),
            n == track_line_count(lv.take(i as int)),
            n <= i,
        decreases lines@.len() - i,
    {
        proof {
            assert(lv.take(i + 1).drop_last() =~= lv.take(i as int));
            assert(lv.take(i + 1).last() == lines@[i as int]@);
        }
        if is_match(INFO_TRACK_RE, lines[i].as_str()) {
            n = n + 1;
        }
        i = i + 1;
    }
    proof {
        assert(lv.take(lines@.len() as int) =~= lv);
    }
    n
}

/// Of several info files, the one with the most track lines (the last of
/// equally many); the only one when there is one; none when there is none.
pub fn pick_info_file(line_counts: &Vec<usize>) -> (r: Option<usize>)
    ensures
        line_counts@.len() == 0 <==> r is None,
        r matches Some(i) ==> i < line_counts@.len()
            && (forall|j: int| 0 <= j < line_counts@.len() ==> line_counts@[j] <= line_counts@[i as int])
            && (forall|j: int| i < j < line_counts@.len() ==> line_counts@[j] < line_counts@[i as int]),
{
    if line_counts.len() == 0 {
        return None;
    }
    let mut best: usize = 0;
    let mut i: usize = 1;
    while i < line_counts.len()
        invariant
            1 <= i <= line_counts@.len(),
            best < i,
            forall|j: int| 0 <= j < i ==> line_counts@[j] <= line_counts@[best as int],
            forall|j: int| best < j < i ==> line_counts@[j] < line_counts@[best as int],
        decreases line_counts@.len() - i,
    {
        if line_counts[i] >= line_counts[best] {
            best = i;
        }
        i = i + 1;
    }
    Some(best)
}

// ---- Applying titles ----------------------------------------------------------

/// The source a track id has, `Filename` when none is recorded.
pub open spec fn source_of(m: Map<i64, TitleSource>, id: i64) -> TitleSource {
    if m.contains_key(id) { m[id] } else { TitleSource::Filename }
}

/// Titles and sources after one title is offered to the track at `idx`:
/// taken only when not empty and when the track's source ranks below
/// `source`.
pub open spec fn offer(st: (Seq<Seq<char>>, Map<i64, TitleSource>), ids: Seq<i64>, idx: int, title: Seq<char>, source: TitleSource) -> (Seq<Seq<char>>, Map<i64, TitleSource>) {
    if source_rank(source_of(st.1, ids[idx])) >= source_rank(source) || title.len() == 0 {
        st
    } else {
        (st.0.update(idx, title), st.1.insert(ids[idx], source))
    }
}

/// Titles and sources after the first `k` titles are offered to the tracks
/// in the order `order`.
pub open spec fn offer_all(
    st0: (Seq<Seq<char>>, Map<i64, TitleSource>),
    ids: Seq<i64>,
    order: Seq<usize>,
    titles: Seq<Seq<char>>,
    source: TitleSource,
    k: nat,
) -> (Seq<Seq<char>>, Map<i64, TitleSource>)
    decreases k,
{
    if k == 0 {
        st0
    } else {
        offer(offer_all(st0, ids, order, titles, source, (k - 1) as nat), ids, order[k - 1] as int, titles[k - 1], source)
    }
}

pub open spec fn track_ids(t: Seq<Track>) -> Seq<i64> {
    t.map_values(|x: Track| x.track_id)
}

pub open spec fn title_views(t: Seq<Track>) -> Seq<Seq<char>> {
    t.map_values(|x: Track| x.song_title@)
}

/// The sort keys of tracks: disc, then track number.
pub open spec fn track_keys(t: Seq<Track>) -> Seq<(i64, i64)> {
    t.map_values(|x: Track| (x.disc_num, x.track_num))
}

/// Two tracks that differ at most in their title.
pub open spec fn same_but_title(a: Track, b: Track) -> bool {
    &&& a.track_id == b.track_id
    &&& a.song_id == b.song_id
    &&& a.track_num == b.track_num
    &&& a.disc_num == b.disc_num
    &&& a.set_num == b.set_num
    &&& a.duration_seconds == b.duration_seconds
    &&& a.duration_display == b.duration_display
}

/// Two shows that differ at most in the titles of their tracks.
pub open spec fn same_show_but_titles(a: Show, b: Show) -> bool {
    &&& a.tracks@.len() == b.tracks@.len()
    &&& forall|i: int| 0 <= i < a.tracks@.len() ==> same_but_title(#[trigger] a.tracks@[i], b.tracks@[i])
    &&& a.container_id == b.container_id
    &&& a.artist_name == b.artist_name
    &&& a.container_info == b.container_info
    &&& a.venue_name == b.venue_name
    &&& a.venue_city == b.venue_city
    &&& a.venue_state == b.venue_state
    &&& a.performance_date == b.performance_date
    &&& a.performance_date_formatted == b.performance_date_formatted
    &&& a.performance_date_year == b.performance_date_year
    &&& a.artist_id == b.artist_id
    &&& a.total_duration_seconds == b.total_duration_seconds
    &&& a.total_duration_display == b.total_duration_display
    &&& a.image_url == b.image_url
}

pub open spec fn min_len(a: nat, b: nat) -> nat {
    if a < b { a } else { b }
}

/// Apply titles to tracks by position, the tracks taken by (disc, track
/// number) with ties in list order: the title at position `k` is offered
/// to the `k`-th track; it is taken when not empty and when the track's
/// source ranks below `source`, which then becomes its source.
pub fn apply_titles_by_position(show: &mut Show, sources: &mut HashMap<i64, TitleSource>, titles: &Vec<String>, source: TitleSource)
    ensures
        same_show_but_titles(*final(show), *old(show)),
        exists|p: Seq<usize>| {
            &&& is_stable_num_order(track_keys(old(show).tracks@), p)
            &&& (title_views(final(show).tracks@), final(sources)@) == offer_all(
                (title_views(old(show).tracks@), old(sources)@),
                track_ids(old(show).tracks@),
                p,
                titles@.map_values(|t: String| t@),
                source,
                min_len(p.len(), titles@.len()),
            )
        },
{
    let ghost t0 = show.tracks@;
    let ghost ids = track_ids(t0);
    let ghost tv = titles@.map_values(|t: String| t@);
    let ghost s0 = *show;
    let mut keys: Vec<(i64, i64)> = Vec::new();
    let mut j: usize = 0;
    while j < show.tracks.len()
        invariant
            j <= show.tracks@.len(),
            show.tracks@ == t0,
            keys@ == track_keys(t0).take(j as int),
        decreases show.tracks@.len() - j,
    {
        keys.push((show.tracks[j].disc_num, show.tracks[j].track_num));
        proof {
            assert(track_keys(t0).take(j + 1) =~= track_keys(t0).take(j as int).push((t0[j as int].disc_num, t0[j as int].track_num)));
        }
        j = j + 1;
    }
    proof {
        assert(track_keys(t0).take(t0.len() as int) =~= track_keys(t0));
    }
    let p = stable_order_by_nums(&keys);
    let n = if p.len() < titles.len() { p.len() } else { titles.len() };
    let mut pos: usize = 0;
    while pos < n
        invariant
            n == min_len(p@.len(), titles@.len()),
            p@.len() == t0.len(),
            forall|q: int| 0 <= q < p@.len() ==> #[trigger] p@[q] < t0.len(),
            pos <= n,
            tv == titles@.map_values(|t: String| t@),
            ids == track_ids(t0),
            same_show_but_titles(*show, s0),
            s0.tracks@ == t0,
            (title_views(show.tracks@), sources@) == offer_all((title_views(t0), old(sources)@), ids, p@, tv, source, pos as nat),
        decreases n - pos,
    {
        let idx = p[pos];
        proof {
            assert(idx < t0.len());
            assert(show.tracks@[idx as int].track_id == t0[idx as int].track_id);
        }
        let id = show.tracks[idx].track_id;
        let cur = match sources.get(&id) {
            Some(s) => *s,
            None => TitleSource::Filename,
        };
        let ghost st = (title_views(show.tracks@), sources@);
        if cur.rank() < source.rank() && !titles[pos].as_str().is_empty() {
            let mut t = show.tracks[idx].duplicate();
            t.song_title = titles[pos].clone();
            show.tracks.set(idx, t);
            sources.insert(id, source);
            proof {
                assert(title_views(show.tracks@) =~= st.0.update(idx as int, tv[pos as int]));
            }
        }
        pos = pos + 1;
    }
}

// ---- Fallback -----------------------------------------------------------------

/// `{:02}` of a number: at least two digits, a minus sign before a negative
/// number.
pub open spec fn fmt_i64_02(n: i64) -> Seq<char> {
    if n < 0 { seq!['-'] + fmt_dec((-(n as int)) as nat) } else { fmt_dec2(n as nat) }
}

/// The title of an untitled track: "Track NN".
pub open spec fn fallback_title(track_num: i64) -> Seq<char> {
    "Track "@ + fmt_i64_02(track_num)
}

/// Some track with id `id` has no title.
pub open spec fn untitled_id(t: Seq<Track>, id: i64) -> bool {
    exists|i: int| 0 <= i < t.len() && (#[trigger] t[i]).track_id == id && t[i].song_title@.len() == 0
}

/// The fallback title of a track number.
fn fallback_title_of(track_num: i64) -> (r: String)
    ensures
        r@ == fallback_title(track_num),
{
    proof {
        reveal_strlit("Track ");
    }
    let mut r = owned("Track ");
    if track_num < 0 {
        let mag: u64 = if track_num == i64::MIN { 9223372036854775808u64 } else { (-track_num) as u64 };
        push_str(&mut r, "-");
        proof {
            reveal_strlit("-");
        }
        let d = dec_chars(mag);
        push_chars(&mut r, d.as_slice());
        proof {
            assert(r@ =~= "Track "@ + (seq!['-'] + fmt_dec((-(track_num as int)) as nat)));
        }
    } else {
        let d = dec2_chars(track_num as u64);
        push_chars(&mut r, d.as_slice());
    }
    r
}

/// Give every untitled track the title "Track NN" and the fallback source.
pub fn apply_fallback(show: &mut Show, sources: &mut HashMap<i64, TitleSource>)
    ensures
        same_show_but_titles(*final(show), *old(show)),
        forall|i: int| 0 <= i < old(show).tracks@.len() ==> (#[trigger] final(show).tracks@[i]).song_title@ == (
            if old(show).tracks@[i].song_title@.len() == 0 { fallback_title(old(show).tracks@[i].track_num) } else { old(show).tracks@[i].song_title@ }),
        forall|id: i64| #[trigger] final(sources)@.contains_key(id) <==> old(sources)@.contains_key(id) || untitled_id(old(show).tracks@, id),
        forall|id: i64| #[trigger] final(sources)@.contains_key(id) ==> final(sources)@[id] == (
            if untitled_id(old(show).tracks@, id) { TitleSource::Fallback } else { old(sources)@[id] }),
{
    let ghost t0 = show.tracks@;
    let ghost s0 = *show;
    let ghost m0 = sources@;
    let mut i: usize = 0;
    while i < show.tracks.len()
        invariant
            i <= show.tracks@.len(),
            s0.tracks@ == t0,
            same_show_but_titles(*show, s0),
            forall|q: int| 0 <= q < t0.len() ==> (#[trigger] show.tracks@[q]).song_title@ == (
                if q < i && t0[q].song_title@.len() == 0 { fallback_title(t0[q].track_num) } else { t0[q].song_title@ }),
            forall|id: i64| #[trigger] sources@.contains_key(id) <==> m0.contains_key(id) || untitled_id(t0.take(i as int), id),
            forall|id: i64| #[trigger] sources@.contains_key(id) ==> sources@[id] == (
                if untitled_id(t0.take(i as int), id) { TitleSource::Fallback } else { m0[id] }),
        decreases show.tracks@.len() - i,
    {
        proof {
            assert forall|id: i64| untitled_id(t0.take(i + 1), id) <==> untitled_id(t0.take(i as int), id)
                || (t0[i as int].track_id == id && t0[i as int].song_title@.len() == 0) by {
                if untitled_id(t0.take(i + 1), id) {
                    let k = choose|k: int| 0 <= k < t0.take(i + 1).len() && (#[trigger] t0.take(i + 1)[k]).track_id == id
                        && t0.take(i + 1)[k].song_title@.len() == 0;
                    if k < i {
                        assert(t0.take(i as int)[k] == t0[k]);
                    }
                }
                if untitled_id(t0.take(i as int), id) {
                    let k = choose|k: int| 0 <= k < t0.take(i as int).len() && (#[trigger] t0.take(i as int)[k]).track_id == id
                        && t0.take(i as int)[k].song_title@.len() == 0;
                    assert(t0.take(i + 1)[k] == t0[k]);
                }
                if t0[i as int].track_id == id && t0[i as int].song_title@.len() == 0 {
                    assert(t0.take(i + 1)[i as int] == t0[i as int]);
                }
            }
            assert(show.tracks@[i as int].song_title@ == t0[i as int].song_title@);
        }
        if show.tracks[i].song_title.as_str().is_empty() {
            let id = show.tracks[i].track_id;
            let mut t = show.tracks[i].duplicate();
            t.song_title = fallback_title_of(t.track_num);
            show.tracks.set(i, t);
            sources.insert(id, TitleSource::Fallback);
        }
        i = i + 1;
    }
    proof {
        assert(t0.take(t0.len() as int) =~= t0);
    }
}

/// Every track starts out with the file name as its title source.
pub fn initial_sources(show: &Show) -> (r: HashMap<i64, TitleSource>)
    ensures
        forall|id: i64| #[trigger] r@.contains_key(id) <==> track_ids(show.tracks@).contains(id),
        forall|id: i64| #[trigger] r@.contains_key(id) ==> r@[id] == TitleSource::Filename,
{
    let mut m: HashMap<i64, TitleSource> = HashMap::new();
    let mut i: usize = 0;
    while i < show.tracks.len()
        invariant
            i <= show.tracks@.len(),
            forall|id: i64| #[trigger] m@.contains_key(id) <==> track_ids(show.tracks@).take(i as int).contains(id),
            forall|id: i64| #[trigger] m@.contains_key(id) ==> m@[id] == TitleSource::Filename,
        decreases show.tracks@.len() - i,
    {
        m.insert(show.tracks[i].track_id, TitleSource::Filename);
        proof {
            let ids = track_ids(show.tracks@);
            assert(ids.take(i + 1) =~= ids.take(i as int).push(ids[i as int]));
            assert forall|id: i64| ids.take(i + 1).contains(id) <==> ids.take(i as int).contains(id) || id == ids[i as int] by {
                if ids.take(i + 1).contains(id) {
                    let k = choose|k: int| 0 <= k < ids.take(i + 1).len() && #[trigger] ids.take(i + 1)[k] == id;
                    if k < i {
                        assert(ids.take(i as int)[k] == id);
                    }
                }
                if ids.take(i as int).contains(id) {
                    let k = choose|k: int| 0 <= k < ids.take(i as int).len() && #[trigger] ids.take(i as int)[k] == id;
                    assert(ids.take(i + 1)[k] == id);
                }
                if id == ids[i as int] {
                    assert(ids.take(i + 1)[i as int] == id);
                }
            }
        }
        i = i + 1;
    }
    proof {
        assert(track_ids(show.tracks@).take(show.tracks@.len() as int) =~= track_ids(show.tracks@));
    }
    m
}

// ---- Laws ---------------------------------------------------------------------

/// Offering titles never lowers the source of any track id.
pub proof fn law_offer_never_lowers_source(
    st0: (Seq<Seq<char>>, Map<i64, TitleSource>),
    ids: Seq<i64>,
    order: Seq<usize>,
    titles: Seq<Seq<char>>,
    source: TitleSource,
    k: nat,
    id: i64,
)
    ensures
        source_rank(source_of(offer_all(st0, ids, order, titles, source, k).1, id)) >= source_rank(source_of(st0.1, id)),
    decreases k,
{
    if k > 0 {
        law_offer_never_lowers_source(st0, ids, order, titles, source, (k - 1) as nat, id);
    }
}

/// A title offered with a source never replaces the title of a track
/// whose source ranked as high or higher: a track's title changes only
/// when its source ranked below the offered one, and it then holds one of
/// the offered titles.
pub proof fn law_offer_respects_rank(
    st0: (Seq<Seq<char>>, Map<i64, TitleSource>),
    ids: Seq<i64>,
    order: Seq<usize>,
    titles: Seq<Seq<char>>,
    source: TitleSource,
    k: nat,
    i: int,
)
    requires
        0 <= i < st0.0.len(),
        st0.0.len() == ids.len(),
        k <= order.len(),
        k <= titles.len(),
        forall|q: int| 0 <= q < order.len() ==> #[trigger] order[q] < ids.len(),
    ensures
        offer_all(st0, ids, order, titles, source, k).0.len() == st0.0.len(),
        offer_all(st0, ids, order, titles, source, k).0[i] != st0.0[i] ==> {
            &&& source_rank(source_of(st0.1, ids[i])) < source_rank(source)
            &&& exists|q: int| 0 <= q < k && order[q] == i && titles[q] == offer_all(st0, ids, order, titles, source, k).0[i]
        },
    decreases k,
{
    if k > 0 {
        let km = (k - 1) as nat;
        law_offer_respects_rank(st0, ids, order, titles, source, km, i);
        law_offer_never_lowers_source(st0, ids, order, titles, source, km, ids[i]);
        let prev = offer_all(st0, ids, order, titles, source, km);
        let cur = offer_all(st0, ids, order, titles, source, k);
        if cur.0[i] != st0.0[i] {
            if cur.0[i] != prev.0[i] {
                assert(order[km as int] == i);
            } else {
                let q = choose|q: int| 0 <= q < km && order[q] == i && titles[q] == prev.0[i];
                assert(0 <= q < k && order[q] == i && titles[q] == cur.0[i]);
            }
        }
    }
}

/// After the fallback no track is left without a title.
pub proof fn law_fallback_titles_every_track(n: i64)
    ensures
        fallback_title(n).len() > 0,
{
}

} // verus!
