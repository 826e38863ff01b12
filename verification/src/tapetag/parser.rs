//! Parsing of local show folder names into date and artist.
use vstd::prelude::*;
use vstd::utf8::encode_utf8;
use crate::pattern::{captured, captures, group_text, is_match, regex_matches, regex_replace_first, replace_first, Group};
use crate::text::{
    chars_of, dec2_chars, fmt_dec2, lowercase, owned, pad_left, parse_u32, parse_u32_chars,
    push_chars, push_str, repeat, str_eq, to_lowercase, trim, trim_str,
};
use crate::bman::parser::{
    ARTIST_DASH_PREFIX_RE, ARTIST_PREFIX_RE, BARE_DATE_RE, BARE_US_DATE_RE, DOT_DATE_RE,
    DRIVE_ZIP_SUFFIX_RE, ETREE_ARTIST_RE, ETREE_RE, JGB_RE, NICE_DATE_RE, NICE_ETREE_HYBRID_RE,
    US_DATE_RE, VOLUME_PREFIX_RE,
};

verus! {

broadcast use vstd::string::group_string_axioms;

/// Parsed result from a show folder name.
#[derive(Debug, Clone)]
pub struct FolderInfo {
    pub date: String,
    pub artist: String,
}

pub struct FolderInfoV {
    pub date: Seq<char>,
    pub artist: Seq<char>,
}

pub open spec fn info_view(i: Option<FolderInfo>) -> Option<FolderInfoV> {
    match i {
        Some(i) => Some(FolderInfoV { date: i.date@, artist: i.artist@ }),
        None => None,
    }
}

pub open spec fn gd_name() -> Seq<char> {
    "Grateful Dead"@
}

pub open spec fn jgb_name() -> Seq<char> {
    "Jerry Garcia Band"@
}

/// Artist named by the folder name.
pub open spec fn spec_resolve_artist(name: Seq<char>) -> Seq<char> {
    if regex_matches(JGB_RE@, name) { jgb_name() } else { gd_name() }
}

/// Artist of an etree prefix (`gd`, `jgb`, `jg`).
pub open spec fn spec_resolve_artist_etree(name: Seq<char>) -> Seq<char> {
    match group_text(ETREE_ARTIST_RE@, name, 1) {
        Some(p) => if lowercase(p) == "jgb"@ || lowercase(p) == "jg"@ { jgb_name() } else { gd_name() },
        None => gd_name(),
    }
}

/// A 4-byte year unchanged; otherwise its number, 60 and up in the 1900s,
/// below 60 in the 2000s.
pub open spec fn spec_expand_year(year: Seq<char>) -> Seq<char> {
    if encode_utf8(year).len() as usize == 4 {
        year
    } else {
        let y: nat = match parse_u32(year) {
            Some(v) => v as nat,
            None => 0,
        };
        if y >= 60 { "19"@ + fmt_dec2(y) } else { "20"@ + fmt_dec2(y) }
    }
}

/// Group `i` of `pattern` in `c`, or empty.
pub open spec fn group_or_empty(pattern: Seq<char>, c: Seq<char>, i: int) -> Seq<char> {
    match group_text(pattern, c, i) {
        Some(t) => t,
        None => Seq::<char>::empty(),
    }
}

pub open spec fn ymd(pattern: Seq<char>, c: Seq<char>) -> Seq<char> {
    group_or_empty(pattern, c, 1) + "-"@ + group_or_empty(pattern, c, 2) + "-"@ + group_or_empty(pattern, c, 3)
}

/// US date `M-D-YY`: year expanded, month and day zero-padded to 2.
pub open spec fn us_ymd(pattern: Seq<char>, c: Seq<char>) -> Seq<char> {
    spec_expand_year(group_or_empty(pattern, c, 3)) + "-"@ + pad_left(group_or_empty(pattern, c, 1), '0', 2) + "-"@
        + pad_left(group_or_empty(pattern, c, 2), '0', 2)
}

/// The first date form that matches `candidate`; the artist comes from
/// the whole folder name (from the etree prefix for etree names).
pub open spec fn spec_try_parse(c: Seq<char>, original: Seq<char>) -> Option<FolderInfoV> {
    if regex_matches(NICE_DATE_RE@, c) {
        Some(FolderInfoV { date: group_or_empty(NICE_DATE_RE@, c, 1), artist: spec_resolve_artist(original) })
    } else if regex_matches(NICE_ETREE_HYBRID_RE@, c) {
        Some(FolderInfoV { date: group_or_empty(NICE_ETREE_HYBRID_RE@, c, 1), artist: spec_resolve_artist(original) })
    } else if regex_matches(DOT_DATE_RE@, c) {
        Some(FolderInfoV { date: ymd(DOT_DATE_RE@, c), artist: spec_resolve_artist(original) })
    } else if regex_matches(ETREE_RE@, c) {
        Some(
            FolderInfoV {
                date: spec_expand_year(group_or_empty(ETREE_RE@, c, 1)) + "-"@ + group_or_empty(ETREE_RE@, c, 2) + "-"@
                    + group_or_empty(ETREE_RE@, c, 3),
                artist: spec_resolve_artist_etree(c),
            },
        )
    } else if regex_matches(US_DATE_RE@, c) {
        Some(FolderInfoV { date: us_ymd(US_DATE_RE@, c), artist: spec_resolve_artist(original) })
    } else if regex_matches(BARE_US_DATE_RE@, c) {
        Some(FolderInfoV { date: us_ymd(BARE_US_DATE_RE@, c), artist: spec_resolve_artist(original) })
    } else if regex_matches(BARE_DATE_RE@, c) {
        Some(FolderInfoV { date: ymd(BARE_DATE_RE@, c), artist: spec_resolve_artist(original) })
    } else {
        None
    }
}

/// Parse of a candidate after trimming; empty candidates are skipped.
pub open spec fn try_candidate(c: Seq<char>, original: Seq<char>) -> Option<FolderInfoV> {
    if trim(c).len() == 0 { None } else { spec_try_parse(trim(c), original) }
}

/// Folder name without a Drive zip suffix, trimmed; then the name itself
/// and the name without an artist-dash, volume or artist prefix are tried
/// in turn.
pub open spec fn spec_parse_folder_name(name0: Seq<char>) -> Option<FolderInfoV> {
    let name = trim(regex_replace_first(DRIVE_ZIP_SUFFIX_RE@, name0, Seq::<char>::empty()));
    let c1 = name;
    let c2 = group_or_empty(ARTIST_DASH_PREFIX_RE@, name, 1);
    let c3 = group_or_empty(VOLUME_PREFIX_RE@, name, 1);
    let c4 = group_or_empty(ARTIST_PREFIX_RE@, name, 1);
    if try_candidate(c1, name) is Some {
        try_candidate(c1, name)
    } else if try_candidate(c2, name) is Some {
        try_candidate(c2, name)
    } else if try_candidate(c3, name) is Some {
        try_candidate(c3, name)
    } else {
        try_candidate(c4, name)
    }
}

fn resolve_artist(name: &str) -> (r: String)
    ensures
        r@ == spec_resolve_artist(name@),
{
    if is_match(JGB_RE, name) { owned("Jerry Garcia Band") } else { owned("Grateful Dead") }
}

fn resolve_artist_etree(name: &str) -> (r: String)
    ensures
        r@ == spec_resolve_artist_etree(name@),
{
    match captured(ETREE_ARTIST_RE, name, 1) {
        Some(p) => {
            let l = to_lowercase(p.as_str());
            if str_eq(l.as_str(), "jgb") || str_eq(l.as_str(), "jg") {
                owned("Jerry Garcia Band")
            } else {
                owned("Grateful Dead")
            }
        },
        None => owned("Grateful Dead"),
    }
}

/// Expand a 2-digit year (>=60 → 1900s, <60 → 2000s); 4-byte years unchanged.
pub fn expand_year(year: &str) -> (r: String)
    ensures
        r@ == spec_expand_year(year@),
{
    if year.len() == 4 {
        return owned(year);
    }
    let y: u32 = match parse_u32_chars(chars_of(year).as_slice()) {
        Some(v) => v,
        None => 0,
    };
    let mut r = if y >= 60 { owned("19") } else { owned("20") };
    push_chars(&mut r, dec2_chars(y as u64).as_slice());
    r
}

fn group_or_empty_exec(pattern: &str, c: &str, i: usize) -> (r: String)
    ensures
        r@ == group_or_empty(pattern@, c@, i as int),
{
    match captured(pattern, c, i) {
        Some(t) => t,
        None => String::new(),
    }
}

fn pad2(s: &str) -> (r: String)
    ensures
        r@ == pad_left(s@, '0', 2),
{
    let cs = chars_of(s);
    if cs.len() >= 2 {
        owned(s)
    } else {
        let mut r = String::new();
        let mut k: usize = cs.len();
        while k < 2
            invariant
                cs.len() <= k <= 2,
                r@ == repeat('0', (k - cs.len()) as nat),
            decreases 2 - k,
        {
            crate::text::push(&mut r, '0');
            proof {
                assert(r@ =~= repeat('0', (k + 1 - cs.len()) as nat));
            }
            k = k + 1;
        }
        push_str(&mut r, s);
        r
    }
}

fn ymd_exec(pattern: &str, c: &str) -> (r: String)
    ensures
        r@ == ymd(pattern@, c@),
{
    let mut r = group_or_empty_exec(pattern, c, 1);
    push_str(&mut r, "-");
    push_str(&mut r, group_or_empty_exec(pattern, c, 2).as_str());
    push_str(&mut r, "-");
    push_str(&mut r, group_or_empty_exec(pattern, c, 3).as_str());
    r
}

fn us_ymd_exec(pattern: &str, c: &str) -> (r: String)
    ensures
        r@ == us_ymd(pattern@, c@),
{
    let mut r = expand_year(group_or_empty_exec(pattern, c, 3).as_str());
    push_str(&mut r, "-");
    push_str(&mut r, pad2(group_or_empty_exec(pattern, c, 1).as_str()).as_str());
    push_str(&mut r, "-");
    push_str(&mut r, pad2(group_or_empty_exec(pattern, c, 2).as_str()).as_str());
    r
}

/// Parse a candidate name (the artist from `original`).
pub fn try_parse(candidate: &str, original: &str) -> (r: Option<FolderInfo>)
    ensures
        info_view(r) == spec_try_parse(candidate@, original@),
{
    if is_match(NICE_DATE_RE, candidate) {
        return Some(FolderInfo { date: group_or_empty_exec(NICE_DATE_RE, candidate, 1), artist: resolve_artist(original) });
    }
    if is_match(NICE_ETREE_HYBRID_RE, candidate) {
        return Some(
            FolderInfo { date: group_or_empty_exec(NICE_ETREE_HYBRID_RE, candidate, 1), artist: resolve_artist(original) },
        );
    }
    if is_match(DOT_DATE_RE, candidate) {
        return Some(FolderInfo { date: ymd_exec(DOT_DATE_RE, candidate), artist: resolve_artist(original) });
    }
    if is_match(ETREE_RE, candidate) {
        let mut date = expand_year(group_or_empty_exec(ETREE_RE, candidate, 1).as_str());
        push_str(&mut date, "-");
        push_str(&mut date, group_or_empty_exec(ETREE_RE, candidate, 2).as_str());
        push_str(&mut date, "-");
        push_str(&mut date, group_or_empty_exec(ETREE_RE, candidate, 3).as_str());
        return Some(FolderInfo { date, artist: resolve_artist_etree(candidate) });
    }
    if is_match(US_DATE_RE, candidate) {
        return Some(FolderInfo { date: us_ymd_exec(US_DATE_RE, candidate), artist: resolve_artist(original) });
    }
    if is_match(BARE_US_DATE_RE, candidate) {
        return Some(FolderInfo { date: us_ymd_exec(BARE_US_DATE_RE, candidate), artist: resolve_artist(original) });
    }
    if is_match(BARE_DATE_RE, candidate) {
        return Some(FolderInfo { date: ymd_exec(BARE_DATE_RE, candidate), artist: resolve_artist(original) });
    }
    None
}

fn try_candidate_exec(c: &str, original: &str) -> (r: Option<FolderInfo>)
    ensures
        info_view(r) == try_candidate(c@, original@),
{
    let t = trim_str(c);
    if t.as_str().is_empty() {
        return None;
    }
    try_parse(t.as_str(), original)
}

/// Group 1 of the artist-dash prefix, or empty.
pub fn strip_artist_dash_prefix(name: &str) -> (r: String)
    ensures
        r@ == group_or_empty(ARTIST_DASH_PREFIX_RE@, name@, 1),
{
    group_or_empty_exec(ARTIST_DASH_PREFIX_RE, name, 1)
}

/// Group 1 of the volume prefix, or empty.
pub fn strip_volume_prefix(name: &str) -> (r: String)
    ensures
        r@ == group_or_empty(VOLUME_PREFIX_RE@, name@, 1),
{
    group_or_empty_exec(VOLUME_PREFIX_RE, name, 1)
}

/// Group 1 of the artist prefix, or empty.
pub fn strip_artist_prefix(name: &str) -> (r: String)
    ensures
        r@ == group_or_empty(ARTIST_PREFIX_RE@, name@, 1),
{
    group_or_empty_exec(ARTIST_PREFIX_RE, name, 1)
}

/// Parse a show folder name into date + artist.
/// Returns None if no date pattern matches.
pub fn parse_folder_name(name: &str) -> (r: Option<FolderInfo>)
    ensures
        info_view(r) == spec_parse_folder_name(name@),
{
    let stripped = replace_first(DRIVE_ZIP_SUFFIX_RE, name, "");
    proof {
        reveal_strlit("");
        assert(""@ =~= Seq::<char>::empty());
    }
    let name = trim_str(stripped.as_str());
    let c2 = strip_artist_dash_prefix(name.as_str());
    let c3 = strip_volume_prefix(name.as_str());
    let c4 = strip_artist_prefix(name.as_str());
    let r = try_candidate_exec(name.as_str(), name.as_str());
    if r.is_some() {
        return r;
    }
    let r = try_candidate_exec(c2.as_str(), name.as_str());
    if r.is_some() {
        return r;
    }
    let r = try_candidate_exec(c3.as_str(), name.as_str());
    if r.is_some() {
        return r;
    }
    try_candidate_exec(c4.as_str(), name.as_str())
}

/// Every date form but the etree one takes the artist from the whole
/// folder name: Jerry Garcia Band when that name mentions Jerry Garcia or
/// JGB, else Grateful Dead, whatever part of the name held the date.
pub proof fn law_artist_from_whole_name(c: Seq<char>, original: Seq<char>)
    ensures
        (regex_matches(NICE_DATE_RE@, c) || regex_matches(NICE_ETREE_HYBRID_RE@, c) || regex_matches(DOT_DATE_RE@, c)
            || !regex_matches(ETREE_RE@, c)) ==> (spec_try_parse(c, original) matches Some(v) ==> v.artist == (if regex_matches(
            JGB_RE@,
            original,
        ) {
            "Jerry Garcia Band"@
        } else {
            "Grateful Dead"@
        })),
{
}

} // verus!
