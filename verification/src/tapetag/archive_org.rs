//! archive.org helpers: collections, audio file names, track numbers,
//! titles and cache keys.
use vstd::prelude::*;
use vstd::string::StringSliceAdditionalSpecFns;
use vstd::utf8::{encode_utf8, is_char_boundary};
use crate::text::{
    alphanumeric, chars_of, contains_seq, is_alphanumeric, is_control, is_control_char, is_suffix,
    lowercase, owned, parse_u32, parse_u32_str, str_contains, str_ends_with, str_eq, string_of,
    to_lowercase, trim, trim_str,
};

verus! {

broadcast use vstd::string::group_string_axioms;

/// An archive.org recording (search result).
#[derive(Debug, Clone)]
pub struct ArchiveRecording {
    pub identifier: String,
    pub title: String,
    pub date: String,
    pub source: Option<String>,
    pub taper: Option<String>,
    pub venue: Option<String>,
    pub coverage: Option<String>,
}

/// The archive.org collection of an artist.
pub open spec fn spec_artist_collection(artist: Seq<char>) -> Seq<char> {
    if contains_seq(artist, "Garcia"@) || contains_seq(artist, "JGB"@) || contains_seq(artist, "jgb"@) {
        "JerryGarcia"@
    } else {
        "GratefulDead"@
    }
}

/// The archive.org collection of an artist.
pub fn artist_collection(artist: &str) -> (r: &'static str)
    ensures
        r@ == spec_artist_collection(artist@),
{
    if str_contains(artist, "Garcia") || str_contains(artist, "JGB") || str_contains(artist, "jgb") {
        "JerryGarcia"
    } else {
        "GratefulDead"
    }
}

/// An audio file (.flac, .shn, .mp3, .ogg, any case) of the original
/// source, or of any source when none is given.
pub open spec fn spec_is_audio_file(name: Seq<char>, source: Option<Seq<char>>) -> bool {
    let lower = lowercase(name);
    let audio = is_suffix(".flac"@, lower) || is_suffix(".shn"@, lower) || is_suffix(".mp3"@, lower)
        || is_suffix(".ogg"@, lower);
    audio && match source {
        Some(s) => s == "original"@,
        None => true,
    }
}

/// Whether an archive.org file is an audio file to use.
pub fn is_audio_file(name: &str, source: Option<&str>) -> (r: bool)
    ensures
        r == spec_is_audio_file(name@, match source { Some(s) => Some(s@), None => None }),
{
    let lower = to_lowercase(name);
    let l = lower.as_str();
    let is_audio = str_ends_with(l, ".flac") || str_ends_with(l, ".shn") || str_ends_with(l, ".mp3")
        || str_ends_with(l, ".ogg");
    if !is_audio {
        return false;
    }
    match source {
        Some(s) => str_eq(s, "original"),
        None => true,
    }
}

/// Text before the first '/' (all of it when there is none).
pub open spec fn before_slash(s: Seq<char>) -> Seq<char> {
    if s.contains('/') {
        s.take(choose|i: int| 0 <= i < s.len() && s[i] == '/' && forall|j: int| 0 <= j < i ==> s[j] != '/')
    } else {
        s
    }
}

/// Track number of "N" or "N/M": N when it parses, else 0.
pub open spec fn spec_parse_track_num(track: Seq<char>) -> u32 {
    match parse_u32(trim(before_slash(track))) {
        Some(n) => n,
        None => 0,
    }
}

/// Parse an archive.org track field ("2" or "02/23").
pub fn parse_track_num(track: &str) -> (r: u32)
    ensures
        r == spec_parse_track_num(track@),
{
    let cs = chars_of(track);
    let mut i: usize = 0;
    while i < cs.len() && cs[i] != '/'
        invariant
            cs@ == track@,
            i <= cs@.len(),
            forall|j: int| 0 <= j < i ==> cs@[j] != '/',
        decreases cs@.len() - i,
    {
        i = i + 1;
    }
    proof {
        if i < cs@.len() {
            assert(track@.contains('/'));
            let c = choose|k: int| 0 <= k < track@.len() && track@[k] == '/' && forall|j: int| 0 <= j < k ==> track@[j] != '/';
            if c < i {
                assert(cs@[c] != '/');
            } else if c > i {
                assert(track@[i as int] == '/');
            }
        } else {
            assert(!track@.contains('/'));
            assert(track@.take(i as int) =~= track@);
        }
    }
    let head = string_of(crate::text::slice(cs.as_slice(), 0, i).as_slice());
    let t = trim_str(head.as_str());
    match parse_u32_str(t.as_str()) {
        Some(n) => n,
        None => 0,
    }
}

/// File stem that `std::path::Path::file_stem` gives for a path, if any.
pub uninterp spec fn path_file_stem(path: Seq<char>) -> Option<Seq<char>>;

/// Calls `std::path::Path::new(name).file_stem()`, whose result (the file
/// name without its last extension, `None` when the path has no file
/// name) depends on the path alone and is named `path_file_stem`.
#[verifier::external_body]
fn file_stem(name: &str) -> (r: Option<String>)
    ensures
        r is Some <==> path_file_stem(name@) is Some,
        r matches Some(t) ==> path_file_stem(name@) == Some(t@),
{
    std::path::Path::new(name).file_stem().and_then(|s| s.to_str()).map(|s| s.to_string())
}

/// The file name without its extension (the name itself when it has no
/// file name).
pub fn stem_from_filename(name: &str) -> (r: String)
    ensures
        r@ == match path_file_stem(name@) {
            Some(t) => t,
            None => name@,
        },
{
    match file_stem(name) {
        Some(t) => t,
        None => owned(name),
    }
}

/// A title without control characters.
pub open spec fn without_controls(t: Seq<char>) -> Seq<char> {
    t.filter(|c: char| !is_control(c))
}

/// A title without control characters, cut to its first 200 bytes (by
/// `str::len`, which counts bytes as a `usize`).
pub open spec fn spec_sanitize_title_bytes(t: Seq<char>) -> Seq<u8> {
    let b = encode_utf8(without_controls(t));
    if (b.len() as usize) > 200 { b.subrange(0, 200) } else { b }
}

/// Remove control characters from a title and cut it to 200 bytes (the
/// cut must fall between characters).
pub fn sanitize_title(title: String) -> (r: String)
    requires
        (encode_utf8(without_controls(title@)).len() as usize) > 200 ==> is_char_boundary(encode_utf8(without_controls(title@)), 200),
    ensures
        encode_utf8(r@) == spec_sanitize_title_bytes(title@),
{
    let cs = chars_of(title.as_str());
    let ghost f = |c: char| !is_control(c);
    let mut kept: Vec<char> = Vec::new();
    let mut i: usize = 0;
    while i < cs.len()
        invariant
            cs@ == title@,
            i <= cs@.len(),
            kept@ == title@.take(i as int).filter(f),
            f == (|c: char| !is_control(c)),
        decreases cs@.len() - i,
    {
        proof {
            assert(title@.take(i + 1) =~= title@.take(i as int).push(title@[i as int]));
            title@.take(i as int).lemma_filter_push(title@[i as int], f);
        }
        if !is_control_char(cs[i]) {
            kept.push(cs[i]);
        }
        i = i + 1;
    }
    proof {
        assert(title@.take(title@.len() as int) =~= title@);
    }
    let cleaned = string_of(kept.as_slice());
    let s = cleaned.as_str();
    proof {
        assert(s.spec_bytes() == encode_utf8(without_controls(title@)));
    }
    if s.len() > 200 {
        let (head, _) = s.split_at(200);
        let r = owned(head);
        proof {
            assert(head.spec_bytes() == encode_utf8(head@));
        }
        r
    } else {
        cleaned
    }
}

/// Cache key characters: alphanumerics, '-' and '_' kept, others '_'.
pub open spec fn spec_sanitize_cache_key(key: Seq<char>) -> Seq<char> {
    Seq::new(key.len(), |i: int| if alphanumeric(key[i]) || key[i] == '-' || key[i] == '_' { key[i] } else { '_' })
}

/// Make a cache key safe as a file name.
pub fn sanitize_cache_key(key: &str) -> (r: String)
    ensures
        r@ == spec_sanitize_cache_key(key@),
{
    let cs = chars_of(key);
    let mut out: Vec<char> = Vec::new();
    let mut i: usize = 0;
    while i < cs.len()
        invariant
            cs@ == key@,
            i <= cs@.len(),
            out@ == spec_sanitize_cache_key(key@).take(i as int),
        decreases cs@.len() - i,
    {
        let c = cs[i];
        let d = if is_alphanumeric(c) || c == '-' || c == '_' { c } else { '_' };
        out.push(d);
        proof {
            assert(out@ =~= spec_sanitize_cache_key(key@).take(i + 1));
        }
        i = i + 1;
    }
    proof {
        assert(spec_sanitize_cache_key(key@).take(key@.len() as int) =~= spec_sanitize_cache_key(key@));
    }
    string_of(out.as_slice())
}

} // verus!
