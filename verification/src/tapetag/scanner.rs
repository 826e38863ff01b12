//! How a scan of a music directory reads names: which track titles need
//! fixing, which subfolders are discs, which files are covers and audio.
use vstd::prelude::*;
use crate::pattern::{captured, group_text};
use crate::text::{
    is_prefix, is_suffix, lowercase, parse_u32, parse_u32_str, str_ends_with, str_starts_with, to_lowercase,
};

verus! {

broadcast use vstd::string::group_string_axioms;

/// A disc subfolder: `disc`, `disk`, `cd`, `set` or `d`, optional white
/// space, and the disc number (any case).
pub const DISC_SUBFOLDER_RE: &'static str = r"(?i)^(?:disc|disk|cd|set|d)\s*(\d+)$";

/// A title that still needs fixing: empty, a `Track N` placeholder, or a
/// file-name stem (`gd…`, `jgb…`, `jg…`).
pub open spec fn spec_is_bad_title(t: Seq<char>) -> bool {
    ||| t.len() == 0
    ||| is_prefix("Track "@, t)
    ||| is_prefix("track "@, t)
    ||| is_prefix("gd"@, t)
    ||| is_prefix("jgb"@, t)
    ||| is_prefix("jg"@, t)
}

/// Check if a title looks like it needs fixing.
pub fn is_bad_title(title: &str) -> (r: bool)
    ensures
        r == spec_is_bad_title(title@),
{
    proof {
        reveal_strlit("");
    }
    title.unicode_len() == 0 || str_starts_with(title, "Track ") || str_starts_with(title, "track ")
        || str_starts_with(title, "gd") || str_starts_with(title, "jgb") || str_starts_with(title, "jg")
}

/// The disc number of a subfolder name.
pub open spec fn spec_parse_disc_subfolder(name: Seq<char>) -> Option<u32> {
    match group_text(DISC_SUBFOLDER_RE@, name, 1) {
        Some(digits) => parse_u32(digits),
        None => None,
    }
}

/// The disc number of a disc subfolder (`disc 2`, `CD3`, `d1`), if it is one.
pub fn parse_disc_subfolder(name: &str) -> (r: Option<u32>)
    ensures
        r == spec_parse_disc_subfolder(name@),
{
    match captured(DISC_SUBFOLDER_RE, name, 1) {
        Some(digits) => parse_u32_str(digits.as_str()),
        None => None,
    }
}

/// A cover image by file name, in any case: `cover…` or `folder…` ending in
/// `.jpg`, `.jpeg` or `.png`.
pub open spec fn spec_is_cover_name(file_name: Seq<char>) -> bool {
    let n = lowercase(file_name);
    (is_prefix("cover"@, n) || is_prefix("folder"@, n))
        && (is_suffix(".jpg"@, n) || is_suffix(".jpeg"@, n) || is_suffix(".png"@, n))
}

/// Whether a file name is a cover image (the case-insensitive fallback of
/// the cover search).
pub fn is_cover_name(file_name: &str) -> (r: bool)
    ensures
        r == spec_is_cover_name(file_name@),
{
    let n = to_lowercase(file_name);
    let n = n.as_str();
    (str_starts_with(n, "cover") || str_starts_with(n, "folder"))
        && (str_ends_with(n, ".jpg") || str_ends_with(n, ".jpeg") || str_ends_with(n, ".png"))
}

/// An audio file by file name, in any case: `.flac` or `.m4a`.
pub open spec fn spec_is_audio_name(file_name: Seq<char>) -> bool {
    let n = lowercase(file_name);
    is_suffix(".flac"@, n) || is_suffix(".m4a"@, n)
}

/// Whether a file name is an audio file the scan reads.
pub fn is_audio_name(file_name: &str) -> (r: bool)
    ensures
        r == spec_is_audio_name(file_name@),
{
    let n = to_lowercase(file_name);
    str_ends_with(n.as_str(), ".flac") || str_ends_with(n.as_str(), ".m4a")
}

} // verus!
