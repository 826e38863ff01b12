//! Downloading a playlist track by track: what to do with each track, and
//! the counts of the run.
use vstd::prelude::*;
use crate::text::{contains_seq, owned, str_contains, str_eq};

verus! {

broadcast use vstd::string::group_string_axioms;

/// Counts of a playlist download so far.
#[derive(Debug, Clone, Copy, PartialEq, Eq, Structural)]
pub struct PlaylistCounts {
    pub downloaded: usize,
    pub skipped: usize,
    pub failed: usize,
}

/// What is known of a track before it is downloaded.
pub enum TrackEvent {
    /// No stream URL could be resolved.
    NoStreamUrl,
    /// The stream URL and the quality code it has (`flac`, `aac`, `hls`…),
    /// whether the final file is already there (the run's skip rule), and
    /// whether the downloaded file is there waiting for conversion.
    Resolved { url: String, quality_code: String, already_done: bool, download_exists: bool },
    /// The download of the track ended: well or not.
    Downloaded { ok: bool },
}

/// What to do with a track.
#[derive(Debug, Clone, Copy, PartialEq, Eq, Structural)]
pub enum TrackAction {
    /// Nothing more: go on with the next track.
    Next,
    /// Convert the file already downloaded, then go on.
    ResumeConversion,
    /// Download the track (and convert it when asked), then report how it
    /// ended.
    Download { convert: bool },
}

/// The codec to convert AAC tracks to: none without ffmpeg.
pub open spec fn spec_effective_codec(codec: Seq<char>, ffmpeg_found: bool) -> Seq<char> {
    if codec != "none"@ && !ffmpeg_found { "none"@ } else { codec }
}

/// The codec to convert AAC tracks to: `none` when ffmpeg is missing.
pub fn effective_codec(codec: &str, ffmpeg_found: bool) -> (r: String)
    ensures
        r@ == spec_effective_codec(codec@, ffmpeg_found),
{
    if !str_eq(codec, "none") && !ffmpeg_found {
        owned("none")
    } else {
        owned(codec)
    }
}

/// An HLS stream, which is not downloaded.
pub open spec fn is_hls(url: Seq<char>, quality_code: Seq<char>) -> bool {
    quality_code == "hls"@ || contains_seq(url, ".m3u8"@)
}

/// The next counts and action after an event of a track: a track without
/// a URL fails; an HLS stream or an already downloaded track is skipped; a
/// downloaded AAC file waiting for conversion is converted and counted; any
/// other track is downloaded, converted when a codec is set and it is AAC;
/// a download counts as downloaded or failed.
pub open spec fn spec_playlist_track_step(c: PlaylistCounts, event: TrackEvent, codec: Seq<char>) -> (PlaylistCounts, TrackAction) {
    match event {
        TrackEvent::NoStreamUrl => (PlaylistCounts { failed: (c.failed + 1) as usize, ..c }, TrackAction::Next),
        TrackEvent::Resolved { url, quality_code, already_done, download_exists } => {
            let convert = codec != "none"@ && quality_code@ == "aac"@;
            if is_hls(url@, quality_code@) || already_done {
                (PlaylistCounts { skipped: (c.skipped + 1) as usize, ..c }, TrackAction::Next)
            } else if convert && download_exists {
                (PlaylistCounts { downloaded: (c.downloaded + 1) as usize, ..c }, TrackAction::ResumeConversion)
            } else {
                (c, TrackAction::Download { convert })
            }
        },
        TrackEvent::Downloaded { ok } => if ok {
            (PlaylistCounts { downloaded: (c.downloaded + 1) as usize, ..c }, TrackAction::Next)
        } else {
            (PlaylistCounts { failed: (c.failed + 1) as usize, ..c }, TrackAction::Next)
        },
    }
}

/// Decide what to do with a playlist track (`codec` being the effective
/// codec of the run).
pub fn playlist_track_step(c: PlaylistCounts, event: &TrackEvent, codec: &str) -> (r: (PlaylistCounts, TrackAction))
    requires
        c.downloaded < usize::MAX,
        c.skipped < usize::MAX,
        c.failed < usize::MAX,
    ensures
        r == spec_playlist_track_step(c, *event, codec@),
{
    match event {
        TrackEvent::NoStreamUrl => (PlaylistCounts { downloaded: c.downloaded, skipped: c.skipped, failed: c.failed + 1 }, TrackAction::Next),
        TrackEvent::Resolved { url, quality_code, already_done, download_exists } => {
            let convert = !str_eq(codec, "none") && str_eq(quality_code.as_str(), "aac");
            if str_eq(quality_code.as_str(), "hls") || str_contains(url.as_str(), ".m3u8") || *already_done {
                (PlaylistCounts { downloaded: c.downloaded, skipped: c.skipped + 1, failed: c.failed }, TrackAction::Next)
            } else if convert && *download_exists {
                (PlaylistCounts { downloaded: c.downloaded + 1, skipped: c.skipped, failed: c.failed }, TrackAction::ResumeConversion)
            } else {
                (c, TrackAction::Download { convert })
            }
        },
        TrackEvent::Downloaded { ok } => {
            if *ok {
                (PlaylistCounts { downloaded: c.downloaded + 1, skipped: c.skipped, failed: c.failed }, TrackAction::Next)
            } else {
                (PlaylistCounts { downloaded: c.downloaded, skipped: c.skipped, failed: c.failed + 1 }, TrackAction::Next)
            }
        },
    }
}

/// Each event counts its track once: a step adds one to exactly one count,
/// except the decision to download, which counts nothing yet.
pub proof fn law_playlist_counts_grow_by_one(c: PlaylistCounts, event: TrackEvent, codec: Seq<char>)
    requires
        c.downloaded < usize::MAX,
        c.skipped < usize::MAX,
        c.failed < usize::MAX,
    ensures
        ({
            let n = spec_playlist_track_step(c, event, codec).0;
            let a = spec_playlist_track_step(c, event, codec).1;
            a is Download ==> n == c
        }),
        ({
            let n = spec_playlist_track_step(c, event, codec).0;
            let a = spec_playlist_track_step(c, event, codec).1;
            !(a is Download) ==> n.downloaded + n.skipped + n.failed == c.downloaded + c.skipped + c.failed + 1
        }),
{
}

} // verus!
