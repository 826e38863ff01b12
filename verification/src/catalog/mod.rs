//! The multi-artist show catalog: validity filter, year and search indexes,
//! the artist registry and the choice of a preferred id among aliases.
pub mod bman_scan;
pub mod cache;
pub mod enrich;
pub mod rank;
pub mod registry;
pub mod search;
pub mod store;

pub use store::Catalog;

use vstd::prelude::*;
use crate::bman::parser::{BMAN_GD_ARTIST_ID, BMAN_JGB_ARTIST_ID};
use crate::models::CatalogShow;
use crate::service::Service;
use crate::text::{lowercase, push, push_str, str_eq, to_lowercase, trim, trim_str};

verus! {

broadcast use vstd::string::group_string_axioms;

/// Artist IDs served by Bman (Google Drive archive).
pub fn is_bman_artist(artist_id: i64) -> (r: bool)
    ensures
        r == (artist_id == BMAN_GD_ARTIST_ID || artist_id == BMAN_JGB_ARTIST_ID),
{
    artist_id == BMAN_GD_ARTIST_ID || artist_id == BMAN_JGB_ARTIST_ID
}

/// Lower-case spellings that stand for a missing value.
pub open spec fn is_placeholder_token(t: Seq<char>) -> bool {
    t == "none"@ || t == "null"@ || t == "unknown"@ || t == "n/a"@ || t == "na"@ || t == ""@
}

/// Empty, or a placeholder word once trimmed and lower-cased.
pub open spec fn spec_is_placeholder(value: Seq<char>) -> bool {
    value.len() == 0 || is_placeholder_token(lowercase(trim(value)))
}

/// True if value is missing or a placeholder string like "None", "unknown", "n/a".
pub fn is_placeholder(value: &str) -> (r: bool)
    ensures
        r == spec_is_placeholder(value@),
{
    if value.is_empty() {
        return true;
    }
    let t = to_lowercase(trim_str(value).as_str());
    let s = t.as_str();
    str_eq(s, "none") || str_eq(s, "null") || str_eq(s, "unknown") || str_eq(s, "n/a")
        || str_eq(s, "na") || str_eq(s, "")
}

/// A show-like container: Bman shows need a real date; other shows need a
/// positive id, a real date and at least one real venue field.
pub open spec fn spec_is_valid_live_show(show: CatalogShow) -> bool {
    if show.service == Service::Bman {
        !spec_is_placeholder(show.performance_date@)
    } else {
        show.container_id > 0
        && !spec_is_placeholder(show.performance_date@)
        && (!spec_is_placeholder(show.venue_name@) || !spec_is_placeholder(show.venue_city@)
            || !spec_is_placeholder(show.venue_state@))
    }
}

/// Filter predicate: true for show-like containers with date and venue data.
pub fn is_valid_live_show(show: &CatalogShow) -> (r: bool)
    ensures
        r == spec_is_valid_live_show(*show),
{
    if show.service == Service::Bman {
        return !is_placeholder(show.performance_date.as_str());
    }
    if show.container_id <= 0 {
        return false;
    }
    if is_placeholder(show.performance_date.as_str()) {
        return false;
    }
    !is_placeholder(show.venue_name.as_str()) || !is_placeholder(show.venue_city.as_str())
        || !is_placeholder(show.venue_state.as_str())
}

/// "date venue (tag)", leaving out empty parts.
pub open spec fn spec_container_info(date: Seq<char>, venue: Seq<char>, tag: Seq<char>) -> Seq<char> {
    let info = if date.len() > 0 && venue.len() > 0 {
        date + seq![' '] + venue
    } else if date.len() > 0 {
        date
    } else {
        venue
    };
    if tag.len() == 0 {
        info
    } else if info.len() == 0 {
        seq!['('] + tag + seq![')']
    } else {
        info + seq![' ', '('] + tag + seq![')']
    }
}

/// Container info for a Bman show: date and venue, then the source tag in
/// parentheses.
pub fn build_container_info(date: &str, venue: &str, source_tag: &str) -> (r: String)
    ensures
        r@ == spec_container_info(date@, venue@, source_tag@),
{
    let mut info = String::new();
    if !date.is_empty() {
        push_str(&mut info, date);
    }
    if !venue.is_empty() {
        if !date.is_empty() {
            push(&mut info, ' ');
        }
        push_str(&mut info, venue);
    }
    if !source_tag.is_empty() {
        if !info.as_str().is_empty() {
            push(&mut info, ' ');
        }
        push(&mut info, '(');
        push_str(&mut info, source_tag);
        push(&mut info, ')');
    }
    proof {
        let d = date@;
        let v = venue@;
        let t = source_tag@;
        assert(info@ =~= spec_container_info(d, v, t));
    }
    info
}

/// Target for loading an artist: by numeric ID or by name.
pub enum ArtistTarget {
    Id(i64),
    Name(String),
}

} // verus!
