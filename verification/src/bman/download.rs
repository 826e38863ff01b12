//! Building catalog shows from parsed Bman folders, FLAC conversion
//! defaults, and the title bookkeeping around downloads.
use vstd::prelude::*;
use vstd::string::StringSliceAdditionalSpecFns;
use vstd::utf8::{encode_utf8, is_char_boundary};
use crate::bman::id_map::{id_of, has_drive, lemma_push_keeps_ids, BmanIdMap};
use crate::bman::parser::{spec_artist_id, spec_artist_name, ParsedShow};
use crate::catalog::{build_container_info, spec_container_info};
use crate::models::{CatalogShow, Show, Track};
use crate::service::Service;
use crate::text::{owned, str_eq};

verus! {

broadcast use vstd::string::group_string_axioms;

/// Effective FLAC conversion for Bman: "aac" unless the user set
/// something other than nothing or "none".
pub open spec fn spec_bman_flac_convert(setting: Seq<char>) -> Seq<char> {
    if setting.len() == 0 || setting == "none"@ { "aac"@ } else { setting }
}

/// Effective flac_convert for Bman: defaults to "aac" unless the user
/// explicitly set something else.
pub fn bman_flac_convert(config_flac_convert: &str) -> (r: &str)
    ensures
        r@ == spec_bman_flac_convert(config_flac_convert@),
{
    if config_flac_convert.is_empty() || str_eq(config_flac_convert, "none") {
        "aac"
    } else {
        config_flac_convert
    }
}

/// The first track of `tracks` with id `id`.
pub open spec fn first_track(tracks: Seq<Track>, id: i64) -> Option<Track>
    decreases tracks.len(),
{
    if tracks.len() == 0 {
        None
    } else if tracks[0].track_id == id {
        Some(tracks[0])
    } else {
        first_track(tracks.drop_first(), id)
    }
}

/// `t` with the title of the first track of `enriched` that has its id.
pub open spec fn synced(t: Track, enriched: Seq<Track>) -> Track {
    match first_track(enriched, t.track_id) {
        Some(e) => Track { song_title: e.song_title, ..t },
        None => t,
    }
}

fn find_track(tracks: &Vec<Track>, id: i64) -> (r: Option<usize>)
    ensures
        match r {
            Some(i) => i < tracks@.len() && first_track(tracks@, id) == Some(tracks@[i as int]),
            None => first_track(tracks@, id) is None,
        },
{
    proof {
        assert(tracks@.skip(0) =~= tracks@);
    }
    let mut i: usize = 0;
    while i < tracks.len()
        invariant
            i <= tracks@.len(),
            first_track(tracks@, id) == first_track(tracks@.skip(i as int), id),
        decreases tracks@.len() - i,
    {
        proof {
            assert(tracks@.skip(i as int).drop_first() =~= tracks@.skip(i + 1));
        }
        if tracks[i].track_id == id {
            return Some(i);
        }
        i = i + 1;
    }
    None
}

/// Copy the final song titles of `show.tracks` to the tracks to
/// download, matching tracks by id.
pub fn sync_enriched_titles<U, Q>(show: &Show, tracks_with_urls: &mut Vec<(Track, U, Q)>)
    ensures
        final(tracks_with_urls)@.len() == old(tracks_with_urls)@.len(),
        forall|i: int| 0 <= i < final(tracks_with_urls)@.len() ==> (#[trigger] final(tracks_with_urls)@[i]).0
            == synced(old(tracks_with_urls)@[i].0, show.tracks@) && final(tracks_with_urls)@[i].1 == old(tracks_with_urls)@[i].1
            && final(tracks_with_urls)@[i].2 == old(tracks_with_urls)@[i].2,
{
    let mut i: usize = 0;
    while i < tracks_with_urls.len()
        invariant
            i <= tracks_with_urls@.len(),
            tracks_with_urls@.len() == old(tracks_with_urls)@.len(),
            forall|j: int| 0 <= j < i ==> (#[trigger] tracks_with_urls@[j]).0 == synced(old(tracks_with_urls)@[j].0, show.tracks@)
                && tracks_with_urls@[j].1 == old(tracks_with_urls)@[j].1 && tracks_with_urls@[j].2 == old(tracks_with_urls)@[j].2,
            forall|j: int| i <= j < tracks_with_urls@.len() ==> #[trigger] tracks_with_urls@[j] == old(tracks_with_urls)@[j],
        decreases tracks_with_urls@.len() - i,
    {
        let id = tracks_with_urls[i].0.track_id;
        let ghost before = tracks_with_urls@;
        match find_track(&show.tracks, id) {
            Some(k) => {
                let title = show.tracks[k].song_title.clone();
                tracks_with_urls[i].0.song_title = title;
                proof {
                    assert(tracks_with_urls@ == before.update(i as int, (Track { song_title: title, ..before[i as int].0 }, before[i as int].1, before[i as int].2)));
                }
            },
            None => {},
        }
        proof {
            assert forall|j: int| 0 <= j < i + 1 implies (#[trigger] tracks_with_urls@[j]).0 == synced(old(tracks_with_urls)@[j].0, show.tracks@)
                && tracks_with_urls@[j].1 == old(tracks_with_urls)@[j].1 && tracks_with_urls@[j].2 == old(tracks_with_urls)@[j].2 by {
                if j < i {
                    assert(tracks_with_urls@[j] == before[j]);
                }
            }
            assert forall|j: int| i + 1 <= j < tracks_with_urls@.len() implies #[trigger] tracks_with_urls@[j] == old(tracks_with_urls)@[j] by {
                assert(tracks_with_urls@[j] == before[j]);
            }
        }
        i = i + 1;
    }
}

/// The first four bytes of a date (its year), when they end on a character
/// boundary; empty otherwise.
pub open spec fn spec_year_bytes(date: Seq<char>) -> Seq<u8> {
    let b = encode_utf8(date);
    if is_char_boundary(b, 4) { b.subrange(0, 4) } else { Seq::<u8>::empty() }
}

fn year_prefix(date: &str) -> (r: String)
    ensures
        encode_utf8(r@) == spec_year_bytes(date@),
{
    if date.is_char_boundary(4) {
        let (head, _) = date.split_at(4);
        let r = owned(head);
        proof {
            assert(head.spec_bytes() == encode_utf8(head@));
            assert(date.spec_bytes() == encode_utf8(date@));
            assert(encode_utf8(r@) == encode_utf8(date@).subrange(0, 4));
            assert(spec_year_bytes(date@) == encode_utf8(date@).subrange(0, 4));
        }
        r
    } else {
        let r = String::new();
        proof {
            assert(encode_utf8(Seq::<char>::empty()) =~= Seq::<u8>::empty());
            assert(r@ == Seq::<char>::empty());
            assert(spec_year_bytes(date@) == Seq::<u8>::empty());
        }
        r
    }
}

/// The catalog show a parsed Bman folder becomes, with container id `id`.
pub open spec fn bman_catalog_show_ok(show: CatalogShow, parsed: ParsedShow, id: i64) -> bool {
    &&& show.container_id == id
    &&& show.artist_id == spec_artist_id(parsed.artist)
    &&& show.artist_name@ == spec_artist_name(parsed.artist)
    &&& show.container_info@ == spec_container_info(parsed.date@, parsed.venue@, parsed.source_tag@)
    &&& show.venue_name@ == parsed.venue@
    &&& show.venue_city@ == parsed.city@
    &&& show.venue_state@ == parsed.state@
    &&& show.performance_date@ == parsed.date@
    &&& encode_utf8(show.performance_date_year@) == spec_year_bytes(parsed.date@)
    &&& show.performance_date_formatted@.len() == 0
    &&& show.image_url@.len() == 0
    &&& show.song_list@.len() == 0
    &&& show.service == Service::Bman
}

/// Convert parsed Bman folders to catalog shows, giving each the synthetic
/// id of its folder (assigning new ids as needed).
pub fn bman_catalog_shows(deduped: &Vec<ParsedShow>, id_map: &mut BmanIdMap) -> (r: Vec<CatalogShow>)
    requires
        old(id_map).wf(),
        old(id_map).view().len() + deduped@.len() < i64::MAX,
    ensures
        final(id_map).wf(),
        r@.len() == deduped@.len(),
        forall|i: int| 0 <= i < r@.len() ==> bman_catalog_show_ok(#[trigger] r@[i], deduped@[i], r@[i].container_id)
            && id_of(final(id_map).view(), deduped@[i].folder_id@) == Some(r@[i].container_id),
        forall|d: Seq<char>| #[trigger] has_drive(old(id_map).view(), d) ==> id_of(final(id_map).view(), d) == id_of(old(id_map).view(), d),
{
    let mut out: Vec<CatalogShow> = Vec::new();
    let mut i: usize = 0;
    while i < deduped.len()
        invariant
            i <= deduped@.len(),
            id_map.wf(),
            id_map.view().len() <= old(id_map).view().len() + i,
            old(id_map).view().len() + deduped@.len() < i64::MAX,
            out@.len() == i,
            forall|j: int| 0 <= j < i ==> bman_catalog_show_ok(#[trigger] out@[j], deduped@[j], out@[j].container_id)
                && id_of(id_map.view(), deduped@[j].folder_id@) == Some(out@[j].container_id),
            forall|d: Seq<char>| #[trigger] has_drive(old(id_map).view(), d) ==> id_of(id_map.view(), d) == id_of(old(id_map).view(), d),
            forall|d: Seq<char>| #[trigger] has_drive(old(id_map).view(), d) ==> has_drive(id_map.view(), d),
            forall|j: int| 0 <= j < i ==> #[trigger] has_drive(id_map.view(), deduped@[j].folder_id@),
        decreases deduped@.len() - i,
    {
        let parsed = &deduped[i];
        let ghost before = id_map.view();
        let container_id = id_map.insert(parsed.folder_id.as_str());
        proof {
            if has_drive(before, parsed.folder_id@) {
                assert(id_map.view() == before);
            } else {
                id_map.lemma_well_formed();
                lemma_push_keeps_ids(before, parsed.folder_id@, container_id);
                assert forall|d: Seq<char>| #[trigger] has_drive(before, d) implies has_drive(id_map.view(), d) by {
                    let k = choose|k: int| 0 <= k < before.len() && (#[trigger] before[k]).0 == d;
                    assert(id_map.view()[k] == before[k]);
                }
                assert(id_map.view()[before.len() as int].0 == parsed.folder_id@);
            }
            assert(has_drive(id_map.view(), parsed.folder_id@));
            assert forall|j: int| 0 <= j < i implies #[trigger] has_drive(id_map.view(), deduped@[j].folder_id@) by {
                assert(has_drive(before, deduped@[j].folder_id@));
            }
        }
        let show = CatalogShow {
            container_id,
            artist_id: parsed.artist.artist_id(),
            artist_name: owned(parsed.artist.name()),
            container_info: build_container_info(parsed.date.as_str(), parsed.venue.as_str(), parsed.source_tag.as_str()),
            venue_name: parsed.venue.clone(),
            venue_city: parsed.city.clone(),
            venue_state: parsed.state.clone(),
            performance_date: parsed.date.clone(),
            performance_date_formatted: String::new(),
            performance_date_year: year_prefix(parsed.date.as_str()),
            image_url: String::new(),
            song_list: String::new(),
            service: Service::Bman,
        };
        out.push(show);
        i = i + 1;
    }
    out
}

} // verus!
