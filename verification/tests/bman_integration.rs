use std::path::PathBuf;

use nugs::bman::download::{bman_catalog_shows, bman_flac_convert};
use nugs::bman::gdrive::{DriveItem, FOLDER_MIME};
use nugs::bman::id_map::BmanIdMap;
use nugs::bman::parser::{
    dedup_shows, is_jgb_folder, is_nll_folder, is_year_folder, parse_disc_subfolder, parse_show_folder,
    parse_track_filename, BmanArtist, ParsedShow, SourceType, BMAN_GD_ARTIST_ID, BMAN_JGB_ARTIST_ID,
};
use nugs::catalog::{is_bman_artist, Catalog};
use nugs::models::{CatalogShow, Track};
use nugs::service::Service;

// ── Helper builders ─────────────────────────────────────────────────

fn make_drive_item(id: &str, name: &str, mime: &str) -> DriveItem {
    DriveItem { id: id.to_string(), name: name.to_string(), mime_type: mime.to_string(), size: None }
}

fn make_flac_item(id: &str, name: &str) -> DriveItem {
    make_drive_item(id, name, "audio/flac")
}

fn make_folder_item(id: &str, name: &str) -> DriveItem {
    make_drive_item(id, name, FOLDER_MIME)
}

fn make_bman_catalog_show(
    container_id: i64,
    artist_id: i64,
    artist_name: &str,
    date: &str,
    venue: &str,
    city: &str,
    state: &str,
) -> CatalogShow {
    CatalogShow {
        container_id,
        artist_id,
        artist_name: artist_name.to_string(),
        container_info: String::new(),
        venue_name: venue.to_string(),
        venue_city: city.to_string(),
        venue_state: state.to_string(),
        performance_date: date.to_string(),
        performance_date_formatted: String::new(),
        performance_date_year: date.get(..4).unwrap_or("").to_string(),
        image_url: String::new(),
        song_list: String::new(),
        service: Service::Bman,
    }
}

fn make_track(track_id: i64, title: &str, track_num: i64, disc_num: i64) -> Track {
    Track {
        track_id,
        song_id: 0,
        song_title: title.to_string(),
        track_num,
        disc_num,
        set_num: disc_num.max(1),
        duration_seconds: 0,
        duration_display: String::new(),
    }
}

fn plain_show(date: &str, source_type: SourceType, is_nll: bool, artist: BmanArtist, folder_id: &str) -> ParsedShow {
    ParsedShow {
        date: date.to_string(),
        venue: String::new(),
        city: String::new(),
        state: String::new(),
        source_type,
        source_tag: String::new(),
        is_nll,
        artist,
        folder_id: folder_id.to_string(),
    }
}

fn empty_catalog() -> Catalog {
    Catalog::new(PathBuf::from("nugs-test-cache"))
}

// ── Year sorting & catalog organization ─────────────────────────────

#[test]
fn test_bman_shows_sort_into_correct_years() {
    let mut catalog = empty_catalog();
    let shows = vec![
        make_bman_catalog_show(-100, BMAN_GD_ARTIST_ID, "Grateful Dead", "1977-05-08", "Cornell", "Ithaca", "NY"),
        make_bman_catalog_show(-101, BMAN_GD_ARTIST_ID, "Grateful Dead", "1972-08-27", "Veneta", "Veneta", "OR"),
        make_bman_catalog_show(-102, BMAN_GD_ARTIST_ID, "Grateful Dead", "1977-05-09", "War Memorial", "Buffalo", "NY"),
        make_bman_catalog_show(-103, BMAN_GD_ARTIST_ID, "Grateful Dead", "1989-07-04", "RFK", "DC", "DC"),
    ];
    catalog.shows.extend(shows);
    catalog.build_indexes();

    let y1977: Vec<_> =
        catalog.get_shows_by_year("1977").into_iter().filter(|s| s.service == Service::Bman).collect();
    assert_eq!(y1977.len(), 2, "1977 should have 2 shows");
    assert!(y1977.iter().all(|s| s.performance_date_year == "1977"));

    let y1972: Vec<_> =
        catalog.get_shows_by_year("1972").into_iter().filter(|s| s.service == Service::Bman).collect();
    assert_eq!(y1972.len(), 1);
    assert_eq!(y1972[0].performance_date, "1972-08-27");

    let y1989: Vec<_> =
        catalog.get_shows_by_year("1989").into_iter().filter(|s| s.service == Service::Bman).collect();
    assert_eq!(y1989.len(), 1);
}

#[test]
fn test_bman_shows_do_not_appear_in_nugs_year_listings() {
    let mut catalog = empty_catalog();
    let bman_show =
        make_bman_catalog_show(-100, BMAN_GD_ARTIST_ID, "Grateful Dead", "1977-05-08", "Cornell", "Ithaca", "NY");
    let nugs_show = CatalogShow {
        container_id: 55555,
        artist_id: 196,
        artist_name: "Phish".to_string(),
        venue_name: "MSG".to_string(),
        venue_city: "New York".to_string(),
        venue_state: "NY".to_string(),
        performance_date: "1977-11-01".to_string(),
        performance_date_year: "1977".to_string(),
        service: Service::Nugs,
        ..Default::default()
    };
    catalog.shows.push(bman_show);
    catalog.shows.push(nugs_show);
    catalog.build_indexes();

    let all_1977 = catalog.get_shows_by_year("1977");
    let bman_only: Vec<_> = all_1977.iter().filter(|s| s.service == Service::Bman).collect();
    let nugs_only: Vec<_> = all_1977.iter().filter(|s| s.service == Service::Nugs).collect();
    assert_eq!(bman_only.len(), 1);
    assert_eq!(nugs_only.len(), 1);
}

#[test]
fn test_jgb_shows_use_correct_artist_id() {
    let jgb = parse_show_folder("jgb77-05-21.aud.flac16", "folder_jgb", BmanArtist::JerryGarciaBand, false).unwrap();
    assert_eq!(jgb.artist.artist_id(), BMAN_JGB_ARTIST_ID);
    assert_eq!(jgb.artist.name(), "Jerry Garcia Band");
}

#[test]
fn test_gd_shows_use_correct_artist_id() {
    let gd = parse_show_folder("gd77-05-08.sbd.flac16", "folder_gd", BmanArtist::GratefulDead, false).unwrap();
    assert_eq!(gd.artist.artist_id(), BMAN_GD_ARTIST_ID);
    assert_eq!(gd.artist.name(), "Grateful Dead");
}

#[test]
fn test_etree_prefix_overrides_passed_artist() {
    let show = parse_show_folder("jgb73-07-18.aud.flac16", "folder_id", BmanArtist::GratefulDead, false).unwrap();
    assert_eq!(show.artist, BmanArtist::JerryGarciaBand);
}

// ── Title & venue identification ────────────────────────────────────

#[test]
fn test_nice_format_extracts_venue_city_state() {
    let show = parse_show_folder(
        "1977-05-08 Cornell University, Ithaca, NY (Betty Board)",
        "fid",
        BmanArtist::GratefulDead,
        false,
    )
    .unwrap();
    assert_eq!(show.venue, "Cornell University");
    assert_eq!(show.city, "Ithaca");
    assert_eq!(show.state, "NY");
    assert_eq!(show.date, "1977-05-08");
    assert_eq!(show.source_tag, "Betty Board");
}

#[test]
fn test_multi_part_venue_name() {
    let show = parse_show_folder(
        "1977-05-08 Barton Hall, Cornell University, Ithaca, NY",
        "fid",
        BmanArtist::GratefulDead,
        false,
    )
    .unwrap();
    assert_eq!(show.venue, "Barton Hall, Cornell University");
    assert_eq!(show.city, "Ithaca");
    assert_eq!(show.state, "NY");
}

#[test]
fn test_mm_dd_yyyy_format() {
    let show =
        parse_show_folder("06-10-1973 - RFK Stadium - Washington, DC", "fid", BmanArtist::GratefulDead, false)
            .unwrap();
    assert_eq!(show.date, "1973-06-10");
    assert_eq!(show.venue, "RFK Stadium");
    assert_eq!(show.city, "Washington");
    assert_eq!(show.state, "DC");
}

#[test]
fn test_etree_format_extracts_date() {
    let show = parse_show_folder("gd73-06-10.aud.shnf.flac16", "fid", BmanArtist::GratefulDead, false).unwrap();
    assert_eq!(show.date, "1973-06-10");
    assert_eq!(show.source_type, SourceType::Aud);
}

#[test]
fn test_bare_date_no_venue() {
    let show = parse_show_folder("1977-05-08", "fid", BmanArtist::GratefulDead, false).unwrap();
    assert_eq!(show.date, "1977-05-08");
    assert!(show.venue.is_empty());
}

#[test]
fn test_source_type_detection() {
    let sbd = parse_show_folder("gd77-05-08.sbd.flac16", "fid", BmanArtist::GratefulDead, false).unwrap();
    assert_eq!(sbd.source_type, SourceType::Sbd);

    let aud = parse_show_folder("gd77-05-08.aud.flac16", "fid", BmanArtist::GratefulDead, false).unwrap();
    assert_eq!(aud.source_type, SourceType::Aud);

    let mtx = parse_show_folder("gd77-05-08.matrix.flac16", "fid", BmanArtist::GratefulDead, false).unwrap();
    assert_eq!(mtx.source_type, SourceType::Mtx);
}

// ── Track listing correctness ───────────────────────────────────────

#[test]
fn test_nice_track_filename_parsing() {
    let track = parse_track_filename("01 Bertha.flac", "fid").unwrap();
    assert_eq!(track.track_num, 1);
    assert_eq!(track.title, "Bertha");

    let track2 = parse_track_filename("12. Greatest Story Ever Told.flac", "fid").unwrap();
    assert_eq!(track2.track_num, 12);
    assert_eq!(track2.title, "Greatest Story Ever Told");
}

#[test]
fn test_etree_track_filename_parsing() {
    let track = parse_track_filename("d1t01.flac", "fid").unwrap();
    assert_eq!(track.disc_num, 1);
    assert_eq!(track.track_num, 1);

    let track2 = parse_track_filename("d2t05.flac", "fid").unwrap();
    assert_eq!(track2.disc_num, 2);
    assert_eq!(track2.track_num, 5);
}

#[test]
fn test_tracks_sorted_by_disc_then_track() {
    let mut tracks = vec![
        make_track(-10, "D2T1", 1, 2),
        make_track(-11, "D1T2", 2, 1),
        make_track(-12, "D1T1", 1, 1),
        make_track(-13, "D2T2", 2, 2),
    ];
    tracks.sort_by_key(|t| (t.disc_num, t.track_num));

    assert_eq!(tracks[0].song_title, "D1T1");
    assert_eq!(tracks[1].song_title, "D1T2");
    assert_eq!(tracks[2].song_title, "D2T1");
    assert_eq!(tracks[3].song_title, "D2T2");
}

// ── FLAC conversion defaults ────────────────────────────────────────

#[test]
fn test_bman_flac_convert_defaults_to_aac() {
    assert_eq!(bman_flac_convert("none"), "aac");
    assert_eq!(bman_flac_convert(""), "aac");
}

#[test]
fn test_bman_flac_convert_respects_explicit_alac() {
    assert_eq!(bman_flac_convert("alac"), "alac");
}

#[test]
fn test_bman_flac_convert_respects_explicit_aac() {
    assert_eq!(bman_flac_convert("aac"), "aac");
}

#[test]
fn test_bman_flac_convert_passes_through_unknown() {
    assert_eq!(bman_flac_convert("opus"), "opus");
}

// ── MIME type handling ──────────────────────────────────────────────

#[test]
fn test_is_flac_audio_flac() {
    let item = make_flac_item("id", "track.flac");
    assert!(item.is_flac());
}

#[test]
fn test_is_flac_rejects_non_audio() {
    let item = make_drive_item("id", "track.flac", "application/octet-stream");
    assert!(!item.is_flac());
}

#[test]
fn test_is_flac_rejects_mp3() {
    let item = make_drive_item("id", "track.mp3", "audio/mpeg");
    assert!(!item.is_flac());
}

#[test]
fn test_is_folder() {
    let folder = make_folder_item("id", "1977");
    assert!(folder.is_folder());
    assert!(!folder.is_flac());
}

#[test]
fn test_is_text() {
    let txt = make_drive_item("id", "info.txt", "text/plain");
    assert!(txt.is_text());
    assert!(!txt.is_flac());
}

// ── Deduplication & NLL precedence ──────────────────────────────────

#[test]
fn test_nll_supersedes_regular_version() {
    let regular = ParsedShow {
        date: "1977-05-08".to_string(),
        venue: "Cornell University".to_string(),
        city: "Ithaca".to_string(),
        state: "NY".to_string(),
        source_type: SourceType::Sbd,
        source_tag: "SBD".to_string(),
        is_nll: false,
        artist: BmanArtist::GratefulDead,
        folder_id: "folder_regular".to_string(),
    };
    let nll = ParsedShow {
        date: "1977-05-08".to_string(),
        venue: "Cornell University".to_string(),
        city: "Ithaca".to_string(),
        state: "NY".to_string(),
        source_type: SourceType::Sbd,
        source_tag: "SBD".to_string(),
        is_nll: true,
        artist: BmanArtist::GratefulDead,
        folder_id: "folder_nll".to_string(),
    };

    let deduped = dedup_shows(vec![regular.clone(), nll.clone()]);
    assert_eq!(deduped.len(), 1, "Duplicate date+artist should be deduped");
    assert!(deduped[0].is_nll, "NLL version should win");
    assert_eq!(deduped[0].folder_id, "folder_nll");
}

#[test]
fn test_nll_supersedes_regardless_of_order() {
    let regular = plain_show("1977-05-08", SourceType::Aud, false, BmanArtist::GratefulDead, "regular");
    let nll = plain_show("1977-05-08", SourceType::Sbd, true, BmanArtist::GratefulDead, "nll");

    let deduped1 = dedup_shows(vec![nll.clone(), regular.clone()]);
    assert_eq!(deduped1.len(), 1);
    assert!(deduped1[0].is_nll);

    let deduped2 = dedup_shows(vec![regular, nll]);
    assert_eq!(deduped2.len(), 1);
    assert!(deduped2[0].is_nll);
}

#[test]
fn test_sbd_beats_aud_for_same_date() {
    let aud = plain_show("1977-05-08", SourceType::Aud, false, BmanArtist::GratefulDead, "aud_folder");
    let sbd = plain_show("1977-05-08", SourceType::Sbd, false, BmanArtist::GratefulDead, "sbd_folder");

    let deduped = dedup_shows(vec![aud, sbd]);
    assert_eq!(deduped.len(), 1);
    assert_eq!(deduped[0].source_type, SourceType::Sbd);
}

#[test]
fn test_different_dates_not_deduped() {
    let show1 = plain_show("1977-05-08", SourceType::Sbd, false, BmanArtist::GratefulDead, "folder1");
    let show2 = plain_show("1977-05-09", SourceType::Sbd, false, BmanArtist::GratefulDead, "folder2");

    let deduped = dedup_shows(vec![show1, show2]);
    assert_eq!(deduped.len(), 2, "Different dates should not be deduped");
}

#[test]
fn test_same_date_different_artist_not_deduped() {
    let gd = plain_show("1977-05-08", SourceType::Sbd, false, BmanArtist::GratefulDead, "gd_folder");
    let jgb = plain_show("1977-05-08", SourceType::Sbd, false, BmanArtist::JerryGarciaBand, "jgb_folder");

    let deduped = dedup_shows(vec![gd, jgb]);
    assert_eq!(deduped.len(), 2, "GD and JGB on same date should both survive");
}

// ── ID mapping edge cases ───────────────────────────────────────────

#[test]
fn test_synthetic_ids_are_always_negative() {
    for drive_id in &["abc", "xyz", "1", "a-very-long-drive-id-string-1234567890"] {
        let id = BmanIdMap::synthetic_id(drive_id);
        assert!(id < 0, "ID for '{}' should be negative, got {}", drive_id, id);
    }
}

#[test]
fn test_synthetic_id_deterministic() {
    let id1 = BmanIdMap::synthetic_id("test_folder_123");
    let id2 = BmanIdMap::synthetic_id("test_folder_123");
    assert_eq!(id1, id2, "Same input should produce same output");
}

#[test]
fn test_id_map_handles_collision() {
    let mut map = BmanIdMap::new();
    let mut seen_ids = std::collections::HashSet::new();

    for i in 0..1000 {
        let drive_id = format!("folder_{}", i);
        let synthetic = map.insert(&drive_id);
        assert!(seen_ids.insert(synthetic), "Collision detected: {} already used for a different drive_id", synthetic);
        assert!(synthetic < 0);
    }
    assert_eq!(map.len(), 1000);
}

#[test]
fn test_bman_artist_ids_do_not_collide_with_nugs() {
    assert!(BMAN_GD_ARTIST_ID > 0, "GD uses nugs artist_id 461");
    assert!(BMAN_JGB_ARTIST_ID < 0, "JGB uses negative synthetic ID");
}

// ── Service mapping ─────────────────────────────────────────────────

#[test]
fn test_bman_service_distinct_from_nugs_livephish() {
    assert_ne!(Service::Bman, Service::Nugs);
    assert_ne!(Service::Bman, Service::LivePhish);
}

// ── Non-regression for nugs / LivePhish ─────────────────────────────

#[test]
fn test_nugs_shows_unaffected_by_bman() {
    let mut catalog = empty_catalog();
    let nugs = CatalogShow {
        container_id: 12345,
        artist_id: 196,
        artist_name: "Phish".to_string(),
        venue_name: "MSG".to_string(),
        venue_city: "New York".to_string(),
        venue_state: "NY".to_string(),
        performance_date: "2024-08-31".to_string(),
        performance_date_year: "2024".to_string(),
        service: Service::Nugs,
        ..Default::default()
    };
    let bman = make_bman_catalog_show(-100, BMAN_GD_ARTIST_ID, "Grateful Dead", "2024-01-01", "Venue", "City", "ST");

    catalog.shows.push(nugs);
    catalog.shows.push(bman);
    catalog.build_indexes();

    let y2024: Vec<_> =
        catalog.get_shows_by_year("2024").into_iter().filter(|s| s.service == Service::Nugs).collect();
    assert_eq!(y2024.len(), 1);
    assert_eq!(y2024[0].artist_name, "Phish");
}

#[test]
fn test_livephish_shows_unaffected_by_bman() {
    let mut catalog = empty_catalog();
    let lp = CatalogShow {
        container_id: 67890,
        artist_id: 62,
        artist_name: "Phish".to_string(),
        venue_name: "MSG".to_string(),
        venue_city: "New York".to_string(),
        venue_state: "NY".to_string(),
        performance_date: "2024-12-31".to_string(),
        performance_date_year: "2024".to_string(),
        service: Service::LivePhish,
        ..Default::default()
    };
    catalog.shows.push(lp);
    catalog.build_indexes();

    let y2024 = catalog.get_shows_by_year("2024");
    assert_eq!(y2024.len(), 1);
    assert_eq!(y2024[0].service, Service::LivePhish);
}

#[test]
fn test_is_bman_artist_routing() {
    assert!(is_bman_artist(BMAN_GD_ARTIST_ID));
    assert!(is_bman_artist(BMAN_JGB_ARTIST_ID));
    assert!(!is_bman_artist(196));
    assert!(!is_bman_artist(62));
    assert!(!is_bman_artist(0));
}

// ── Catalog traversal structure ─────────────────────────────────────

#[test]
fn test_is_year_folder() {
    assert!(is_year_folder("1977").is_some());
    assert!(is_year_folder("2024").is_some());
    assert!(is_year_folder("1965").is_some());
    assert!(is_year_folder("NLL").is_none());
    assert!(is_year_folder("JGB").is_none());
    assert!(is_year_folder("Bonus").is_none());
}

#[test]
fn integration_tests_test_is_nll_folder() {
    assert!(is_nll_folder("New Lossless Library"));
    assert!(is_nll_folder("⚡"));
    assert!(!is_nll_folder("1977"));
    assert!(!is_nll_folder("JGB"));
    assert!(!is_nll_folder("NLL"));
}

#[test]
fn integration_tests_test_is_jgb_folder() {
    assert!(is_jgb_folder("JGB"));
    assert!(is_jgb_folder("Jerry Garcia Band"));
    assert!(is_jgb_folder("jgb"));
    assert!(!is_jgb_folder("1977"));
    assert!(!is_jgb_folder("New Lossless Library"));
}

// ── Disc subfolder detection ────────────────────────────────────────

#[test]
fn test_disc_subfolder_patterns() {
    assert_eq!(parse_disc_subfolder("Disc 1"), Some(1));
    assert_eq!(parse_disc_subfolder("Disc 2"), Some(2));
    assert_eq!(parse_disc_subfolder("Disk 1"), Some(1));
    assert_eq!(parse_disc_subfolder("CD 1"), Some(1));
    assert_eq!(parse_disc_subfolder("Set 1"), Some(1));
    assert_eq!(parse_disc_subfolder("d1"), Some(1));
    assert_eq!(parse_disc_subfolder("d2"), Some(2));
    assert_eq!(parse_disc_subfolder("info"), None);
    assert_eq!(parse_disc_subfolder("artwork"), None);
}

// ── Edge cases & robustness ─────────────────────────────────────────

#[test]
fn test_empty_folder_name_returns_none() {
    assert!(parse_show_folder("", "fid", BmanArtist::GratefulDead, false).is_none());
}

#[test]
fn test_garbage_folder_name_returns_none() {
    assert!(parse_show_folder("random_junk_no_date", "fid", BmanArtist::GratefulDead, false).is_none());
}

#[test]
fn test_two_digit_year_expands_correctly() {
    let show = parse_show_folder("gd69-01-25.aud.flac16", "fid", BmanArtist::GratefulDead, false).unwrap();
    assert_eq!(show.date, "1969-01-25");
}

#[test]
fn test_four_digit_year_etree() {
    let show = parse_show_folder("gd1977-05-08.sbd.flac16", "fid", BmanArtist::GratefulDead, false);
    if let Some(s) = show {
        assert!(s.date.starts_with("1977") || s.date.starts_with("19"));
    }
}

#[test]
fn test_folder_name_with_only_whitespace() {
    assert!(parse_show_folder("   ", "fid", BmanArtist::GratefulDead, false).is_none());
}

#[test]
fn test_catalog_show_from_parsed_show_preserves_fields() {
    let parsed = ParsedShow {
        date: "1977-05-08".to_string(),
        venue: "Barton Hall".to_string(),
        city: "Ithaca".to_string(),
        state: "NY".to_string(),
        source_type: SourceType::Sbd,
        source_tag: "Betty Board".to_string(),
        is_nll: true,
        artist: BmanArtist::GratefulDead,
        folder_id: "abc123".to_string(),
    };

    let mut map = BmanIdMap::new();
    let container_id = map.insert(&parsed.folder_id);

    let catalog_show = CatalogShow {
        container_id,
        artist_id: parsed.artist.artist_id(),
        artist_name: parsed.artist.name().to_string(),
        container_info: format!("({})", parsed.source_tag),
        venue_name: parsed.venue.clone(),
        venue_city: parsed.city.clone(),
        venue_state: parsed.state.clone(),
        performance_date: parsed.date.clone(),
        performance_date_formatted: String::new(),
        performance_date_year: "1977".to_string(),
        image_url: String::new(),
        song_list: String::new(),
        service: Service::Bman,
    };

    assert!(container_id < 0);
    assert_eq!(catalog_show.artist_name, "Grateful Dead");
    assert_eq!(catalog_show.venue_name, "Barton Hall");
    assert_eq!(catalog_show.venue_city, "Ithaca");
    assert_eq!(catalog_show.venue_state, "NY");
    assert_eq!(catalog_show.container_info, "(Betty Board)");
    assert_eq!(catalog_show.performance_date_year, "1977");
    assert_eq!(catalog_show.service, Service::Bman);
}

#[test]
fn test_bman_catalog_shows_maps_each_parsed_show() {
    let parsed = ParsedShow {
        date: "1977-05-08".to_string(),
        venue: "Barton Hall".to_string(),
        city: "Ithaca".to_string(),
        state: "NY".to_string(),
        source_type: SourceType::Sbd,
        source_tag: "Betty Board".to_string(),
        is_nll: true,
        artist: BmanArtist::GratefulDead,
        folder_id: "abc123".to_string(),
    };
    let jgb = plain_show("1976-03-18", SourceType::Aud, false, BmanArtist::JerryGarciaBand, "def456");

    let mut map = BmanIdMap::new();
    let shows = bman_catalog_shows(&vec![parsed, jgb], &mut map);
    assert_eq!(shows.len(), 2);
    assert_eq!(map.len(), 2);

    let gd = &shows[0];
    assert!(gd.container_id < 0);
    assert_eq!(map.get_synthetic_id("abc123"), Some(gd.container_id));
    assert_eq!(map.get_drive_id(gd.container_id), Some("abc123"));
    assert_eq!(gd.artist_id, BMAN_GD_ARTIST_ID);
    assert_eq!(gd.artist_name, "Grateful Dead");
    assert_eq!(gd.venue_name, "Barton Hall");
    assert_eq!(gd.venue_city, "Ithaca");
    assert_eq!(gd.venue_state, "NY");
    assert_eq!(gd.performance_date, "1977-05-08");
    assert_eq!(gd.container_info, "1977-05-08 Barton Hall (Betty Board)");
    assert_eq!(gd.performance_date_year, "1977");
    assert_eq!(gd.service, Service::Bman);

    let j = &shows[1];
    assert_eq!(j.artist_id, BMAN_JGB_ARTIST_ID);
    assert_eq!(j.artist_name, "Jerry Garcia Band");
    assert_eq!(j.performance_date_year, "1976");
    assert_eq!(j.container_info, "1976-03-18");
    assert_eq!(map.get_synthetic_id("def456"), Some(j.container_id));
}

// ── Search integration ──────────────────────────────────────────────

#[test]
fn test_bman_shows_searchable() {
    let mut catalog = empty_catalog();
    catalog.shows.push(make_bman_catalog_show(
        -100,
        BMAN_GD_ARTIST_ID,
        "Grateful Dead",
        "1977-05-08",
        "Cornell University",
        "Ithaca",
        "NY",
    ));
    catalog.shows.push(make_bman_catalog_show(
        -101,
        BMAN_GD_ARTIST_ID,
        "Grateful Dead",
        "1972-08-27",
        "Old Renaissance Faire Grounds",
        "Veneta",
        "OR",
    ));
    catalog.build_indexes();

    let results = catalog.search("Cornell", 50);
    assert!(results.iter().any(|s| s.container_id == -100));

    let results = catalog.search("Veneta", 50);
    assert!(results.iter().any(|s| s.container_id == -101));

    let results = catalog.search("1977-05-08", 50);
    assert!(results.iter().any(|s| s.container_id == -100));
}

// ── Track collection from Drive listings ────────────────────────────

use nugs::bman::tracks::collect_tracks_from_items;

#[test]
fn test_collect_tracks_single_disc() {
    let items = vec![
        make_flac_item("f1", "01 Bertha.flac"),
        make_flac_item("f2", "02 Greatest Story.flac"),
        make_flac_item("f3", "03 Sugaree.flac"),
        make_drive_item("t1", "info.txt", "text/plain"),
    ];
    let mut map = BmanIdMap::new();
    let mut tracks = Vec::new();
    collect_tracks_from_items(&items, None, &mut map, &mut tracks);

    assert_eq!(tracks.len(), 3);
    assert_eq!(tracks[0].song_title, "Bertha");
    assert_eq!(tracks[1].song_title, "Greatest Story");
    assert_eq!(tracks[2].song_title, "Sugaree");
}

#[test]
fn test_collect_tracks_disc_override() {
    let items = vec![make_flac_item("f1", "01 Bertha.flac"), make_flac_item("f2", "02 Sugar Magnolia.flac")];
    let mut map = BmanIdMap::new();
    let mut tracks = Vec::new();
    collect_tracks_from_items(&items, Some(2), &mut map, &mut tracks);

    assert_eq!(tracks.len(), 2);
    assert!(tracks.iter().all(|t| t.disc_num == 2));
}

#[test]
fn test_non_flac_files_ignored_in_collect_tracks() {
    let items = vec![
        make_drive_item("f1", "track.mp3", "audio/mpeg"),
        make_drive_item("f2", "info.txt", "text/plain"),
        make_drive_item("f3", "cover.jpg", "image/jpeg"),
        make_flac_item("f4", "01 Real Track.flac"),
    ];
    let mut map = BmanIdMap::new();
    let mut tracks = Vec::new();
    collect_tracks_from_items(&items, None, &mut map, &mut tracks);

    assert_eq!(tracks.len(), 1, "Only the FLAC should be collected");
    assert_eq!(tracks[0].song_title, "Real Track");
}

#[test]
fn test_collect_tracks_unparsed_files_numbered_after_highest_in_name_order() {
    let items = vec![
        make_flac_item("z", "zebra.flac"),
        make_flac_item("a", "07 Bertha.flac"),
        make_flac_item("m", "alpha.take2.flac"),
    ];
    let mut map = BmanIdMap::new();
    let mut tracks = Vec::new();
    collect_tracks_from_items(&items, None, &mut map, &mut tracks);

    assert_eq!(tracks.len(), 3);
    assert_eq!(tracks[0].song_title, "Bertha");
    assert_eq!(tracks[0].track_num, 7);
    assert_eq!(tracks[1].song_title, "alpha.take2");
    assert_eq!(tracks[1].track_num, 8);
    assert_eq!(tracks[1].disc_num, 1);
    assert_eq!(tracks[2].song_title, "zebra");
    assert_eq!(tracks[2].track_num, 9);
    for (t, id) in tracks.iter().zip(["a", "m", "z"]) {
        assert_eq!(map.get_synthetic_id(id), Some(t.track_id));
        assert!(t.track_id < 0);
        assert_eq!(t.set_num, 1);
    }
}

#[test]
fn test_collect_tracks_appends_and_reuses_ids() {
    let mut map = BmanIdMap::new();
    let existing = map.insert("f1");
    let mut tracks = vec![make_track(-5, "Earlier", 12, 1)];
    let items = vec![make_flac_item("f1", "d2t03 Morning Dew.flac"), make_flac_item("x", "untitled.flac")];
    collect_tracks_from_items(&items, Some(2), &mut map, &mut tracks);
    assert_eq!(tracks.len(), 3);
    assert_eq!(tracks[0].song_title, "Earlier");
    assert_eq!(tracks[1].track_id, existing);
    assert_eq!(tracks[1].disc_num, 2);
    assert_eq!(tracks[1].set_num, 2);
    assert_eq!(tracks[2].track_num, 13);
    assert_eq!(tracks[2].disc_num, 2);
}
