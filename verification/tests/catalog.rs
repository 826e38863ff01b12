use std::collections::HashMap;
use std::path::PathBuf;

use nugs::catalog::registry::{find_artist_ids, merge_seed_artists, normalize_artist_name, registry_groups};
use nugs::catalog::search::abbreviate;
use nugs::bman::gdrive::DriveItem;
use nugs::bman::parser::BmanArtist;
use nugs::catalog::bman_scan::BmanScanResult;
use nugs::catalog::store::LoadStep;
use nugs::catalog::{is_placeholder, is_valid_live_show, ArtistTarget, Catalog};
use nugs::bman::id_map::BmanIdMap;
use nugs::bman::parser::parse_show_folder;
use nugs::bman::setlistfm::SetlistVenue;
use nugs::catalog::bman_scan::{fill_venue, needs_venue_lookup, root_scan, scan_target, RootScan};
use nugs::catalog::store::cache_count;
use nugs::models::CatalogShow;
use nugs::service::Service;

// ── Test helpers ────────────────────────────────────────────────────────

/// The show every catalog test starts from: a nugs.net Phish show at MSG.
fn base_show() -> CatalogShow {
    CatalogShow {
        container_id: 100,
        artist_id: 196,
        artist_name: "Phish".to_string(),
        container_info: "2024-08-31 MSG".to_string(),
        venue_name: "Madison Square Garden".to_string(),
        venue_city: "New York".to_string(),
        venue_state: "NY".to_string(),
        performance_date: "2024-08-31".to_string(),
        performance_date_formatted: "August 31, 2024".to_string(),
        performance_date_year: "2024".to_string(),
        image_url: String::new(),
        song_list: String::new(),
        service: Service::Nugs,
    }
}

fn show_with(artist_id: i64, container_id: i64, artist_name: &str, venue: &str, city: &str, state: &str) -> CatalogShow {
    CatalogShow {
        container_id,
        artist_id,
        artist_name: artist_name.to_string(),
        container_info: format!("2024-01-01 {}", venue),
        venue_name: venue.to_string(),
        venue_city: city.to_string(),
        venue_state: state.to_string(),
        performance_date: "2024-01-01".to_string(),
        performance_date_formatted: "January 1, 2024".to_string(),
        performance_date_year: "2024".to_string(),
        image_url: String::new(),
        song_list: String::new(),
        service: Service::Nugs,
    }
}

/// A catalog entry that is no show: no date and no venue.
fn non_show(artist_id: i64, container_id: i64, info: &str) -> CatalogShow {
    CatalogShow {
        container_id,
        artist_id,
        artist_name: "Phish".to_string(),
        container_info: info.to_string(),
        venue_name: String::new(),
        venue_city: String::new(),
        venue_state: String::new(),
        performance_date: String::new(),
        performance_date_formatted: String::new(),
        performance_date_year: String::new(),
        image_url: String::new(),
        song_list: String::new(),
        service: Service::Nugs,
    }
}

/// A catalog loaded the way the program loads one: the registry read from
/// disk with the seeds merged in, then each artist's cache, then the indexes.
fn loaded_catalog(registry: &[(i64, &str)], caches: Vec<(i64, Vec<CatalogShow>)>) -> Catalog {
    let mut reg: HashMap<i64, String> = HashMap::new();
    for (id, name) in registry {
        reg.insert(*id, name.to_string());
    }
    merge_seed_artists(&mut reg);
    let mut catalog = Catalog::new(PathBuf::from("nugs-test-cache"));
    catalog.set_registry(reg);
    for (artist_id, shows) in caches {
        catalog.add_artist_cache(artist_id, Some(shows));
    }
    catalog.build_indexes();
    catalog
}

fn catalog_with_shows() -> Catalog {
    let phish_shows = vec![
        show_with(196, 10001, "Phish", "Madison Square Garden", "New York", "NY"),
        show_with(196, 10002, "Phish", "Dick's Sporting Goods Park", "Commerce City", "CO"),
    ];
    let dead_shows = vec![show_with(461, 20001, "Grateful Dead", "Shoreline Amphitheatre", "Mountain View", "CA")];
    loaded_catalog(&[(196, "Phish"), (461, "Grateful Dead")], vec![(196, phish_shows), (461, dead_shows)])
}

// ── is_placeholder tests ────────────────────────────────────────────────

#[test]
fn test_is_placeholder_none_and_empty() {
    assert!(is_placeholder(""));
    assert!(is_placeholder("   "));
}

#[test]
fn test_is_placeholder_sentinel_strings() {
    for val in &["None", "none", "NONE", "  None  ", "null", "NULL", "unknown", "Unknown", "UNKNOWN", "n/a", "N/A", "na", "NA"] {
        assert!(is_placeholder(val), "expected placeholder: {val}");
    }
}

#[test]
fn test_is_placeholder_real_values() {
    for val in &["Madison Square Garden", "2024-08-31", "NY", "Phish"] {
        assert!(!is_placeholder(val), "expected not placeholder: {val}");
    }
}

// ── is_valid_live_show tests ────────────────────────────────────────────

#[test]
fn test_valid_live_show_passes() {
    let show = base_show();
    assert!(is_valid_live_show(&show));
}

#[test]
fn test_filter_rejects_empty_date() {
    let show = CatalogShow {
        performance_date: String::new(),
        performance_date_formatted: String::new(),
        performance_date_year: String::new(),
        ..base_show()
    };
    assert!(!is_valid_live_show(&show));
}

#[test]
fn test_filter_rejects_whitespace_only_date() {
    let show = CatalogShow { performance_date: "   ".to_string(), ..base_show() };
    assert!(!is_valid_live_show(&show));
}

#[test]
fn test_filter_rejects_blank_venue() {
    let show =
        CatalogShow { venue_name: String::new(), venue_city: String::new(), venue_state: String::new(), ..base_show() };
    assert!(!is_valid_live_show(&show));
}

#[test]
fn test_filter_rejects_zero_container_id() {
    let show = CatalogShow { container_id: 0, ..base_show() };
    assert!(!is_valid_live_show(&show));
}

#[test]
fn test_filter_rejects_negative_container_id() {
    let show = CatalogShow { container_id: -1, ..base_show() };
    assert!(!is_valid_live_show(&show));
}

#[test]
fn test_filter_accepts_partial_venue() {
    let show = CatalogShow {
        venue_name: String::new(),
        venue_city: String::new(),
        venue_state: "UK".to_string(),
        ..base_show()
    };
    assert!(is_valid_live_show(&show));
}

#[test]
fn test_filter_rejects_none_string_date() {
    let show = CatalogShow { performance_date: "None".to_string(), ..base_show() };
    assert!(!is_valid_live_show(&show));
}

#[test]
fn test_filter_rejects_unknown_string_date() {
    let show = CatalogShow { performance_date: "unknown".to_string(), ..base_show() };
    assert!(!is_valid_live_show(&show));
}

#[test]
fn test_filter_rejects_null_string_date() {
    let show = CatalogShow { performance_date: "null".to_string(), ..base_show() };
    assert!(!is_valid_live_show(&show));
}

#[test]
fn test_filter_rejects_na_string_date() {
    let show = CatalogShow { performance_date: "N/A".to_string(), ..base_show() };
    assert!(!is_valid_live_show(&show));
}

#[test]
fn test_filter_rejects_placeholder_venue() {
    let show = CatalogShow {
        venue_name: "None".to_string(),
        venue_city: "unknown".to_string(),
        venue_state: "N/A".to_string(),
        ..base_show()
    };
    assert!(!is_valid_live_show(&show));
}

#[test]
fn test_filter_accepts_real_venue_with_placeholder_siblings() {
    let show = CatalogShow {
        venue_name: "None".to_string(),
        venue_city: "New York".to_string(),
        venue_state: "unknown".to_string(),
        ..base_show()
    };
    assert!(is_valid_live_show(&show));
}

#[test]
fn test_bman_show_needs_only_a_date() {
    let show = CatalogShow {
        container_id: -42,
        service: Service::Bman,
        venue_name: String::new(),
        venue_city: String::new(),
        venue_state: String::new(),
        ..base_show()
    };
    assert!(is_valid_live_show(&show));
    let undated = CatalogShow { performance_date: "n/a".to_string(), ..show };
    assert!(!is_valid_live_show(&undated));
}

// ── abbreviate tests ────────────────────────────────────────────────────

#[test]
fn test_abbreviate_multi_word() {
    assert_eq!(abbreviate("Madison Square Garden"), "MSG");
    assert_eq!(abbreviate("Red Rocks"), "RR");
}

#[test]
fn test_abbreviate_single_word() {
    assert_eq!(abbreviate("Venue"), "");
}

#[test]
fn test_abbreviate_empty() {
    assert_eq!(abbreviate(""), "");
}

// ── normalize_artist_name tests ─────────────────────────────────────────

#[test]
fn test_normalize_basic() {
    assert_eq!(normalize_artist_name("Phish"), "phish");
}

#[test]
fn test_normalize_ampersand() {
    assert_eq!(normalize_artist_name("Dead & Company"), normalize_artist_name("Dead and Company"));
}

#[test]
fn test_normalize_punctuation() {
    assert_eq!(normalize_artist_name("Gov't Mule"), "govt mule");
    assert_eq!(normalize_artist_name("moe."), "moe");
}

#[test]
fn test_normalize_plus_sign() {
    assert_eq!(normalize_artist_name("Artist + Band"), normalize_artist_name("Artist and Band"));
}

#[test]
fn test_normalize_smart_quote() {
    assert_eq!(normalize_artist_name("Umphrey\u{2019}s McGee"), normalize_artist_name("Umphrey's McGee"));
}

#[test]
fn test_normalize_preserves_numbers() {
    assert_eq!(normalize_artist_name("Artist 123"), "artist 123");
}

#[test]
fn test_normalize_collapses_whitespace() {
    assert_eq!(normalize_artist_name("  The   String  Cheese "), "the string cheese");
}

// ── Registry tests ──────────────────────────────────────────────────────

#[test]
fn test_registry_seed_merge() {
    let mut loaded: HashMap<i64, String> = HashMap::new();
    merge_seed_artists(&mut loaded);
    assert!(loaded.contains_key(&62));
    assert!(loaded.contains_key(&461));
}

#[test]
fn test_registry_seed_no_overwrite() {
    let mut loaded: HashMap<i64, String> = HashMap::new();
    loaded.insert(62, "Phish (Custom)".to_string());
    merge_seed_artists(&mut loaded);
    assert_eq!(loaded.get(&62).map(|s| s.as_str()), Some("Phish (Custom)"));
    assert_eq!(loaded.get(&461).map(|s| s.as_str()), Some("Grateful Dead"));
}

#[test]
fn test_dedup_basic() {
    let mut registry = HashMap::new();
    registry.insert(82, "Dead & Company".to_string());
    registry.insert(1045, "Dead and Company".to_string());
    let groups = registry_groups(&registry);
    let normalized = normalize_artist_name("Dead & Company");
    let group = &groups.iter().find(|(name, _)| *name == normalized).unwrap().1;
    assert_eq!(group.len(), 2);
    assert!(group.contains(&82));
    assert!(group.contains(&1045));
}

#[test]
fn test_find_artist_ids() {
    let mut registry = HashMap::new();
    registry.insert(82, "Dead & Company".to_string());
    registry.insert(1045, "Dead and Company".to_string());
    registry.insert(62, "Phish".to_string());

    let ids = find_artist_ids(&registry, "Dead & Company");
    assert_eq!(ids.len(), 2);
    assert!(ids.contains(&82));
    assert!(ids.contains(&1045));

    let ids = find_artist_ids(&registry, "Nonexistent");
    assert!(ids.is_empty());
}

// ── Catalog integration tests ───────────────────────────────────────────

#[test]
fn test_catalog_load_populates_shows() {
    let catalog = catalog_with_shows();
    assert_eq!(catalog.shows.len(), 3);
}

#[test]
fn test_get_shows_by_year() {
    let catalog = catalog_with_shows();
    let shows_2024 = catalog.get_shows_by_year("2024");
    assert_eq!(shows_2024.len(), 3);
}

#[test]
fn test_get_years() {
    let catalog = catalog_with_shows();
    let years = catalog.get_years();
    assert!(years.contains(&"2024".to_string()));
}

#[test]
fn test_get_shows_by_artist_id() {
    let catalog = catalog_with_shows();
    let phish_shows = catalog.get_shows_by_artist_id(196);
    assert_eq!(phish_shows.len(), 2);
    let dead_shows = catalog.get_shows_by_artist_id(461);
    assert_eq!(dead_shows.len(), 1);
}

#[test]
fn test_register_artist_idempotent() {
    let mut catalog = loaded_catalog(&[], vec![]);

    catalog.register_artist(9999, "Test Artist");
    assert_eq!(catalog.get_artist_name(9999), Some("Test Artist"));

    catalog.register_artist(9999, "Different Name");
    assert_eq!(catalog.get_artist_name(9999), Some("Test Artist"));
}

#[test]
fn test_get_artist_name_from_shows() {
    let catalog = catalog_with_shows();
    assert_eq!(catalog.get_artist_name(196), Some("Phish"));
    assert_eq!(catalog.get_artist_name(461), Some("Grateful Dead"));
}

#[test]
fn test_get_artist_name_from_registry() {
    let catalog = loaded_catalog(&[], vec![]);
    assert_eq!(catalog.get_artist_name(62), Some("Phish"));
}

#[test]
fn test_get_all_artist_choices_deduped() {
    let catalog = loaded_catalog(&[(82, "Dead & Company"), (1045, "Dead and Company"), (62, "Phish")], vec![]);

    let choices = catalog.get_all_artist_choices();
    let dead_co: Vec<_> = choices
        .iter()
        .filter(|(_, name)| name.to_lowercase().contains("dead") && name.to_lowercase().contains("company"))
        .collect();
    assert_eq!(dead_co.len(), 1, "Expected 1 deduped entry, got {dead_co:?}");
}

#[test]
fn test_load_filters_non_show_from_cache() {
    let cache_data = vec![show_with(196, 80001, "Phish", "MSG", "New York", "NY"), non_show(196, 80002, "Bad Entry")];
    let catalog = loaded_catalog(&[(196, "Phish")], vec![(196, cache_data)]);

    assert_eq!(catalog.shows.len(), 1);
    assert_eq!(catalog.shows[0].container_id, 80001);
}

// ── Search tests ────────────────────────────────────────────────────────

#[test]
fn test_search_basic_venue_name() {
    let catalog = catalog_with_shows();
    let results = catalog.search("Madison Square Garden", 50);
    assert!(results.iter().any(|s| s.container_id == 10001), "Expected MSG show in results");
}

#[test]
fn test_search_abbreviation() {
    let catalog = catalog_with_shows();
    let results = catalog.search("MSG", 50);
    assert!(results.iter().any(|s| s.container_id == 10001), "Expected MSG show in results for abbreviation search");
}

#[test]
fn test_search_state_name() {
    let catalog = catalog_with_shows();
    let results = catalog.search("California", 50);
    assert!(results.iter().any(|s| s.container_id == 20001), "Expected CA show in results for state name search");
}

#[test]
fn test_search_empty_query() {
    let catalog = catalog_with_shows();
    let results = catalog.search("", 50);
    assert!(results.is_empty());
    let results = catalog.search("   ", 50);
    assert!(results.is_empty());
}

#[test]
fn test_search_returns_catalog_shows() {
    let catalog = catalog_with_shows();
    let results = catalog.search("Phish", 50);
    assert!(!results.is_empty());
    assert!(results[0].container_id > 0);
}

#[test]
fn test_search_multiple_results() {
    let catalog = catalog_with_shows();
    let results = catalog.search("Phish", 50);
    assert!(results.len() >= 2);
}

#[test]
fn test_search_respects_limit() {
    let catalog = catalog_with_shows();
    let results = catalog.search("Phish", 1);
    assert_eq!(results.len(), 1);
    let results = catalog.search("Phish", 0);
    assert!(results.is_empty());
}

#[test]
fn test_search_artist_by_id() {
    let catalog = catalog_with_shows();
    let results = catalog.search_artist("Garden", 196, 50);
    assert!(results.iter().any(|s| s.container_id == 10001));
    assert!(!results.iter().any(|s| s.artist_id == 461));
}

#[test]
fn test_filtered_entries_not_in_search_index() {
    let cache_data =
        vec![show_with(196, 90001, "Phish", "Madison Square Garden", "New York", "NY"), non_show(196, 90002, "Evolve")];
    let catalog = loaded_catalog(&[(196, "Phish")], vec![(196, cache_data)]);

    let results = catalog.search("Evolve", 50);
    assert!(!results.iter().any(|s| s.container_id == 90002));

    let results = catalog.search("Madison Square Garden", 50);
    assert!(results.iter().any(|s| s.container_id == 90001));
}

// ── Year listing (own tests) ────────────────────────────────────────────

#[test]
fn test_year_listing_is_newest_first_and_unknown_year_kept() {
    let mut catalog = Catalog::new(PathBuf::from("nugs-test-cache"));
    let mut older = show_with(196, 1, "Phish", "MSG", "New York", "NY");
    older.performance_date = "2024-01-01".to_string();
    let mut newer = show_with(196, 2, "Phish", "MSG", "New York", "NY");
    newer.performance_date = "2024-12-31".to_string();
    let mut undated_year = show_with(196, 3, "Phish", "MSG", "New York", "NY");
    undated_year.performance_date_year = String::new();
    catalog.shows.push(older);
    catalog.shows.push(newer);
    catalog.shows.push(undated_year);
    catalog.build_indexes();

    let y2024 = catalog.get_shows_by_year("2024");
    assert_eq!(y2024.len(), 2);
    assert_eq!(y2024[0].container_id, 2);
    assert_eq!(y2024[1].container_id, 1);

    let unknown = catalog.get_shows_by_year("Unknown");
    assert_eq!(unknown.len(), 1);
    assert_eq!(unknown[0].container_id, 3);
    assert!(catalog.get_shows_by_year("1999").is_empty());
}

#[test]
fn test_bman_scan_counts_folders() {
    let folder = |id: &str, name: &str| DriveItem {
        id: id.to_string(),
        name: name.to_string(),
        mime_type: "application/vnd.google-apps.folder".to_string(),
        size: None,
    };
    let mut scan = BmanScanResult::new();
    scan.parse_item(&folder("a", "artwork"), BmanArtist::GratefulDead, false);
    assert_eq!((scan.total_folders, scan.failed_folders, scan.parsed.len()), (0, 0, 0));
    scan.parse_item(&folder("b", "1977-05-08 Barton Hall, Ithaca, NY"), BmanArtist::GratefulDead, false);
    assert_eq!((scan.total_folders, scan.failed_folders, scan.parsed.len()), (1, 0, 1));
    assert_eq!(scan.parsed[0].date, "1977-05-08");
    assert_eq!(scan.parsed[0].folder_id, "b");
    scan.parse_item(&folder("c", "random stuff"), BmanArtist::GratefulDead, false);
    assert_eq!((scan.total_folders, scan.failed_folders, scan.parsed.len()), (2, 1, 1));
}

#[test]
fn test_merge_discovered_artists_keeps_existing_names() {
    let mut catalog = Catalog::new(PathBuf::from("/tmp/unused"));
    let mut registry = HashMap::new();
    registry.insert(196, "Phish".to_string());
    catalog.set_registry(registry);
    let discovered = vec![(196, "PHISH (renamed)".to_string()), (62, "Pearl Jam".to_string())];
    assert_eq!(catalog.merge_discovered_artists(&discovered), (1, true));
    assert_eq!(catalog.artist_registry().get(&196).map(String::as_str), Some("Phish"));
    assert_eq!(catalog.artist_registry().get(&62).map(String::as_str), Some("Pearl Jam"));
    assert_eq!(catalog.merge_discovered_artists(&Vec::new()), (0, false));
    assert_eq!(catalog.artist_registry().len(), 2);
}

#[test]
fn test_load_artist_step_decisions() {
    let mut catalog = Catalog::new(PathBuf::from("/tmp/unused"));
    let requested = Catalog::requested_name(&ArtistTarget::Name("PHISH".to_string()));
    assert_eq!(requested, "phish");
    assert_eq!(Catalog::requested_name(&ArtistTarget::Id(196)), "");
    let phish = vec![base_show()];
    let mut other = base_show();
    other.artist_name = "Trey Anastasio Band".to_string();
    let other = vec![other];
    let none: Vec<CatalogShow> = Vec::new();
    // Loaded shows of the requested name are taken.
    assert_eq!(catalog.load_artist_step(196, &requested, &phish, None, 0, 2, true), LoadStep::Found);
    // Another name: next alias, or stop at the last candidate or without aliases.
    assert_eq!(catalog.load_artist_step(196, &requested, &other, None, 0, 2, true), LoadStep::Next);
    assert_eq!(catalog.load_artist_step(196, &requested, &other, None, 1, 2, true), LoadStep::Stop);
    assert_eq!(catalog.load_artist_step(196, &requested, &other, None, 0, 2, false), LoadStep::Stop);
    // A load by id takes any name.
    assert_eq!(catalog.load_artist_step(196, "", &other, None, 0, 2, true), LoadStep::Found);
    // Nothing loaded and not attempted: fetch; then judge what came.
    assert_eq!(catalog.load_artist_step(196, &requested, &none, None, 0, 2, true), LoadStep::Fetch);
    assert_eq!(catalog.load_artist_step(196, &requested, &none, Some(&phish), 0, 2, true), LoadStep::Found);
    assert_eq!(catalog.load_artist_step(196, &requested, &none, Some(&none), 0, 2, true), LoadStep::Next);
    // Attempted already: no second fetch.
    catalog.mark_loaded(196);
    assert_eq!(catalog.load_artist_step(196, &requested, &none, None, 0, 2, true), LoadStep::Next);
    assert_eq!(catalog.load_artist_step(196, &requested, &none, None, 1, 2, true), LoadStep::Stop);
}

#[test]
fn test_finish_bman_fetch_marks_both_artists() {
    let mut catalog = Catalog::new(PathBuf::from("/tmp/unused"));
    let none: Vec<CatalogShow> = Vec::new();
    assert_eq!(catalog.load_artist_step(461, "", &none, None, 0, 2, true), LoadStep::Fetch);
    assert_eq!(catalog.load_artist_step(-1, "", &none, None, 0, 2, true), LoadStep::Fetch);
    let gd = show_with(461, -10, "Grateful Dead", "Barton Hall", "Ithaca", "NY");
    let jgb = show_with(-1, -11, "Jerry Garcia Band", "Keystone", "Berkeley", "CA");
    let gd2 = show_with(461, -12, "Grateful Dead", "Veneta", "Veneta", "OR");
    let shows = vec![gd, jgb, gd2];
    let mine = catalog.finish_bman_fetch(461, &shows);
    assert_eq!(mine.iter().map(|s| s.container_id).collect::<Vec<_>>(), vec![-10, -12]);
    // Both are attempted now: no second fetch.
    assert_eq!(catalog.load_artist_step(461, "", &none, None, 0, 2, true), LoadStep::Next);
    assert_eq!(catalog.load_artist_step(-1, "", &none, None, 0, 2, true), LoadStep::Next);
}

#[test]
fn test_fetch_keeping_nothing_clears_cached_data() {
    let mut catalog = Catalog::new(PathBuf::from("/tmp/unused"));
    let mut registry = HashMap::new();
    registry.insert(196, "Phish".to_string());
    catalog.set_registry(registry);
    let cached = Some(vec![base_show(), show_with(196, 101, "Phish", "", "", "")]);
    // One valid row: the second has no venue.
    assert_eq!(cache_count(&cached), 1);
    assert_eq!(cache_count(&None), -1);
    catalog.record_cache_count(196, cache_count(&cached));
    assert!(catalog.artist_has_data(196));
    let mut bad = base_show();
    bad.performance_date = "none".to_string();
    let (kept, _) = catalog.apply_fetched_artist(196, vec![bad]);
    assert!(kept.is_empty());
    assert_eq!(catalog.cache_show_count(196), 0);
    assert!(!catalog.artist_has_data(196));
    let (kept, _) = catalog.apply_fetched_artist(196, vec![base_show()]);
    assert_eq!(kept.len(), 1);
    assert_eq!(catalog.cache_show_count(196), 1);
}

#[test]
fn test_install_bman_catalog_registers_and_replaces() {
    let mut catalog = Catalog::new(PathBuf::from("/tmp/unused"));
    let mut id_map = BmanIdMap::new();
    let parsed = parse_show_folder("1977-05-08 Barton Hall, Ithaca, NY", "drive-a", BmanArtist::GratefulDead, false).unwrap();
    let shows = catalog.install_bman_catalog(&vec![parsed], &mut id_map);
    assert_eq!(shows.len(), 1);
    assert!(shows[0].container_id < 0);
    assert_eq!(id_map.get_synthetic_id("drive-a"), Some(shows[0].container_id));
    assert_eq!(catalog.get_artist_name(461), Some("Grateful Dead"));
    assert_eq!(catalog.get_artist_name(-1), Some("Jerry Garcia Band"));
    assert_eq!(catalog.get_shows_by_artist_id(461).len(), 1);
}

#[test]
fn test_register_artist_first_wins() {
    let mut catalog = Catalog::new(PathBuf::from("/tmp/unused"));
    assert!(catalog.register_artist(9999, "Test Artist"));
    assert!(!catalog.register_artist(9999, "Different Name"));
    assert_eq!(catalog.get_artist_name(9999), Some("Test Artist"));
}

#[test]
fn test_bman_root_scan_and_venue_fill() {
    assert_eq!(root_scan("1977"), RootScan::Year);
    assert_eq!(root_scan("Jerry Garcia Band"), RootScan::Jgb);
    assert_eq!(root_scan("New Lossless Live"), RootScan::NewLossless);
    assert_eq!(root_scan("Misc"), RootScan::Skip);
    assert_eq!(scan_target(RootScan::NewLossless), (BmanArtist::GratefulDead, true));
    assert_eq!(scan_target(RootScan::Jgb), (BmanArtist::JerryGarciaBand, false));
    let mut bare = parse_show_folder("1977-05-08", "d", BmanArtist::GratefulDead, false).unwrap();
    assert!(needs_venue_lookup(&bare));
    let sv = SetlistVenue { venue_name: "Barton Hall".to_string(), city: "Ithaca".to_string(), state: "NY".to_string() };
    fill_venue(&mut bare, &sv);
    assert_eq!((bare.venue.as_str(), bare.city.as_str(), bare.state.as_str()), ("Barton Hall", "Ithaca", "NY"));
    assert!(!needs_venue_lookup(&bare));
    let mut placed = parse_show_folder("1977-05-08 Barton Hall, Ithaca, NY", "d", BmanArtist::GratefulDead, false).unwrap();
    assert!(!needs_venue_lookup(&placed));
    let other = SetlistVenue { venue_name: "Elsewhere".to_string(), city: "X".to_string(), state: "Y".to_string() };
    fill_venue(&mut placed, &other);
    assert_eq!((placed.venue.as_str(), placed.city.as_str(), placed.state.as_str()), ("Elsewhere", "X", "Y"));
}

#[test]
fn test_search_long_query_without_spaces() {
    let mut catalog = Catalog::new(PathBuf::from("/tmp/unused"));
    catalog.apply_fetched_artist(196, vec![base_show()]);
    let long = "x".repeat(70000);
    assert!(catalog.search(&long, 10).is_empty());
    assert!(catalog.search("   ", 10).is_empty());
}

#[test]
fn test_take_listing_passes_over_failed_listing() {
    let folder = |id: &str, name: &str| DriveItem {
        id: id.to_string(),
        name: name.to_string(),
        mime_type: "application/vnd.google-apps.folder".to_string(),
        size: None,
    };
    let mut scan = BmanScanResult::new();
    scan.take_listing(None, BmanArtist::GratefulDead, false);
    assert_eq!((scan.total_folders, scan.failed_folders, scan.parsed.len()), (0, 0, 0));
    let items = vec![folder("a", "artwork"), folder("b", "1977-05-08 Barton Hall, Ithaca, NY"), folder("c", "random stuff")];
    scan.take_listing(Some(&items), BmanArtist::GratefulDead, false);
    assert_eq!((scan.total_folders, scan.failed_folders, scan.parsed.len()), (2, 1, 1));
    scan.take_listing(None, BmanArtist::GratefulDead, false);
    assert_eq!((scan.total_folders, scan.failed_folders, scan.parsed.len()), (2, 1, 1));
}
