use nugs::browser::search::dim_artist_label;
use nugs::browser::show::{max_normal_set, ordered_set_keys, set_label, set_numbers, sort_shows, SortMode};
use nugs::models::{CatalogShow, Track};

fn make_catalog_show(date: &str, venue: &str) -> CatalogShow {
    CatalogShow {
        container_id: 1,
        artist_id: 1,
        artist_name: "Test".to_string(),
        container_info: String::new(),
        venue_name: venue.to_string(),
        venue_city: String::new(),
        venue_state: String::new(),
        performance_date: date.to_string(),
        performance_date_formatted: String::new(),
        performance_date_year: String::new(),
        song_list: String::new(),
        image_url: String::new(),
        service: Default::default(),
    }
}

#[test]
fn test_sort_shows_newest() {
    let mut shows = vec![
        make_catalog_show("2023-01-01", "A Venue"),
        make_catalog_show("2024-06-15", "B Venue"),
        make_catalog_show("2023-07-04", "C Venue"),
    ];
    sort_shows(&mut shows, SortMode::Newest);
    assert_eq!(shows[0].performance_date, "2024-06-15");
    assert_eq!(shows[1].performance_date, "2023-07-04");
    assert_eq!(shows[2].performance_date, "2023-01-01");
}

#[test]
fn test_sort_shows_oldest() {
    let mut shows = vec![make_catalog_show("2024-06-15", "B Venue"), make_catalog_show("2023-01-01", "A Venue")];
    sort_shows(&mut shows, SortMode::Oldest);
    assert_eq!(shows[0].performance_date, "2023-01-01");
    assert_eq!(shows[1].performance_date, "2024-06-15");
}

#[test]
fn test_sort_shows_venue() {
    let mut shows = vec![
        make_catalog_show("2024-01-01", "Madison Square Garden"),
        make_catalog_show("2024-02-01", "Alpine Valley"),
        make_catalog_show("2024-03-01", "Red Rocks"),
    ];
    sort_shows(&mut shows, SortMode::Venue);
    assert_eq!(shows[0].venue_name, "Alpine Valley");
    assert_eq!(shows[1].venue_name, "Madison Square Garden");
    assert_eq!(shows[2].venue_name, "Red Rocks");
}

#[test]
fn test_sort_mode_cycle() {
    assert_eq!(SortMode::Newest.next(), SortMode::Oldest);
    assert_eq!(SortMode::Oldest.next(), SortMode::Venue);
    assert_eq!(SortMode::Venue.next(), SortMode::Newest);
}

#[test]
fn test_sort_shows_venue_ignores_case_then_date_breaks_ties() {
    let mut shows = vec![
        make_catalog_show("2024-03-01", "red rocks"),
        make_catalog_show("2024-02-01", "Red Rocks"),
        make_catalog_show("2024-01-01", "ALPINE VALLEY"),
    ];
    sort_shows(&mut shows, SortMode::Venue);
    assert_eq!(shows[0].venue_name, "ALPINE VALLEY");
    assert_eq!(shows[1].performance_date, "2024-02-01");
    assert_eq!(shows[2].performance_date, "2024-03-01");
}

#[test]
fn test_sort_newest_keeps_order_of_equal_dates() {
    let mut a = make_catalog_show("2024-01-01", "A");
    a.container_id = 10;
    let mut b = make_catalog_show("2024-01-01", "B");
    b.container_id = 20;
    let mut shows = vec![a, b];
    sort_shows(&mut shows, SortMode::Newest);
    assert_eq!(shows[0].container_id, 10);
    assert_eq!(shows[1].container_id, 20);
}

#[test]
fn test_sort_mode_labels() {
    assert_eq!(SortMode::Newest.label(), "Newest first");
    assert_eq!(SortMode::Oldest.label(), "Oldest first");
    assert_eq!(SortMode::Venue.label(), "Venue A\u{2013}Z");
}

#[test]
fn test_dim_artist_label() {
    let label = dim_artist_label("Phish");
    assert!(label.contains("Phish"));
    assert!(label.contains("artist catalog"));
}

use nugs::browser::search::{artist_matches, ARTIST_MATCH_THRESHOLD, MAX_ARTIST_MATCHES};

fn choices(v: &[(i64, &str)]) -> Vec<(i64, String)> {
    v.iter().map(|(id, n)| (*id, n.to_string())).collect()
}

#[test]
fn test_score_artist_exact_match() {
    let m = artist_matches(&choices(&[(62, "Phish")]), "phish");
    assert_eq!(m.len(), 1);
    assert!(m[0].2 >= ARTIST_MATCH_THRESHOLD);
}

#[test]
fn test_score_artist_partial_match() {
    let m = artist_matches(&choices(&[(82, "Dead & Company")]), "dead");
    assert_eq!(m.len(), 1);
    assert!(m[0].2 >= ARTIST_MATCH_THRESHOLD);
}

#[test]
fn test_score_artist_no_match() {
    let m = artist_matches(&choices(&[(82, "Dead & Company")]), "xyzzyqwert");
    assert!(m.is_empty());
}

#[test]
fn test_artist_matches_best_first_and_capped() {
    let names: Vec<(i64, &str)> = vec![
        (1, "Grateful Dead"),
        (2, "Dead & Company"),
        (3, "Phish"),
        (4, "Dead"),
        (5, "The Dead"),
        (6, "Dead Kennedys"),
        (7, "Dead Milkmen"),
        (8, "Deadmau5"),
    ];
    let m = artist_matches(&choices(&names), "dead");
    assert!(m.len() <= MAX_ARTIST_MATCHES);
    assert!(!m.iter().any(|(id, _, _)| *id == 3));
    for w in m.windows(2) {
        assert!(w[0].2 >= w[1].2);
    }
    assert!(m.iter().all(|(_, _, s)| *s >= ARTIST_MATCH_THRESHOLD));
}

fn track(track_id: i64, set_num: i64, song_title: &str, track_num: i64) -> Track {
    Track {
        track_id,
        song_id: 0,
        song_title: song_title.to_string(),
        track_num,
        disc_num: 1,
        set_num,
        duration_seconds: 0,
        duration_display: String::new(),
    }
}

#[test]
fn test_encore_renders_after_regular_sets() {
    // Build a show with sets [0, 1, 2] — encore should come last
    let tracks = vec![track(1, 0, "Encore Song", 7), track(2, 1, "Set 1 Song", 1), track(3, 2, "Set 2 Song", 4)];
    let sets = set_numbers(&tracks);
    assert_eq!(max_normal_set(&sets), 2);
    // Regular sets first, then encore
    assert_eq!(ordered_set_keys(&sets), vec![1, 2, 0]);
    assert_eq!(set_label(0, &sets), "Encore");
    assert_eq!(set_label(2, &sets), "Set 2");
}

#[test]
fn test_all_set_zero_treated_as_set_1() {
    let tracks = vec![track(1, 0, "A", 1), track(2, 0, "B", 2)];
    let sets = set_numbers(&tracks);
    // max_normal_set is 0, all tracks set 0 → should be treated as "Set 1"
    assert_eq!(max_normal_set(&sets), 0);
    assert!(sets.contains(&0));
    assert_eq!(set_label(0, &sets), "Set 1");
}

#[test]
fn test_set_numbers_sorted_once() {
    let tracks = vec![track(1, 3, "c", 1), track(2, 1, "a", 2), track(3, 3, "c2", 3), track(4, 4, "e", 4), track(5, 2, "b", 5)];
    let sets = set_numbers(&tracks);
    assert_eq!(sets, vec![1, 2, 3, 4]);
    assert_eq!(ordered_set_keys(&sets), vec![1, 2, 3, 4]);
    assert_eq!(ordered_set_keys(&vec![0, 1, 2, 3]), vec![1, 2, 3, 0]);
    assert_eq!(set_label(0, &vec![0, 1]), "Encore");
    assert_eq!(set_label(-1, &vec![-1, 1]), "Set -1");
}
