use nugs::bman::artwork::{cover_location, is_image_file, parse_artwork_date, pick_local_cover};

#[test]
fn test_parse_artwork_date_gd() {
    assert_eq!(parse_artwork_date("gd77-05-08-Barton-Hall.jpg"), Some("1977-05-08".to_string()));
}

#[test]
fn test_parse_artwork_date_jgb() {
    assert_eq!(parse_artwork_date("jgb80-03-08-Kean-College.jpg"), Some("1980-03-08".to_string()));
}

#[test]
fn test_parse_artwork_date_case_insensitive() {
    assert_eq!(parse_artwork_date("GD73-06-10-RFK-Stadium.jpg"), Some("1973-06-10".to_string()));
}

#[test]
fn test_parse_artwork_date_invalid() {
    assert_eq!(parse_artwork_date("random-file.jpg"), None);
    assert_eq!(parse_artwork_date("readme.txt"), None);
}

#[test]
fn test_is_image_file() {
    assert!(is_image_file("cover.jpg"));
    assert!(is_image_file("front.JPEG"));
    assert!(is_image_file("art.png"));
    assert!(is_image_file("photo.webp"));
    assert!(!is_image_file("track.flac"));
    assert!(!is_image_file("info.txt"));
}

fn names(v: &[&str]) -> Vec<String> {
    v.iter().map(|s| s.to_string()).collect()
}

#[test]
fn test_pick_local_cover_empty() {
    assert_eq!(pick_local_cover(&vec![], &vec![], "1977-05-08"), None);
}

#[test]
fn test_pick_local_cover_front_priority() {
    let n = names(&["back.jpg", "front.jpg"]);
    assert_eq!(pick_local_cover(&n, &vec![9, 10], "1977-05-08"), Some(1));
}

#[test]
fn test_pick_local_cover_front_beats_cover() {
    let n = names(&["cover.jpg", "Front.JPG"]);
    assert_eq!(pick_local_cover(&n, &vec![10, 9], "1977-05-08"), Some(1));
}

#[test]
fn test_pick_local_cover_cover_priority() {
    let n = names(&["liner.jpg", "cover.jpg"]);
    assert_eq!(pick_local_cover(&n, &vec![10, 10], "1977-05-08"), Some(1));
}

#[test]
fn test_pick_local_cover_date_match() {
    let n = names(&["random.jpg", "1977-05-08.jpg"]);
    assert_eq!(pick_local_cover(&n, &vec![2, 10], "1977-05-08"), Some(1));
}

#[test]
fn test_pick_local_cover_largest_fallback() {
    let n = names(&["small.jpg", "large.jpg"]);
    assert_eq!(pick_local_cover(&n, &vec![2, 16], ""), Some(1));
}

#[test]
fn test_pick_local_cover_first_of_equal_largest() {
    let n = names(&["a.jpg", "b.jpg", "c.jpg"]);
    assert_eq!(pick_local_cover(&n, &vec![5, 7, 7], ""), Some(1));
}

#[test]
fn test_cover_location() {
    assert_eq!(cover_location("Ithaca", "NY"), "Ithaca, NY");
    assert_eq!(cover_location("Ithaca", ""), "Ithaca");
    assert_eq!(cover_location("", "NY"), ", NY");
    assert_eq!(cover_location("", ""), "");
}

#[test]
fn test_generate_cover_no_feature_returns_empty() {
    let result = nugs::bman::cover::generate_cover("Bman", "2024-06-15", "Venue", "City", "ST");
    assert!(result.is_empty());
}
