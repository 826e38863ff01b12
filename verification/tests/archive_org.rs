use nugs::tapetag::archive_org::{
    artist_collection, is_audio_file, parse_track_num, sanitize_cache_key, sanitize_title, stem_from_filename,
};

#[test]
fn test_artist_collection() {
    assert_eq!(artist_collection("Grateful Dead"), "GratefulDead");
    assert_eq!(artist_collection("Jerry Garcia Band"), "JerryGarcia");
}

#[test]
fn test_is_audio_file() {
    assert!(is_audio_file("gd77-05-08d1t01.flac", Some("original")));
    assert!(is_audio_file("track01.shn", None));
    assert!(!is_audio_file("cover.jpg", None));
    assert!(!is_audio_file("track01.flac", Some("derivative")));
}

#[test]
fn test_parse_track_num() {
    assert_eq!(parse_track_num("01"), 1);
    assert_eq!(parse_track_num("02/23"), 2);
    assert_eq!(parse_track_num(""), 0);
}

#[test]
fn test_sanitize_title() {
    assert_eq!(sanitize_title("Scarlet Begonias".to_string()), "Scarlet Begonias");
    assert_eq!(sanitize_title("Bad\x00Title".to_string()), "BadTitle");
}

#[test]
fn test_sanitize_cache_key() {
    assert_eq!(sanitize_cache_key("search_GratefulDead_1977-05-08"), "search_GratefulDead_1977-05-08");
    assert_eq!(sanitize_cache_key("has spaces!"), "has_spaces_");
}

#[test]
fn test_stem_from_filename() {
    assert_eq!(stem_from_filename("gd77-05-08d1t01.flac"), "gd77-05-08d1t01");
    assert_eq!(stem_from_filename("Sugaree"), "Sugaree");
}

#[test]
fn test_parse_track_num_garbage_is_zero() {
    assert_eq!(parse_track_num("abc"), 0);
    assert_eq!(parse_track_num(" 7 "), 7);
}
