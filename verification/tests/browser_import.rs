use nugs::browser::import::{parse_urls, UrlType};

#[test]
fn test_parse_release_url() {
    let results = parse_urls("https://play.nugs.net/release/12345");
    assert_eq!(results.len(), 1);
    assert_eq!(results[0].id, "12345");
    assert_eq!(results[0].url_type, UrlType::Release);
}

#[test]
fn test_parse_playlist_url() {
    let results = parse_urls("https://play.nugs.net/#/playlists/playlist/67890");
    assert_eq!(results.len(), 1);
    assert_eq!(results[0].id, "67890");
    assert_eq!(results[0].url_type, UrlType::Playlist);
}

#[test]
fn test_parse_library_playlist_url() {
    let results = parse_urls("https://play.nugs.net/library/playlist/67890");
    assert_eq!(results.len(), 1);
    assert_eq!(results[0].id, "67890");
    assert_eq!(results[0].url_type, UrlType::Playlist);
}

#[test]
fn test_parse_shortlink() {
    let results = parse_urls("https://2nu.gs/abc123");
    assert_eq!(results.len(), 1);
    assert_eq!(results[0].id, "abc123");
    assert_eq!(results[0].url_type, UrlType::Shortlink);
}

#[test]
fn test_parse_artist_url() {
    let results = parse_urls("https://play.nugs.net/artist/196");
    assert_eq!(results.len(), 1);
    assert_eq!(results[0].id, "196");
    assert_eq!(results[0].url_type, UrlType::Artist);
}

#[test]
fn test_parse_bare_id() {
    let results = parse_urls("12345");
    assert_eq!(results.len(), 1);
    assert_eq!(results[0].id, "12345");
    assert_eq!(results[0].url_type, UrlType::Release);
}

#[test]
fn test_parse_multiple_bare_ids() {
    let results = parse_urls("12345, 67890");
    assert_eq!(results.len(), 2);
}

#[test]
fn test_parse_invalid_input() {
    let results = parse_urls("not a url");
    assert_eq!(results.len(), 0);
}

#[test]
fn test_parse_deduplicates() {
    let results = parse_urls("https://play.nugs.net/release/12345 12345");
    assert_eq!(results.len(), 1);
}

#[test]
fn test_parse_links_come_before_bare_ids_and_keep_kinds_apart() {
    let results = parse_urls("777 https://play.nugs.net/artist/12 https://play.nugs.net/release/12,888");
    let got: Vec<(String, UrlType)> = results.iter().map(|p| (p.id.clone(), p.url_type)).collect();
    assert_eq!(
        got,
        vec![
            ("12".to_string(), UrlType::Release),
            ("12".to_string(), UrlType::Artist),
            ("777".to_string(), UrlType::Release),
            ("888".to_string(), UrlType::Release),
        ]
    );
}

#[test]
fn test_key_suffixes() {
    assert_eq!(UrlType::Release.key_suffix(), "release");
    assert_eq!(UrlType::Playlist.key_suffix(), "playlist");
    assert_eq!(UrlType::Shortlink.key_suffix(), "shortlink");
    assert_eq!(UrlType::Artist.key_suffix(), "artist");
}
