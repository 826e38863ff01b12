use nugs::bman::setlistfm::urlencoding;
use nugs::bman::setlistfm::{convert_date, SetlistFmKeys, SetlistVenue, SfmCache, SfmStatus};

#[test]
fn test_convert_date_standard() {
    assert_eq!(convert_date("1977-05-08").unwrap(), "08-05-1977");
}

#[test]
fn test_convert_date_leading_zeros() {
    assert_eq!(convert_date("2003-01-02").unwrap(), "02-01-2003");
}

#[test]
fn test_convert_date_invalid_format() {
    assert!(convert_date("1977/05/08").is_err());
    assert!(convert_date("77-05-08").is_err());
    assert!(convert_date("").is_err());
    assert!(convert_date("not-a-date").is_err());
}

#[test]
fn test_url_encode_plain() {
    assert_eq!(urlencoding::encode("Grateful Dead"), "Grateful%20Dead");
}

#[test]
fn test_url_encode_special_chars() {
    assert_eq!(urlencoding::encode("08-05-1977"), "08-05-1977");
}

#[test]
fn test_url_encode_already_safe() {
    assert_eq!(urlencoding::encode("abc123"), "abc123");
}

#[test]
fn test_keys_from_comma_separated_basic() {
    let keys = SetlistFmKeys::from_comma_separated("aaa,bbb,ccc");
    assert_eq!(keys.len(), 3);
    assert_eq!(keys.current_key(), Some("aaa"));
}

#[test]
fn test_keys_trims_whitespace() {
    let keys = SetlistFmKeys::from_comma_separated("  aaa , bbb , ccc  ");
    assert_eq!(keys.len(), 3);
    assert_eq!(keys.current_key(), Some("aaa"));
}

#[test]
fn test_keys_filters_empty() {
    let keys = SetlistFmKeys::from_comma_separated("aaa,,bbb,,,");
    assert_eq!(keys.len(), 2);
}

#[test]
fn test_keys_dedup() {
    let keys = SetlistFmKeys::from_comma_separated("aaa,bbb,aaa,ccc,bbb");
    assert_eq!(keys.len(), 3);
    assert_eq!(keys.current_key(), Some("aaa"));
}

#[test]
fn test_keys_single_key_compat() {
    let mut keys = SetlistFmKeys::from_comma_separated("single-key");
    assert_eq!(keys.len(), 1);
    assert_eq!(keys.current_key(), Some("single-key"));
    assert_eq!(keys.rotate(), 0); // wraps back to index 0
    assert_eq!(keys.current_key(), Some("single-key"));
}

#[test]
fn test_keys_empty_string() {
    let keys = SetlistFmKeys::from_comma_separated("");
    assert!(keys.is_empty());
    assert_eq!(keys.current_key(), None);
}

#[test]
fn test_keys_rotation_wraps() {
    let mut keys = SetlistFmKeys::from_comma_separated("k1,k2,k3");
    assert_eq!(keys.current_key(), Some("k1"));
    assert_eq!(keys.key_label(), "key 1/3");

    assert_eq!(keys.rotate(), 1);
    assert_eq!(keys.current_key(), Some("k2"));
    assert_eq!(keys.key_label(), "key 2/3");

    assert_eq!(keys.rotate(), 2);
    assert_eq!(keys.current_key(), Some("k3"));
    assert_eq!(keys.key_label(), "key 3/3");

    // Wraps back to first key
    assert_eq!(keys.rotate(), 0);
    assert_eq!(keys.current_key(), Some("k1"));
    assert_eq!(keys.key_label(), "key 1/3");
}

#[test]
fn test_keys_single_wraps() {
    let mut keys = SetlistFmKeys::from_comma_separated("only");
    assert_eq!(keys.rotate(), 0);
    assert_eq!(keys.current_key(), Some("only"));
}

#[test]
fn test_cache_key_normalization() {
    let key = SfmCache::cache_key("Grateful Dead", "1977-05-08").unwrap();
    assert_eq!(key, "grateful dead:08-05-1977");

    // Whitespace trimmed
    let key2 = SfmCache::cache_key("  Grateful Dead  ", "1977-05-08").unwrap();
    assert_eq!(key2, "grateful dead:08-05-1977");

    // Case insensitive
    let key3 = SfmCache::cache_key("GRATEFUL DEAD", "1977-05-08").unwrap();
    assert_eq!(key3, "grateful dead:08-05-1977");
}

#[test]
fn test_cache_key_invalid_date() {
    assert!(SfmCache::cache_key("Grateful Dead", "bad-date").is_err());
}

#[test]
fn url_encode_escapes_reserved_and_multibyte() {
    assert_eq!(urlencoding::encode("a&b=c/d"), "a%26b%3Dc%2Fd");
    assert_eq!(urlencoding::encode("~._-"), "~._-");
    assert_eq!(urlencoding::encode("\u{e9}"), "%C3%A9");
}

#[test]
fn convert_date_rejects_wrong_part_lengths() {
    assert!(convert_date("1977-5-08").is_err());
    assert!(convert_date("1977-05-08-01").is_err());
    assert_eq!(convert_date("abcd-ef-gh").unwrap(), "gh-ef-abcd");
}

#[test]
fn key_label_when_empty() {
    let keys = SetlistFmKeys::from_comma_separated(" , ,");
    assert!(keys.is_empty());
    assert_eq!(keys.len(), 0);
}

fn venue() -> SetlistVenue {
    SetlistVenue {
        venue_name: "Barton Hall".to_string(),
        city: "Ithaca".to_string(),
        state: "NY".to_string(),
    }
}

#[test]
fn cache_insert_then_lookup_is_case_and_space_insensitive() {
    let mut cache = SfmCache::from_entries("dir".to_string(), Vec::new());
    assert_eq!(cache.len(), 0);
    assert!(!cache.dirty());
    cache.insert_at(
        "Grateful Dead",
        "1977-05-08",
        SfmStatus::Found { songs: vec!["Scarlet Begonias".to_string()], venue: venue() },
        1000,
    );
    assert!(cache.dirty());
    assert_eq!(cache.len(), 1);
    match cache.lookup_at("  GRATEFUL DEAD ", "1977-05-08", 1000) {
        Some(SfmStatus::Found { songs, venue }) => {
            assert_eq!(songs, &vec!["Scarlet Begonias".to_string()]);
            assert_eq!(venue.city, "Ithaca");
        }
        _ => panic!("expected a found entry"),
    }
    assert!(cache.lookup_at("Grateful Dead", "1977-05-09", 1000).is_none());
    cache.mark_saved();
    assert!(!cache.dirty());
}

#[test]
fn cache_not_found_expires_after_ttl() {
    let mut cache = SfmCache::from_entries("dir".to_string(), Vec::new());
    cache.insert_at("Phish", "1997-12-31", SfmStatus::NotFound, 100);
    assert!(matches!(cache.lookup_at("Phish", "1997-12-31", 100), Some(SfmStatus::NotFound)));
    assert!(cache.lookup_at("Phish", "1997-12-31", 100 + 7_776_000 + 1).is_none());
    let (hits, expired, total) = cache.stats_at(100 + 7_776_000 + 1);
    assert_eq!((hits, expired, total), (0, 1, 1));
    cache.clear_not_found();
    assert_eq!(cache.len(), 0);
}

#[test]
fn cache_insert_replaces_existing_entry() {
    let mut cache = SfmCache::from_entries("dir".to_string(), Vec::new());
    cache.insert_at("Phish", "1997-12-31", SfmStatus::NotFound, 5);
    cache.insert_at("phish", "1997-12-31", SfmStatus::Found { songs: vec![], venue: venue() }, 6);
    assert_eq!(cache.len(), 1);
    assert_eq!(cache.stats_at(6), (1, 0, 1));
}

#[test]
fn cache_clear_matching_keeps_others() {
    let mut cache = SfmCache::from_entries("dir".to_string(), Vec::new());
    cache.insert_at("Phish", "1997-12-31", SfmStatus::NotFound, 5);
    cache.insert_at("Grateful Dead", "1977-05-08", SfmStatus::NotFound, 5);
    cache.clear_matching(|k: &str| k.starts_with("phish"));
    assert_eq!(cache.len(), 1);
    assert!(cache.lookup_at("Grateful Dead", "1977-05-08", 5).is_some());
    assert!(cache.lookup_at("Phish", "1997-12-31", 5).is_none());
}

use nugs::bman::setlistfm::{rotation_step, search_url, RotationAction, RotationState};

#[test]
fn test_search_url_encodes_artist_and_date() {
    assert_eq!(
        search_url("Grateful Dead", "1977-05-08").unwrap(),
        "https://api.setlist.fm/rest/1.0/search/setlists?artistName=Grateful%20Dead&date=08-05-1977"
    );
    assert!(search_url("Phish", "77-05-08").is_err());
}

#[test]
fn test_rotation_429_backoff_grows_and_gives_up_after_all_keys() {
    let mut st = RotationState { retried_5xx: false, consecutive_429s: 0 };
    let mut waits = Vec::new();
    loop {
        let (n, a) = rotation_step(st, 7, "setlist.fm returned HTTP 429 Too Many Requests");
        st = n;
        match a {
            RotationAction::RotateAndWait { backoff_secs } => waits.push(backoff_secs),
            RotationAction::Fail(m) => {
                assert_eq!(m, "setlist.fm: all API keys exhausted (429 on every key)");
                break;
            }
            other => panic!("unexpected {:?}", other),
        }
    }
    assert_eq!(waits, vec![2, 4, 8, 16, 30, 30]);
    assert_eq!(st.consecutive_429s, 7);
}

#[test]
fn test_rotation_5xx_retried_once() {
    let st = RotationState { retried_5xx: false, consecutive_429s: 0 };
    let (st, a) = rotation_step(st, 2, "setlist.fm returned HTTP 503 Service Unavailable");
    assert!(matches!(a, RotationAction::WaitAndRetry { secs: 3 }));
    assert!(st.retried_5xx);
    let (_, a) = rotation_step(st, 2, "setlist.fm returned HTTP 502 Bad Gateway");
    match a {
        RotationAction::Fail(m) => assert_eq!(m, "setlist.fm returned HTTP 502 Bad Gateway"),
        other => panic!("unexpected {:?}", other),
    }
    let (_, a) = rotation_step(RotationState { retried_5xx: false, consecutive_429s: 0 }, 2, "setlist.fm request failed: timeout");
    assert!(matches!(a, RotationAction::Fail(_)));
}
