use nugs::bman::setlistfm::extract::{extract_songs, extract_venue, full_result};
use nugs::json::Json;

/// The library's JSON model of a parsed document.
fn to_json(v: &serde_json::Value) -> Json {
    match v {
        serde_json::Value::Null => Json::Null,
        serde_json::Value::Bool(b) => Json::Bool(*b),
        serde_json::Value::Number(n) => Json::Number(n.to_string()),
        serde_json::Value::String(s) => Json::Str(s.clone()),
        serde_json::Value::Array(a) => Json::Array(a.iter().map(to_json).collect()),
        serde_json::Value::Object(m) => Json::Object(m.iter().map(|(k, v)| (k.clone(), to_json(v))).collect()),
    }
}

fn parse(text: &str) -> Json {
    to_json(&serde_json::from_str::<serde_json::Value>(text).unwrap())
}

fn make_setlist_body(songs: &[&str]) -> Json {
    let song_arr: Vec<serde_json::Value> =
        songs.iter().map(|name| serde_json::Value::Object(std::iter::once(("name".to_string(), serde_json::Value::String(name.to_string()))).collect())).collect();
    let text = format!(
        r#"{{"setlist": [{{"sets": {{"set": [{{"song": {}}}]}}}}]}}"#,
        serde_json::to_string(&song_arr).unwrap()
    );
    parse(&text)
}

#[test]
fn test_extract_songs_basic() {
    let body = make_setlist_body(&["Scarlet Begonias", "Fire on the Mountain", "Eyes of the World"]);
    let songs = extract_songs(&body).unwrap();
    assert_eq!(songs, vec!["Scarlet Begonias", "Fire on the Mountain", "Eyes of the World"]);
}

#[test]
fn test_extract_songs_multi_set() {
    let body = parse(
        r#"{"setlist": [{"sets": {"set": [
            {"song": [{"name": "Song A"}, {"name": "Song B"}]},
            {"song": [{"name": "Song C"}]}
        ]}}]}"#,
    );
    let songs = extract_songs(&body).unwrap();
    assert_eq!(songs, vec!["Song A", "Song B", "Song C"]);
}

#[test]
fn test_extract_songs_empty_sets() {
    let body = parse(r#"{"setlist": [{"sets": {"set": []}}]}"#);
    assert!(extract_songs(&body).is_none());
}

#[test]
fn test_extract_songs_no_setlists() {
    let body = parse(r#"{"setlist": []}"#);
    assert!(extract_songs(&body).is_none());
}

#[test]
fn test_extract_songs_missing_setlist_key() {
    let body = parse(r#"{}"#);
    assert!(extract_songs(&body).is_none());
}

#[test]
fn test_extract_songs_skips_empty_names() {
    let body = parse(r#"{"setlist": [{"sets": {"set": [{"song": [{"name": ""}, {"name": "Real Song"}, {"name": "  "}]}]}}]}"#);
    let songs = extract_songs(&body).unwrap();
    assert_eq!(songs, vec!["Real Song"]);
}

fn make_venue_body(venue: &str, city: &str, state_code: &str) -> Json {
    parse(&format!(
        r#"{{"setlist": [{{"venue": {{"name": "{venue}", "city": {{"name": "{city}", "stateCode": "{state_code}", "state": "Full State Name", "country": {{"code": "US", "name": "United States"}}}}}}, "sets": {{"set": []}}}}]}}"#
    ))
}

#[test]
fn test_extract_venue_full() {
    let body = make_venue_body("Barton Hall", "Ithaca", "NY");
    let venue = extract_venue(&body).unwrap();
    assert_eq!(venue.venue_name, "Barton Hall");
    assert_eq!(venue.city, "Ithaca");
    assert_eq!(venue.state, "NY");
}

#[test]
fn test_extract_venue_no_state_code_uses_state() {
    let body = parse(
        r#"{"setlist": [{"venue": {"name": "Wembley Stadium", "city": {"name": "London", "state": "England",
            "country": {"code": "GB", "name": "United Kingdom"}}}, "sets": {"set": []}}]}"#,
    );
    let venue = extract_venue(&body).unwrap();
    assert_eq!(venue.venue_name, "Wembley Stadium");
    assert_eq!(venue.city, "London");
    assert_eq!(venue.state, "England");
}

#[test]
fn test_extract_venue_empty_venue_name_with_city() {
    let body = parse(r#"{"setlist": [{"venue": {"name": "", "city": {"name": "San Francisco", "stateCode": "CA"}}, "sets": {"set": []}}]}"#);
    let venue = extract_venue(&body).unwrap();
    assert_eq!(venue.venue_name, "");
    assert_eq!(venue.city, "San Francisco");
    assert_eq!(venue.state, "CA");
}

#[test]
fn test_extract_venue_no_venue_object() {
    let body = parse(r#"{"setlist": [{"sets": {"set": []}}]}"#);
    assert!(extract_venue(&body).is_none());
}

#[test]
fn test_extract_venue_empty_response() {
    let body = parse(r#"{"setlist": []}"#);
    assert!(extract_venue(&body).is_none());
}

#[test]
fn test_extract_venue_all_empty() {
    let body = parse(r#"{"setlist": [{"venue": {"name": "", "city": {"name": ""}}, "sets": {"set": []}}]}"#);
    assert!(extract_venue(&body).is_none());
}

#[test]
fn test_full_result_needs_venue_or_songs() {
    assert!(full_result(&parse(r#"{"setlist": [{"sets": {"set": []}}]}"#)).is_none());
    let songs_only = full_result(&make_setlist_body(&["Bertha"])).unwrap();
    assert_eq!(songs_only.venue.venue_name, "");
    assert_eq!(songs_only.songs, vec!["Bertha"]);
    let venue_only = full_result(&make_venue_body(" Barton Hall ", "Ithaca", "NY")).unwrap();
    assert_eq!(venue_only.venue.venue_name, "Barton Hall");
    assert!(venue_only.songs.is_empty());
}
