use nugs::catalog::cache::artist_id_from_cache_file;
use nugs::catalog::enrich::{enrich_step, EnrichAction, EnrichState, LookupOutcome, MAX_CONSECUTIVE_ERRORS};
use nugs::catalog::build_container_info;

fn start() -> EnrichState {
    EnrichState { enriched: 0, consecutive_errors: 0 }
}

#[test]
fn test_enrich_found_applies_and_resets_streak() {
    let st = EnrichState { enriched: 3, consecutive_errors: 4 };
    let (n, a) = enrich_step(st, &LookupOutcome::Found, false);
    assert_eq!(a, EnrichAction::ApplyAndNext);
    assert_eq!(n, EnrichState { enriched: 4, consecutive_errors: 0 });
}

#[test]
fn test_enrich_not_found_moves_on() {
    let st = EnrichState { enriched: 3, consecutive_errors: 4 };
    let (n, a) = enrich_step(st, &LookupOutcome::NotFound, false);
    assert_eq!(a, EnrichAction::Next);
    assert_eq!(n, EnrichState { enriched: 3, consecutive_errors: 0 });
}

#[test]
fn test_enrich_auth_error_aborts() {
    let (n, a) = enrich_step(start(), &LookupOutcome::Failed("setlist.fm HTTP 401".to_string()), false);
    assert_eq!(a, EnrichAction::Abort);
    assert_eq!(n, start());
    let (_, a) = enrich_step(start(), &LookupOutcome::Failed("HTTP 403 Forbidden".to_string()), false);
    assert_eq!(a, EnrichAction::Abort);
}

#[test]
fn test_enrich_rate_limit_retries_once() {
    let (n, a) = enrich_step(start(), &LookupOutcome::Failed("HTTP 429 Too Many Requests".to_string()), false);
    assert_eq!(a, EnrichAction::RetryAfterWait);
    assert_eq!(n, start());
    let (n, a) = enrich_step(start(), &LookupOutcome::Failed("HTTP 429 Too Many Requests".to_string()), true);
    assert_eq!(a, EnrichAction::Next);
    assert_eq!(n.consecutive_errors, 1);
    let (_, a) = enrich_step(start(), &LookupOutcome::Failed("HTTP 502 Bad Gateway".to_string()), false);
    assert_eq!(a, EnrichAction::RetryAfterWait);
}

#[test]
fn test_enrich_error_streak_aborts_at_limit() {
    let mut st = start();
    for i in 1..MAX_CONSECUTIVE_ERRORS {
        let (n, a) = enrich_step(st, &LookupOutcome::Failed("connection reset".to_string()), false);
        assert_eq!(a, EnrichAction::Next);
        assert_eq!(n.consecutive_errors, i);
        st = n;
    }
    let (n, a) = enrich_step(st, &LookupOutcome::Failed("connection reset".to_string()), false);
    assert_eq!(a, EnrichAction::Abort);
    assert_eq!(n.consecutive_errors, MAX_CONSECUTIVE_ERRORS);
}

#[test]
fn test_build_container_info() {
    assert_eq!(build_container_info("1977-05-08", "Barton Hall", "Betty Board"), "1977-05-08 Barton Hall (Betty Board)");
    assert_eq!(build_container_info("1977-05-08", "", ""), "1977-05-08");
    assert_eq!(build_container_info("", "Barton Hall", "SBD"), "Barton Hall (SBD)");
    assert_eq!(build_container_info("", "", "SBD"), "(SBD)");
    assert_eq!(build_container_info("", "", ""), "");
}

#[test]
fn test_artist_id_from_cache_file() {
    assert_eq!(artist_id_from_cache_file("catalog_196.json"), Some(196));
    assert_eq!(artist_id_from_cache_file("catalog_-1.json"), Some(-1));
    assert_eq!(artist_id_from_cache_file("catalog_bman.json"), None);
    assert_eq!(artist_id_from_cache_file("artists.json"), None);
}
