use base64::Engine;
use nugs::api::{
    access_token_of, auth_failure, extract_legacy_tokens, i64_string, livephish_subscriber_info, livephish_token,
    nugs_subscriber_info, parse_timestamp, user_id_of, AccountError, AuthError,
};
use nugs::json::Json;

fn to_json(v: &serde_json::Value) -> Json {
    match v {
        serde_json::Value::Null => Json::Null,
        serde_json::Value::Bool(b) => Json::Bool(*b),
        serde_json::Value::Number(n) => Json::Number(n.to_string()),
        serde_json::Value::String(s) => Json::Str(s.clone()),
        serde_json::Value::Array(a) => Json::Array(a.iter().map(to_json).collect()),
        serde_json::Value::Object(m) => Json::Object(m.iter().map(|(k, v)| (k.clone(), to_json(v))).collect()),
    }
}

fn parse(text: &str) -> Json {
    to_json(&serde_json::from_str::<serde_json::Value>(text).unwrap())
}

fn sub_info_json(sub_id: &str, plan_id: &str, plan_desc: &str) -> Json {
    parse(&format!(
        r#"{{"isContentAccessible": true, "legacySubscriptionId": "{sub_id}", "startedAt": "01/15/2025 12:00:00",
            "endsAt": "01/15/2026 12:00:00", "plan": {{"planId": "{plan_id}", "description": "{plan_desc}"}}}}"#
    ))
}

#[test]
fn test_timestamp_parsing_utc() {
    let timestamp = parse_timestamp("01/15/2025 12:00:00").unwrap();
    let dt = chrono::DateTime::from_timestamp(timestamp, 0).unwrap();
    assert_eq!(dt.format("%Y-%m-%d %H:%M:%S").to_string(), "2025-01-15 12:00:00");
}

#[test]
fn test_timestamp_parsing_rejects_other_formats() {
    assert!(parse_timestamp("2025-01-15 12:00:00").is_err());
    assert!(parse_timestamp("").is_err());
}

#[test]
fn test_get_subscriber_info_success() {
    let (params, plan_name) = nugs_subscriber_info(&sub_info_json("sub_123", "plan_456", "Premium Annual"), "user_123").unwrap();
    assert_eq!(params.subscription_id, "sub_123");
    assert_eq!(params.sub_costplan_id_access_list, "plan_456");
    assert_eq!(params.user_id, "user_123");
    assert_eq!(params.start_stamp, "1736942400");
    assert_eq!(params.end_stamp, "1768478400");
    assert_eq!(plan_name, "Premium Annual");
}

#[test]
fn test_get_subscriber_info_no_subscription() {
    let body = parse(
        r#"{"isContentAccessible": false, "legacySubscriptionId": "sub_123",
            "startedAt": "01/15/2025 12:00:00", "endsAt": "01/15/2026 12:00:00"}"#,
    );
    let err = nugs_subscriber_info(&body, "user_123").unwrap_err();
    assert!(matches!(err, AccountError::NoStreamingAccess));
}

#[test]
fn test_subscriber_info_promo_plan_and_bad_stamps() {
    let body = parse(
        r#"{"isContentAccessible": true, "startedAt": "01/15/2025 12:00:00", "endsAt": "01/15/2026 12:00:00",
            "plan": {"planId": ""}, "promo": {"plan": {"planId": "promo_9", "description": "Trial"}}}"#,
    );
    let (params, name) = nugs_subscriber_info(&body, "u").unwrap();
    assert_eq!(params.subscription_id, "");
    assert_eq!(params.sub_costplan_id_access_list, "promo_9");
    assert_eq!(name, "Trial");

    let no_plan = parse(r#"{"isContentAccessible": true, "startedAt": "01/15/2025 12:00:00", "endsAt": "01/15/2026 12:00:00"}"#);
    let (params, name) = nugs_subscriber_info(&no_plan, "u").unwrap();
    assert_eq!(params.sub_costplan_id_access_list, "");
    assert_eq!(name, "Unknown Plan");

    let missing = parse(r#"{"isContentAccessible": true, "endsAt": "01/15/2026 12:00:00"}"#);
    match nugs_subscriber_info(&missing, "u") {
        Err(AccountError::InvalidTimestamp(m)) => assert_eq!(m, "missing startedAt"),
        other => panic!("unexpected {:?}", other),
    }
    let bad = parse(r#"{"isContentAccessible": true, "startedAt": "soon", "endsAt": "01/15/2026 12:00:00"}"#);
    assert!(matches!(nugs_subscriber_info(&bad, "u"), Err(AccountError::InvalidTimestamp(_))));
}

#[test]
fn test_livephish_subscriber_info() {
    let body = parse(
        r#"{"Response": {"subscriptionInfo": {"canStreamSubContent": true, "subscriptionID": 4242,
            "subCostplanIDAccessList": "100,200", "userID": "u77", "startDateStamp": 1700000000,
            "endDateStamp": "1800000000", "planName": "LivePhish+"}}}"#,
    );
    let (params, name) = livephish_subscriber_info(&body).unwrap();
    assert_eq!(params.subscription_id, "4242");
    assert_eq!(params.sub_costplan_id_access_list, "100,200");
    assert_eq!(params.user_id, "u77");
    assert_eq!(params.start_stamp, "1700000000");
    assert_eq!(params.end_stamp, "1800000000");
    assert_eq!(name, "LivePhish+");

    let no_stream = parse(r#"{"Response": {"subscriptionInfo": {"canStreamSubContent": false}}}"#);
    match livephish_subscriber_info(&no_stream) {
        Err(AccountError::UnexpectedResponse(m)) => assert_eq!(m, "LivePhish subscription does not allow streaming content"),
        other => panic!("unexpected {:?}", other),
    }
    assert!(matches!(livephish_subscriber_info(&parse("{}")), Err(AccountError::UnexpectedResponse(_))));
    let floats = parse(r#"{"Response": {"subscriptionInfo": {"canStreamSubContent": true, "userID": 1.5}}}"#);
    let (params, name) = livephish_subscriber_info(&floats).unwrap();
    assert_eq!(params.user_id, "");
    assert_eq!(name, "Unknown Plan");
}

#[test]
fn test_tokens_and_user_ids() {
    assert_eq!(livephish_token(&parse(r#"{"Response": {"tokenValue": "abc"}}"#)).unwrap(), "abc");
    assert!(livephish_token(&parse(r#"{"Response": {}}"#)).is_err());
    assert_eq!(user_id_of(&parse(r#"{"sub": "user_123"}"#)).unwrap(), "user_123");
    assert!(user_id_of(&parse(r#"{"sub": 5}"#)).is_err());
}

#[test]
fn test_i64_string() {
    for n in [0i64, 7, -7, 1234567890, i64::MAX, i64::MIN] {
        assert_eq!(i64_string(n), n.to_string());
    }
}

fn b64(bytes: &[u8]) -> String {
    base64::engine::general_purpose::URL_SAFE_NO_PAD.encode(bytes)
}

fn object(fields: &[(&str, &str)]) -> serde_json::Map<String, serde_json::Value> {
    let mut m = serde_json::Map::new();
    for (k, v) in fields {
        m.insert(k.to_string(), serde_json::Value::String(v.to_string()));
    }
    m
}

/// A JWT with the given payload.
fn make_jwt(payload: &serde_json::Value) -> String {
    let header = b64(r#"{"alg":"RS256"}"#.as_bytes());
    format!("{}.{}.{}", header, b64(payload.to_string().as_bytes()), b64(b"signature"))
}

/// A JWT whose unpadded payload text has length `target_mod` modulo 4.
fn make_jwt_with_padding(fields: &[(&str, &str)], target_mod: usize) -> (String, serde_json::Value) {
    for i in 0..20 {
        let mut payload = object(fields);
        if i > 0 {
            payload.insert("pad".to_string(), serde_json::Value::String("x".repeat(i)));
        }
        let value = serde_json::Value::Object(payload);
        let encoded = b64(value.to_string().as_bytes());
        if encoded.len() % 4 == target_mod {
            let jwt = format!("{}.{}.{}", b64(r#"{"alg":"RS256"}"#.as_bytes()), encoded, b64(b"signature"));
            return (jwt, value);
        }
    }
    panic!("Could not construct JWT with payload len%4=={}", target_mod);
}

#[test]
fn test_extract_legacy_tokens() {
    let payload = serde_json::Value::Object(object(&[
        ("legacy_token", "legacy_abc123"),
        ("legacy_uguid", "guid-456"),
        ("sub", "user_789"),
    ]));
    let token = make_jwt(&payload);
    let (legacy_token, legacy_uguid) = extract_legacy_tokens(Some(token.as_str())).unwrap();
    assert_eq!(legacy_token, "legacy_abc123");
    assert_eq!(legacy_uguid, "guid-456");
}

#[test]
fn test_jwt_padding_aligned() {
    let (jwt_token, payload) = make_jwt_with_padding(&[("legacy_token", "tok_a"), ("legacy_uguid", "uid_a")], 0);
    let parts: Vec<&str> = jwt_token.split('.').collect();
    assert_eq!(parts[1].len() % 4, 0);
    let (lt, lg) = extract_legacy_tokens(Some(jwt_token.as_str())).unwrap();
    assert_eq!(lt, payload["legacy_token"].as_str().unwrap());
    assert_eq!(lg, payload["legacy_uguid"].as_str().unwrap());
}

#[test]
fn test_jwt_padding_needs_two() {
    let (jwt_token, payload) = make_jwt_with_padding(&[("legacy_token", "tok_b"), ("legacy_uguid", "uid_b")], 2);
    let parts: Vec<&str> = jwt_token.split('.').collect();
    assert_eq!(parts[1].len() % 4, 2);
    let (lt, lg) = extract_legacy_tokens(Some(jwt_token.as_str())).unwrap();
    assert_eq!(lt, payload["legacy_token"].as_str().unwrap());
    assert_eq!(lg, payload["legacy_uguid"].as_str().unwrap());
}

#[test]
fn test_jwt_padding_needs_one() {
    let (jwt_token, payload) = make_jwt_with_padding(&[("legacy_token", "tok_c"), ("legacy_uguid", "uid_c")], 3);
    let parts: Vec<&str> = jwt_token.split('.').collect();
    assert_eq!(parts[1].len() % 4, 3);
    let (lt, lg) = extract_legacy_tokens(Some(jwt_token.as_str())).unwrap();
    assert_eq!(lt, payload["legacy_token"].as_str().unwrap());
    assert_eq!(lg, payload["legacy_uguid"].as_str().unwrap());
}

#[test]
fn test_legacy_token_errors() {
    assert!(matches!(extract_legacy_tokens(None), Err(AuthError::NoAccessToken)));
    assert!(matches!(extract_legacy_tokens(Some("no-dots-here")), Err(AuthError::InvalidJwt)));
    // "!!" is no base64.
    assert!(matches!(extract_legacy_tokens(Some("a.!!.c")), Err(AuthError::LegacyTokenExtraction(_))));
    // Valid base64 of text that is no JSON.
    let not_json = format!("a.{}.c", b64(b"hello"));
    assert!(matches!(extract_legacy_tokens(Some(not_json.as_str())), Err(AuthError::LegacyTokenExtraction(_))));
    let only_token = format!("a.{}.c", b64(br#"{"legacy_token":"t"}"#));
    match extract_legacy_tokens(Some(only_token.as_str())) {
        Err(AuthError::LegacyTokenExtraction(m)) => assert_eq!(m, "missing legacy_uguid"),
        other => panic!("unexpected {:?}", other),
    }
    let no_token = format!("a.{}.c", b64(br#"{"legacy_token":5,"legacy_uguid":"g"}"#));
    match extract_legacy_tokens(Some(no_token.as_str())) {
        Err(AuthError::LegacyTokenExtraction(m)) => assert_eq!(m, "missing legacy_token"),
        other => panic!("unexpected {:?}", other),
    }
}

#[test]
fn test_auth_failure_mapping() {
    assert!(matches!(auth_failure(400, Some(&parse(r#"{"error":"invalid_grant"}"#))), AuthError::InvalidCredentials));
    assert!(matches!(auth_failure(401, Some(&parse(r#"{"error":"invalid_client"}"#))), AuthError::ServiceUnavailable));
    assert!(matches!(auth_failure(403, Some(&parse(r#"{"error":"other"}"#))), AuthError::HttpStatus(403)));
    assert!(matches!(auth_failure(502, None), AuthError::HttpStatus(502)));
}

#[test]
fn test_access_token_of() {
    assert_eq!(access_token_of(&parse(r#"{"access_token":"abc.def.ghi"}"#)).unwrap(), "abc.def.ghi");
    assert!(matches!(access_token_of(&parse(r#"{"token":"x"}"#)), Err(AuthError::MissingAccessToken)));
}
