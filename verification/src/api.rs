//! Reading the answers of the nugs.net and LivePhish account APIs: the
//! access token, the legacy tokens inside it, the user id, the session
//! token and the subscriber info that streaming needs.
use vstd::prelude::*;
use chrono::TimeZone;
use crate::json::{as_bool, as_i64, as_str, get, get_opt, json_bool, json_get, json_i64, json_text, opt_ref, Json};
use crate::text::{chars_of, dec_string, fmt_dec, owned, push_str, split_char, split_on_char, str_eq, string_of, views};

verus! {

broadcast use vstd::string::group_string_axioms;

/// The parameters of a subscription that stream requests carry.
#[derive(Debug, Clone)]
pub struct StreamParams {
    pub subscription_id: String,
    pub sub_costplan_id_access_list: String,
    pub user_id: String,
    pub start_stamp: String,
    pub end_stamp: String,
}

/// Why an account answer cannot be used.
#[derive(Debug)]
pub enum AccountError {
    /// The subscription does not allow streaming content.
    NoStreamingAccess,
    /// A subscription timestamp is missing or malformed.
    InvalidTimestamp(String),
    /// The answer lacks what it should hold.
    UnexpectedResponse(String),
}

/// Stream parameters as plain values.
pub struct ParamsView {
    pub subscription_id: Seq<char>,
    pub sub_costplan_id_access_list: Seq<char>,
    pub user_id: Seq<char>,
    pub start_stamp: Seq<char>,
    pub end_stamp: Seq<char>,
}

/// An error as plain values.
pub enum ErrorView {
    NoStreamingAccess,
    InvalidTimestamp(Seq<char>),
    UnexpectedResponse(Seq<char>),
}

pub open spec fn params_view(p: StreamParams) -> ParamsView {
    ParamsView {
        subscription_id: p.subscription_id@,
        sub_costplan_id_access_list: p.sub_costplan_id_access_list@,
        user_id: p.user_id@,
        start_stamp: p.start_stamp@,
        end_stamp: p.end_stamp@,
    }
}

pub open spec fn error_view(e: AccountError) -> ErrorView {
    match e {
        AccountError::NoStreamingAccess => ErrorView::NoStreamingAccess,
        AccountError::InvalidTimestamp(m) => ErrorView::InvalidTimestamp(m@),
        AccountError::UnexpectedResponse(m) => ErrorView::UnexpectedResponse(m@),
    }
}

pub open spec fn info_view(r: Result<(StreamParams, String), AccountError>) -> Result<(ParamsView, Seq<char>), ErrorView> {
    match r {
        Ok((p, n)) => Ok((params_view(p), n@)),
        Err(e) => Err(error_view(e)),
    }
}

/// Decimal notation of a signed number (`i64::to_string`).
pub open spec fn fmt_i64(n: i64) -> Seq<char> {
    if n < 0 { seq!['-'] + fmt_dec((-(n as int)) as nat) } else { fmt_dec(n as nat) }
}

/// Decimal notation of a signed number.
pub fn i64_string(n: i64) -> (r: String)
    ensures
        r@ == fmt_i64(n),
{
    if n < 0 {
        let mag: u64 = if n == i64::MIN { 9223372036854775808u64 } else { (-n) as u64 };
        let mut r = owned("-");
        let d = dec_string(mag);
        push_str(&mut r, d.as_str());
        proof {
            reveal_strlit("-");
            assert(r@ =~= seq!['-'] + fmt_dec((-(n as int)) as nat));
        }
        r
    } else {
        dec_string(n as u64)
    }
}

/// The text when there is one, else `default`.
pub open spec fn text_or(t: Option<Seq<char>>, default: Seq<char>) -> Seq<char> {
    match t {
        Some(s) => s,
        None => default,
    }
}

fn str_or(v: Option<&Json>, default: &str) -> (r: String)
    ensures
        r@ == text_or(json_text(opt_ref(v)), default@),
{
    match as_str(v) {
        Some(s) => owned(s),
        None => owned(default),
    }
}

/// Name for what `chrono` makes of "MM/DD/YYYY HH:MM:SS" read as UTC: the
/// Unix seconds, or the message of the parse error.
pub uninterp spec fn utc_timestamp(s: Seq<char>) -> Result<i64, Seq<char>>;

/// Parse "MM/DD/YYYY HH:MM:SS" timestamp to Unix epoch seconds (UTC).
/// Calls `chrono::NaiveDateTime::parse_from_str(s, "%m/%d/%Y %H:%M:%S")`
/// and `Utc.from_utc_datetime(..).timestamp()`, the error by its `to_string`;
/// the result depends on `s` alone and is named `utc_timestamp`.
#[verifier::external_body]
pub fn parse_timestamp(s: &str) -> (r: Result<i64, String>)
    ensures
        match r {
            Ok(v) => utc_timestamp(s@) == Ok::<i64, Seq<char>>(v),
            Err(e) => utc_timestamp(s@) == Err::<i64, Seq<char>>(e@),
        },
{
    let naive = chrono::NaiveDateTime::parse_from_str(s, "%m/%d/%Y %H:%M:%S").map_err(|e| e.to_string())?;
    Ok(chrono::Utc.from_utc_datetime(&naive).timestamp())
}

/// The nugs.net subscriber info: streaming must be allowed; the start and
/// end timestamps must be there and parse; the plan is `plan`, or
/// `promo.plan` when `plan.planId` is missing or empty.
pub open spec fn spec_nugs_subscriber_info(data: Json, user_id: Seq<char>) -> Result<(ParamsView, Seq<char>), ErrorView> {
    let d = Some(data);
    if json_bool(json_get(d, "isContentAccessible"@)) != Some(true) {
        Err(ErrorView::NoStreamingAccess)
    } else {
        match (json_text(json_get(d, "startedAt"@)), json_text(json_get(d, "endsAt"@))) {
            (None, _) => Err(ErrorView::InvalidTimestamp("missing startedAt"@)),
            (Some(_), None) => Err(ErrorView::InvalidTimestamp("missing endsAt"@)),
            (Some(started), Some(ends)) => match (utc_timestamp(started), utc_timestamp(ends)) {
                (Err(e), _) => Err(ErrorView::InvalidTimestamp(e)),
                (Ok(_), Err(e)) => Err(ErrorView::InvalidTimestamp(e)),
                (Ok(start), Ok(end)) => {
                    let plan_id = json_text(json_get(json_get(d, "plan"@), "planId"@));
                    let promo = plan_id is None || plan_id.unwrap().len() == 0;
                    let plan = if promo { json_get(json_get(d, "promo"@), "plan"@) } else { json_get(d, "plan"@) };
                    Ok((
                        ParamsView {
                            subscription_id: text_or(json_text(json_get(d, "legacySubscriptionId"@)), Seq::<char>::empty()),
                            sub_costplan_id_access_list: text_or(json_text(json_get(plan, "planId"@)), Seq::<char>::empty()),
                            user_id,
                            start_stamp: fmt_i64(start),
                            end_stamp: fmt_i64(end),
                        },
                        text_or(json_text(json_get(plan, "description"@)), "Unknown Plan"@),
                    ))
                },
            },
        }
    }
}

/// Read the nugs.net subscriber info of `user_id`; returns the stream
/// parameters and the plan name.
pub fn nugs_subscriber_info(data: &Json, user_id: &str) -> (r: Result<(StreamParams, String), AccountError>)
    ensures
        info_view(r) == spec_nugs_subscriber_info(*data, user_id@),
{
    if as_bool(get(data, "isContentAccessible")) != Some(true) {
        return Err(AccountError::NoStreamingAccess);
    }
    let started = match as_str(get(data, "startedAt")) {
        Some(s) => s,
        None => {
            return Err(AccountError::InvalidTimestamp(owned("missing startedAt")));
        },
    };
    let ends = match as_str(get(data, "endsAt")) {
        Some(s) => s,
        None => {
            return Err(AccountError::InvalidTimestamp(owned("missing endsAt")));
        },
    };
    let start = match parse_timestamp(started) {
        Ok(v) => v,
        Err(e) => {
            return Err(AccountError::InvalidTimestamp(e));
        },
    };
    let end = match parse_timestamp(ends) {
        Ok(v) => v,
        Err(e) => {
            return Err(AccountError::InvalidTimestamp(e));
        },
    };
    let plan_id = as_str(get_opt(get(data, "plan"), "planId"));
    let promo = match plan_id {
        Some(p) => p.is_empty(),
        None => true,
    };
    let plan = if promo { get_opt(get(data, "promo"), "plan") } else { get(data, "plan") };
    let params = StreamParams {
        subscription_id: str_or(get(data, "legacySubscriptionId"), ""),
        sub_costplan_id_access_list: str_or(get_opt(plan, "planId"), ""),
        user_id: owned(user_id),
        start_stamp: i64_string(start),
        end_stamp: i64_string(end),
    };
    let plan_name = str_or(get_opt(plan, "description"), "Unknown Plan");
    proof {
        reveal_strlit("");
        assert(""@ =~= Seq::<char>::empty());
        let d = Some(*data);
        let sp = json_get(json_get(d, "plan"@), "planId"@);
        assert(json_text(sp) == (match plan_id { Some(p) => Some(p@), None => None }));
        assert(opt_ref(plan) == (if promo { json_get(json_get(d, "promo"@), "plan"@) } else { json_get(d, "plan"@) }));
        assert(info_view(Ok((params, plan_name))) =~= spec_nugs_subscriber_info(*data, user_id@));
    }
    Ok((params, plan_name))
}

/// A JSON value as text: a string's text, an integer's decimal notation,
/// else empty.
pub open spec fn spec_json_to_string(v: Option<Json>) -> Seq<char> {
    match json_text(v) {
        Some(s) => s,
        None => match json_i64(v) {
            Some(n) => fmt_i64(n),
            None => Seq::<char>::empty(),
        },
    }
}

/// Coerce a JSON value to String, supporting both string and integer JSON
/// types.
fn json_to_string(v: Option<&Json>) -> (r: String)
    ensures
        r@ == spec_json_to_string(opt_ref(v)),
{
    match as_str(v) {
        Some(s) => owned(s),
        None => match as_i64(v) {
            Some(n) => i64_string(n),
            None => String::new(),
        },
    }
}

/// The LivePhish subscriber info (`Response.subscriptionInfo`): streaming
/// must be allowed; ids and stamps may be strings or integers.
pub open spec fn spec_livephish_subscriber_info(data: Json) -> Result<(ParamsView, Seq<char>), ErrorView> {
    let info = json_get(json_get(Some(data), "Response"@), "subscriptionInfo"@);
    if info is None {
        Err(ErrorView::UnexpectedResponse("Missing Response.subscriptionInfo in LivePhish subscriber info"@))
    } else if json_bool(json_get(info, "canStreamSubContent"@)) != Some(true) {
        Err(ErrorView::UnexpectedResponse("LivePhish subscription does not allow streaming content"@))
    } else {
        Ok((
            ParamsView {
                subscription_id: spec_json_to_string(json_get(info, "subscriptionID"@)),
                sub_costplan_id_access_list: text_or(json_text(json_get(info, "subCostplanIDAccessList"@)), Seq::<char>::empty()),
                user_id: spec_json_to_string(json_get(info, "userID"@)),
                start_stamp: spec_json_to_string(json_get(info, "startDateStamp"@)),
                end_stamp: spec_json_to_string(json_get(info, "endDateStamp"@)),
            },
            text_or(json_text(json_get(info, "planName"@)), "Unknown Plan"@),
        ))
    }
}

/// Read the LivePhish subscriber info; returns the stream parameters and
/// the plan name.
pub fn livephish_subscriber_info(data: &Json) -> (r: Result<(StreamParams, String), AccountError>)
    ensures
        info_view(r) == spec_livephish_subscriber_info(*data),
{
    let info = match get_opt(get(data, "Response"), "subscriptionInfo") {
        Some(i) => i,
        None => {
            return Err(AccountError::UnexpectedResponse(owned("Missing Response.subscriptionInfo in LivePhish subscriber info")));
        },
    };
    if as_bool(get(info, "canStreamSubContent")) != Some(true) {
        return Err(AccountError::UnexpectedResponse(owned("LivePhish subscription does not allow streaming content")));
    }
    let params = StreamParams {
        subscription_id: json_to_string(get(info, "subscriptionID")),
        sub_costplan_id_access_list: str_or(get(info, "subCostplanIDAccessList"), ""),
        user_id: json_to_string(get(info, "userID")),
        start_stamp: json_to_string(get(info, "startDateStamp")),
        end_stamp: json_to_string(get(info, "endDateStamp")),
    };
    let plan_name = str_or(get(info, "planName"), "Unknown Plan");
    proof {
        reveal_strlit("");
        assert(""@ =~= Seq::<char>::empty());
        assert(info_view(Ok((params, plan_name))) =~= spec_livephish_subscriber_info(*data));
    }
    Ok((params, plan_name))
}

/// The session token of a LivePhish user-token answer (`Response.tokenValue`).
pub fn livephish_token(data: &Json) -> (r: Result<String, AccountError>)
    ensures
        match r {
            Ok(t) => json_text(json_get(json_get(Some(*data), "Response"@), "tokenValue"@)) == Some(t@),
            Err(e) => json_text(json_get(json_get(Some(*data), "Response"@), "tokenValue"@)) is None
                && error_view(e) == ErrorView::UnexpectedResponse("Missing Response.tokenValue in LivePhish user token response"@),
        },
{
    match as_str(get_opt(get(data, "Response"), "tokenValue")) {
        Some(t) => Ok(owned(t)),
        None => Err(AccountError::UnexpectedResponse(owned("Missing Response.tokenValue in LivePhish user token response"))),
    }
}

/// The user id of an OpenID Connect userinfo answer (`sub`).
pub fn user_id_of(data: &Json) -> (r: Result<String, AccountError>)
    ensures
        match r {
            Ok(t) => json_text(json_get(Some(*data), "sub"@)) == Some(t@),
            Err(e) => json_text(json_get(Some(*data), "sub"@)) is None
                && error_view(e) == ErrorView::UnexpectedResponse("Missing sub field in user info response"@),
        },
{
    match as_str(get(data, "sub")) {
        Some(t) => Ok(owned(t)),
        None => Err(AccountError::UnexpectedResponse(owned("Missing sub field in user info response"))),
    }
}

/// Why signing in failed.
#[derive(Debug)]
pub enum AuthError {
    /// Invalid email or password.
    InvalidCredentials,
    /// The service is temporarily unavailable.
    ServiceUnavailable,
    /// The access token is no JWT.
    InvalidJwt,
    /// The legacy tokens cannot be read from the access token.
    LegacyTokenExtraction(String),
    /// No access token is held.
    NoAccessToken,
    /// No stored credentials for a session refresh.
    NoCredentials,
    /// The sign-in answer had this HTTP status.
    HttpStatus(u16),
    /// The sign-in answer lacks `access_token`.
    MissingAccessToken,
}

/// A sign-in error as plain values.
pub enum AuthErrorView {
    InvalidCredentials,
    ServiceUnavailable,
    InvalidJwt,
    LegacyTokenExtraction(Seq<char>),
    NoAccessToken,
    NoCredentials,
    HttpStatus(u16),
    MissingAccessToken,
}

pub open spec fn auth_error_view(e: AuthError) -> AuthErrorView {
    match e {
        AuthError::InvalidCredentials => AuthErrorView::InvalidCredentials,
        AuthError::ServiceUnavailable => AuthErrorView::ServiceUnavailable,
        AuthError::InvalidJwt => AuthErrorView::InvalidJwt,
        AuthError::LegacyTokenExtraction(m) => AuthErrorView::LegacyTokenExtraction(m@),
        AuthError::NoAccessToken => AuthErrorView::NoAccessToken,
        AuthError::NoCredentials => AuthErrorView::NoCredentials,
        AuthError::HttpStatus(c) => AuthErrorView::HttpStatus(c),
        AuthError::MissingAccessToken => AuthErrorView::MissingAccessToken,
    }
}

/// The error of a refused sign-in: by the `error` field of the answer,
/// `invalid_grant` means bad credentials, `invalid_client` an unavailable
/// service; anything else is reported by its HTTP status.
pub open spec fn spec_auth_failure(status: u16, body: Option<Json>) -> AuthErrorView {
    let key = text_or(json_text(json_get(body, "error"@)), Seq::<char>::empty());
    if key == "invalid_grant"@ {
        AuthErrorView::InvalidCredentials
    } else if key == "invalid_client"@ {
        AuthErrorView::ServiceUnavailable
    } else {
        AuthErrorView::HttpStatus(status)
    }
}

/// The error for a sign-in answered with `status` (not 200) and `body`
/// (none when the body is no JSON).
pub fn auth_failure(status: u16, body: Option<&Json>) -> (r: AuthError)
    ensures
        auth_error_view(r) == spec_auth_failure(status, opt_ref(body)),
{
    let key = str_or(get_opt(body, "error"), "");
    proof {
        reveal_strlit("");
        assert(""@ =~= Seq::<char>::empty());
    }
    if str_eq(key.as_str(), "invalid_grant") {
        AuthError::InvalidCredentials
    } else if str_eq(key.as_str(), "invalid_client") {
        AuthError::ServiceUnavailable
    } else {
        AuthError::HttpStatus(status)
    }
}

/// The access token of an accepted sign-in answer.
pub fn access_token_of(data: &Json) -> (r: Result<String, AuthError>)
    ensures
        match r {
            Ok(t) => json_text(json_get(Some(*data), "access_token"@)) == Some(t@),
            Err(e) => json_text(json_get(Some(*data), "access_token"@)) is None
                && auth_error_view(e) == AuthErrorView::MissingAccessToken,
        },
{
    match as_str(get(data, "access_token")) {
        Some(t) => Ok(owned(t)),
        None => Err(AuthError::MissingAccessToken),
    }
}

/// Name for what `base64` decodes from `text` with the URL-safe alphabet
/// and no padding: the bytes, or the message of the decode error.
pub uninterp spec fn base64url_decoded(text: Seq<char>) -> Result<Seq<u8>, Seq<char>>;

/// Decodes base64url text without padding with
/// `base64::engine::general_purpose::URL_SAFE_NO_PAD`, the error by its
/// `to_string`; the result is the value `base64url_decoded` names.
#[verifier::external_body]
fn base64url_decode(text: &str) -> (r: Result<Vec<u8>, String>)
    ensures
        match r {
            Ok(b) => base64url_decoded(text@) == Ok::<Seq<u8>, Seq<char>>(b@),
            Err(e) => base64url_decoded(text@) == Err::<Seq<u8>, Seq<char>>(e@),
        },
{
    match base64::Engine::decode(&base64::engine::general_purpose::URL_SAFE_NO_PAD, text) {
        Ok(b) => Ok(b),
        Err(e) => Err(e.to_string()),
    }
}

/// Name for what `serde_json` reads from the bytes of a JSON document as
/// the string field `key` of the top-level object: none when the field is
/// missing or no string; the message of the parse error when the bytes are
/// no JSON.
pub uninterp spec fn json_bytes_string_field(bytes: Seq<u8>, key: Seq<char>) -> Result<Option<Seq<char>>, Seq<char>>;

/// Parses `bytes` with `serde_json::from_slice` to a `serde_json::Value`
/// and takes `get(key)` and `as_str`; the parse error by its `to_string`.
/// The result is the value `json_bytes_string_field` names.
#[verifier::external_body]
fn json_bytes_field(bytes: &[u8], key: &str) -> (r: Result<Option<String>, String>)
    ensures
        match r {
            Ok(Some(s)) => json_bytes_string_field(bytes@, key@) == Ok::<Option<Seq<char>>, Seq<char>>(Some(s@)),
            Ok(None) => json_bytes_string_field(bytes@, key@) == Ok::<Option<Seq<char>>, Seq<char>>(None),
            Err(e) => json_bytes_string_field(bytes@, key@) == Err::<Option<Seq<char>>, Seq<char>>(e@),
        },
{
    match serde_json::from_slice::<serde_json::Value>(bytes) {
        Ok(v) => Ok(v.get(key).and_then(|x| x.as_str()).map(|x| x.to_string())),
        Err(e) => Err(e.to_string()),
    }
}

/// A string field of the JWT payload, or the error that reading it gives.
pub open spec fn payload_field(bytes: Seq<u8>, key: Seq<char>, missing: Seq<char>) -> Result<Seq<char>, AuthErrorView> {
    match json_bytes_string_field(bytes, key) {
        Err(e) => Err(AuthErrorView::LegacyTokenExtraction(e)),
        Ok(None) => Err(AuthErrorView::LegacyTokenExtraction(missing)),
        Ok(Some(v)) => Ok(v),
    }
}

/// `legacy_token` and `legacy_uguid` of the JWT access token: its second
/// dot-separated part, base64url-decoded (no padding) and read as JSON.
pub open spec fn spec_legacy_tokens(token: Option<Seq<char>>) -> Result<(Seq<char>, Seq<char>), AuthErrorView> {
    match token {
        None => Err(AuthErrorView::NoAccessToken),
        Some(t) => {
            let parts = split_char(t, '.');
            if parts.len() < 2 {
                Err(AuthErrorView::InvalidJwt)
            } else {
                match base64url_decoded(parts[1]) {
                    Err(e) => Err(AuthErrorView::LegacyTokenExtraction(e)),
                    Ok(bytes) => match payload_field(bytes, "legacy_token"@, "missing legacy_token"@) {
                        Err(e) => Err(e),
                        Ok(lt) => match payload_field(bytes, "legacy_uguid"@, "missing legacy_uguid"@) {
                            Err(e) => Err(e),
                            Ok(lg) => Ok((lt, lg)),
                        },
                    },
                }
            }
        },
    }
}

pub open spec fn legacy_view(r: Result<(String, String), AuthError>) -> Result<(Seq<char>, Seq<char>), AuthErrorView> {
    match r {
        Ok((a, b)) => Ok((a@, b@)),
        Err(e) => Err(auth_error_view(e)),
    }
}

pub open spec fn opt_text(t: Option<&str>) -> Option<Seq<char>> {
    match t {
        Some(s) => Some(s@),
        None => None,
    }
}

fn read_payload_field(bytes: &[u8], key: &str, missing: &str) -> (r: Result<String, AuthError>)
    ensures
        match r {
            Ok(v) => payload_field(bytes@, key@, missing@) == Ok::<Seq<char>, AuthErrorView>(v@),
            Err(e) => payload_field(bytes@, key@, missing@) == Err::<Seq<char>, AuthErrorView>(auth_error_view(e)),
        },
{
    match json_bytes_field(bytes, key) {
        Err(e) => Err(AuthError::LegacyTokenExtraction(e)),
        Ok(None) => Err(AuthError::LegacyTokenExtraction(owned(missing))),
        Ok(Some(v)) => Ok(v),
    }
}

/// Extract `legacy_token` and `legacy_uguid` from the JWT access token.
pub fn extract_legacy_tokens(access_token: Option<&str>) -> (r: Result<(String, String), AuthError>)
    ensures
        legacy_view(r) == spec_legacy_tokens(opt_text(access_token)),
{
    let token = match access_token {
        Some(t) => t,
        None => return Err(AuthError::NoAccessToken),
    };
    let cs = chars_of(token);
    let parts = split_on_char(cs.as_slice(), '.');
    if parts.len() < 2 {
        return Err(AuthError::InvalidJwt);
    }
    let payload = string_of(parts[1].as_slice());
    proof {
        assert(views(parts@)[1] == parts@[1]@);
    }
    let decoded = match base64url_decode(payload.as_str()) {
        Ok(b) => b,
        Err(e) => return Err(AuthError::LegacyTokenExtraction(e)),
    };
    let lt = match read_payload_field(decoded.as_slice(), "legacy_token", "missing legacy_token") {
        Ok(v) => v,
        Err(e) => return Err(e),
    };
    let lg = match read_payload_field(decoded.as_slice(), "legacy_uguid", "missing legacy_uguid") {
        Ok(v) => v,
        Err(e) => return Err(e),
    };
    Ok((lt, lg))
}

} // verus!
