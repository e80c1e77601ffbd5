use base64::Engine;
use handy::codex::{
    account_status_after_refresh, codex_headers, exchange_form, exchange_http_error,
    format_login_id, login_id, refresh_form,
    poll_interval, refresh_step, status_from_tokens, token_needs_refresh, token_needs_refresh_at,
    tokens_from_exchange, AcceptKind, RefreshStep, StoredTokens, DEFAULT_POLL_INTERVAL,
};
use handy::json::{JsonNumber, JsonValue};
use handy::jwt::{access_token_expiry, account_id_from_access_token, identity_from_id_token, jwt_payload};

fn jwt(payload_json: &str) -> String {
    let payload = base64::engine::general_purpose::URL_SAFE_NO_PAD.encode(payload_json.as_bytes());
    format!("x.{payload}.y")
}

fn tokens(access: &str) -> StoredTokens {
    StoredTokens {
        access_token: access.to_string(),
        refresh_token: "refresh-old".to_string(),
        id_token: None,
        account_id: "acct_old".to_string(),
        email: Some("old@example.com".to_string()),
        plan_type: Some("free".to_string()),
    }
}

#[test]
fn parses_account_claim_and_identity() {
    let access = jwt(
        r#"{"exp":4000000000,"https://api.openai.com/auth":{"chatgpt_account_id":"acct_123"}}"#,
    );
    let id = jwt(
        r#"{"email":"person@example.com","https://api.openai.com/auth":{"chatgpt_plan_type":"plus"}}"#,
    );

    assert_eq!(account_id_from_access_token(&access).as_deref(), Some("acct_123"));
    assert_eq!(
        identity_from_id_token(Some(&id)),
        (Some("person@example.com".to_string()), Some("plus".to_string()))
    );
}

#[test]
fn accepts_string_and_numeric_poll_intervals() {
    assert_eq!(poll_interval(Some(&JsonValue::Str("7".to_string()))), 7);
    assert_eq!(
        poll_interval(Some(&JsonValue::Number(JsonNumber { int64: Some(9), uint64: Some(9) }))),
        9
    );
    assert_eq!(poll_interval(None), DEFAULT_POLL_INTERVAL);
}

#[test]
fn poll_interval_is_clamped_and_trimmed() {
    assert_eq!(poll_interval(Some(&JsonValue::Str(" 12 ".to_string()))), 12);
    assert_eq!(poll_interval(Some(&JsonValue::Str("+3".to_string()))), 3);
    assert_eq!(poll_interval(Some(&JsonValue::Str("0".to_string()))), 1);
    assert_eq!(poll_interval(Some(&JsonValue::Str("600".to_string()))), 60);
    assert_eq!(poll_interval(Some(&JsonValue::Str("-4".to_string()))), 5);
    assert_eq!(poll_interval(Some(&JsonValue::Str("99999999999999999999".to_string()))), 5);
    assert_eq!(poll_interval(Some(&JsonValue::Bool(true))), 5);
    assert_eq!(
        poll_interval(Some(&JsonValue::Number(JsonNumber { int64: Some(-3), uint64: None }))),
        5
    );
}

#[test]
fn poll_interval_string_matches_number() {
    for n in 0u64..70 {
        let as_text = poll_interval(Some(&JsonValue::Str(n.to_string())));
        let as_number =
            poll_interval(Some(&JsonValue::Number(JsonNumber { int64: Some(n as i64), uint64: Some(n) })));
        assert_eq!(as_text, as_number);
    }
}

#[test]
fn reads_expiry_and_missing_claims() {
    let access = jwt(r#"{"exp":1700000000}"#);
    assert_eq!(access_token_expiry(&access), Some(1700000000));
    assert_eq!(account_id_from_access_token(&access), None);
    assert_eq!(access_token_expiry("no-dots-here"), None);
    assert_eq!(access_token_expiry("x.!!!.y"), None);
    assert!(jwt_payload("x.e30").is_some());
    assert!(jwt_payload("x.e30.y.z").is_some());
    assert!(jwt_payload("x").is_none());
}

#[test]
fn identity_falls_back_to_profile_email() {
    let id = jwt(r#"{"https://api.openai.com/profile":{"email":"p@example.com"}}"#);
    assert_eq!(identity_from_id_token(Some(&id)), (Some("p@example.com".to_string()), None));
    assert_eq!(identity_from_id_token(None), (None, None));
    assert_eq!(identity_from_id_token(Some("garbage")), (None, None));
}

#[test]
fn refresh_timing_uses_five_minute_leeway() {
    let access = jwt(r#"{"exp":1000}"#);
    assert!(token_needs_refresh_at(&access, 700));
    assert!(!token_needs_refresh_at(&access, 699));
    assert!(token_needs_refresh_at(&access, 5000));
    assert!(token_needs_refresh_at("not-a-jwt", 0));
    assert!(token_needs_refresh("not-a-jwt"));
    let far = jwt(r#"{"exp":4000000000}"#);
    assert!(!token_needs_refresh(&far));
}

#[test]
fn status_reflects_tokens() {
    let s = status_from_tokens(Some(tokens("a")));
    assert!(s.runtime_installed && s.signed_in);
    assert_eq!(s.email.as_deref(), Some("old@example.com"));
    assert_eq!(s.plan_type.as_deref(), Some("free"));
    let s = status_from_tokens(None);
    assert!(s.runtime_installed && !s.signed_in && s.email.is_none() && s.plan_type.is_none());
}

#[test]
fn signed_out_errors_become_signed_out_status() {
    let s = account_status_after_refresh(Err("CHATGPT_REAUTH_REQUIRED".to_string())).unwrap();
    assert!(!s.signed_in);
    let s = account_status_after_refresh(Err("CHATGPT_NOT_AUTHORIZED".to_string())).unwrap();
    assert!(!s.signed_in);
    let e = account_status_after_refresh(Err("network down".to_string())).err();
    assert_eq!(e.as_deref(), Some("network down"));
    let s = account_status_after_refresh(Ok(tokens("a"))).unwrap();
    assert!(s.signed_in);
}

#[test]
fn bare_401_is_retried_once() {
    let t = tokens("a");
    assert!(matches!(refresh_step(&t, 0, 401, ""), RefreshStep::Retry));
    assert!(matches!(refresh_step(&t, 1, 401, ""), RefreshStep::ReauthRequired));
}

#[test]
fn terminal_refresh_bodies_require_reauth() {
    let t = tokens("a");
    assert!(matches!(
        refresh_step(&t, 0, 400, r#"{"error":"Refresh_Token_Expired"}"#),
        RefreshStep::ReauthRequired
    ));
    assert!(matches!(refresh_step(&t, 0, 400, "token was REUSED"), RefreshStep::ReauthRequired));
    assert!(matches!(refresh_step(&t, 0, 403, "invalidated"), RefreshStep::ReauthRequired));
    match refresh_step(&t, 0, 500, "oops") {
        RefreshStep::Failed(m) => assert_eq!(m, "ChatGPT token refresh failed (HTTP 500)."),
        _ => panic!("expected a failure"),
    }
}

#[test]
fn refresh_keeps_fields_the_server_omits() {
    let t = tokens("a");
    let new_access = jwt(r#"{"exp":5}"#);
    let body = format!(r#"{{"access_token":"{new_access}"}}"#);
    match refresh_step(&t, 0, 200, &body) {
        RefreshStep::Refreshed(n) => {
            assert_eq!(n.access_token, new_access);
            assert_eq!(n.refresh_token, "refresh-old");
            assert_eq!(n.account_id, "acct_old");
            assert_eq!(n.id_token, None);
            assert_eq!(n.email.as_deref(), Some("old@example.com"));
            assert_eq!(n.plan_type.as_deref(), Some("free"));
        }
        _ => panic!("expected refreshed tokens"),
    }
}

#[test]
fn refresh_takes_new_fields() {
    let t = tokens("a");
    let new_access =
        jwt(r#"{"https://api.openai.com/auth":{"chatgpt_account_id":"acct_new"}}"#);
    let id = jwt(r#"{"email":"n@example.com","https://api.openai.com/auth":{"chatgpt_plan_type":"pro"}}"#);
    let body = format!(
        r#"{{"access_token":"{new_access}","refresh_token":"r2","id_token":"{id}"}}"#
    );
    match refresh_step(&t, 1, 200, &body) {
        RefreshStep::Refreshed(n) => {
            assert_eq!(n.refresh_token, "r2");
            assert_eq!(n.account_id, "acct_new");
            assert_eq!(n.id_token.as_deref(), Some(id.as_str()));
            assert_eq!(n.email.as_deref(), Some("n@example.com"));
            assert_eq!(n.plan_type.as_deref(), Some("pro"));
        }
        _ => panic!("expected refreshed tokens"),
    }
}

#[test]
fn refresh_success_errors() {
    let t = tokens("a");
    match refresh_step(&t, 0, 200, "not json") {
        RefreshStep::Failed(m) => {
            assert_eq!(m, "ChatGPT token refresh returned an unreadable response.")
        }
        _ => panic!("expected a failure"),
    }
    match refresh_step(&t, 0, 204, "{}") {
        RefreshStep::Failed(m) => {
            assert_eq!(m, "ChatGPT token refresh did not return an access token.")
        }
        _ => panic!("expected a failure"),
    }
}

#[test]
fn exchange_builds_tokens() {
    let access = jwt(r#"{"https://api.openai.com/auth":{"chatgpt_account_id":"acct_9"}}"#);
    let id = jwt(r#"{"email":"e@example.com"}"#);
    let body = format!(r#"{{"access_token":"{access}","refresh_token":"r","id_token":"{id}"}}"#);
    let t = tokens_from_exchange(body.as_bytes()).unwrap();
    assert_eq!(t.account_id, "acct_9");
    assert_eq!(t.refresh_token, "r");
    assert_eq!(t.email.as_deref(), Some("e@example.com"));
    assert_eq!(t.plan_type, None);

    assert_eq!(
        tokens_from_exchange(b"{").err().as_deref(),
        Some("ChatGPT authorization returned an unreadable response.")
    );
    assert_eq!(
        tokens_from_exchange(b"{}").err().as_deref(),
        Some("ChatGPT authorization response did not contain an access token.")
    );
    assert_eq!(
        tokens_from_exchange(br#"{"access_token":"a"}"#).err().as_deref(),
        Some("ChatGPT authorization response did not contain a refresh token.")
    );
    assert_eq!(
        tokens_from_exchange(br#"{"access_token":"a","refresh_token":"b"}"#).err().as_deref(),
        Some("ChatGPT access token did not contain a workspace account id.")
    );
    assert_eq!(exchange_http_error(400), "ChatGPT authorization exchange failed (HTTP 400).");
}

#[test]
fn headers_for_codex_requests() {
    let t = tokens("tok");
    let h = codex_headers(&t, "handy-1-2", AcceptKind::EventStream).unwrap();
    assert_eq!(h.authorization, "Bearer tok");
    assert_eq!(h.account_id, "acct_old");
    assert_eq!(h.originator, "codex_cli_rs");
    assert_eq!(h.user_agent, "codex_cli_rs/0.155.0 (Mac OS; arm64) Terminal");
    assert_eq!(h.session_id, "handy-1-2");
    assert_eq!(h.accept, "text/event-stream");
    let h = codex_headers(&t, "s", AcceptKind::Json).unwrap();
    assert_eq!(h.accept, "application/json");

    let bad = tokens("line\nbreak");
    assert_eq!(
        codex_headers(&bad, "s", AcceptKind::Json).err().as_deref(),
        Some("ChatGPT access token could not be used as an HTTP header.")
    );
    let mut bad = tokens("ok");
    bad.account_id = "a\u{7f}".to_string();
    assert_eq!(
        codex_headers(&bad, "s", AcceptKind::Json).err().as_deref(),
        Some("ChatGPT account id could not be used as an HTTP header.")
    );
    assert_eq!(
        codex_headers(&t, "s\r", AcceptKind::Json).err().as_deref(),
        Some("Failed to create Codex session id.")
    );
    assert!(codex_headers(&tokens("tab\tand é"), "s", AcceptKind::Json).is_ok());
}

#[test]
fn login_ids_carry_time_and_counter() {
    assert_eq!(format_login_id(1700000000123, 7), "handy-1700000000123-7");
    assert_eq!(format_login_id(0, 0), "handy-0-0");
    let id = login_id(42);
    assert!(id.starts_with("handy-") && id.ends_with("-42"));
}

fn pairs(v: &[(String, String)]) -> Vec<(&str, &str)> {
    v.iter().map(|(a, b)| (a.as_str(), b.as_str())).collect()
}

#[test]
fn token_request_forms() {
    assert_eq!(
        pairs(&exchange_form("the-code", "the-verifier")),
        vec![
            ("grant_type", "authorization_code"),
            ("code", "the-code"),
            ("redirect_uri", "https://auth.openai.com/deviceauth/callback"),
            ("client_id", "app_EMoamEEZ73f0CkXaXp7hrann"),
            ("code_verifier", "the-verifier"),
        ]
    );
    assert_eq!(
        pairs(&refresh_form("rt-1")),
        vec![
            ("client_id", "app_EMoamEEZ73f0CkXaXp7hrann"),
            ("grant_type", "refresh_token"),
            ("refresh_token", "rt-1"),
        ]
    );
}
