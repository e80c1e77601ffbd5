//! Decisions of the ChatGPT-account (Codex) post-processing backend:
//! token bookkeeping, device sign-in, refresh, model listing, response
//! decoding and the messages shown for each failure.
//!
//! Network, keychain and clock access stay with the caller; every function
//! here takes what those returned and decides what comes next.

use vstd::prelude::*;
use vstd::string::StringSliceAdditionalSpecFns;
use vstd::utf8::encode_utf8;
use crate::json::{self, JsonValue, JsonNumber, json_get, json_str, json_u64, json_field_str, json_text_value,
    json_bytes_value};
use crate::jwt::{self, access_token_expiry_of, account_id_of, email_of, plan_type_of,
    jwt_payload_of};
use crate::local_llm::last_index;
use crate::text::{self, opt_chars, trim, parse_u64, decimal, signed_decimal, ascii_lower_seq,
    contains_infix};

verus! {

broadcast use vstd::string::group_string_axioms;

/// OAuth tokens of a signed-in ChatGPT account, as kept in the keychain.
#[derive(Debug)]
pub struct StoredTokens {
    pub access_token: String,
    pub refresh_token: String,
    pub id_token: Option<String>,
    pub account_id: String,
    pub email: Option<String>,
    pub plan_type: Option<String>,
}

/// The character contents of [`StoredTokens`].
pub struct TokensView {
    pub access_token: Seq<char>,
    pub refresh_token: Seq<char>,
    pub id_token: Option<Seq<char>>,
    pub account_id: Seq<char>,
    pub email: Option<Seq<char>>,
    pub plan_type: Option<Seq<char>>,
}

impl View for StoredTokens {
    type V = TokensView;

    open spec fn view(&self) -> TokensView {
        TokensView {
            access_token: self.access_token@,
            refresh_token: self.refresh_token@,
            id_token: opt_chars(self.id_token),
            account_id: self.account_id@,
            email: opt_chars(self.email),
            plan_type: opt_chars(self.plan_type),
        }
    }
}

/// Account state reported to the settings screen.
#[derive(Debug)]
pub struct CodexAccountStatus {
    /// Kept for frontend compatibility: `true` where the backend is available.
    pub runtime_installed: bool,
    pub signed_in: bool,
    pub email: Option<String>,
    pub plan_type: Option<String>,
}

/// What the user needs to approve a device sign-in.
#[derive(Debug)]
pub struct CodexDeviceLogin {
    pub login_id: String,
    pub verification_url: String,
    pub user_code: String,
}

/// A device sign-in waiting for the user's approval.
#[derive(Debug)]
pub struct PendingLogin {
    pub device_auth_id: String,
    pub user_code: String,
    pub interval_secs: u64,
}

/// A copy of an optional string.
pub fn clone_opt(o: &Option<String>) -> (r: Option<String>)
    ensures
        r == *o,
{
    match o {
        Some(s) => Some(s.clone()),
        None => None,
    }
}

/// The status shown for optional stored tokens.
pub fn status_from_tokens(tokens: Option<StoredTokens>) -> (r: CodexAccountStatus)
    ensures
        r.runtime_installed,
        r.signed_in == tokens is Some,
        r.email == (match tokens {
            Some(t) => t.email,
            None => None,
        }),
        r.plan_type == (match tokens {
            Some(t) => t.plan_type,
            None => None,
        }),
{
    match tokens {
        Some(t) => CodexAccountStatus {
            runtime_installed: true,
            signed_in: true,
            email: t.email,
            plan_type: t.plan_type,
        },
        None => CodexAccountStatus {
            runtime_installed: true,
            signed_in: false,
            email: None,
            plan_type: None,
        },
    }
}

/// Poll interval used when the server names none.
pub const DEFAULT_POLL_INTERVAL: u64 = 5;

/// Seconds before expiry at which an access token is refreshed.
pub const REFRESH_LEEWAY_SECS: i64 = 300;

/// The interval the server asked for: a number, or a string holding a
/// number (surrounding whitespace allowed).
pub open spec fn poll_interval_requested(v: Option<JsonValue>) -> Option<u64> {
    match v {
        Some(JsonValue::Str(t)) => parse_u64(trim(t@)),
        Some(JsonValue::Number(n)) => n.uint64,
        _ => None,
    }
}

/// `x.clamp(lo, hi)`.
pub open spec fn clamp(x: u64, lo: u64, hi: u64) -> u64 {
    if x < lo {
        lo
    } else if x > hi {
        hi
    } else {
        x
    }
}

/// Seconds between device sign-in polls: the requested interval (default
/// 5), kept within 1..=60.
pub open spec fn poll_interval_of(v: Option<JsonValue>) -> u64 {
    clamp(
        match poll_interval_requested(v) {
            Some(x) => x,
            None => DEFAULT_POLL_INTERVAL,
        },
        1,
        60,
    )
}

/// Seconds between device sign-in polls, from the `interval` field.
pub fn poll_interval(value: Option<&JsonValue>) -> (r: u64)
    ensures
        r == poll_interval_of(json::opt_val(value)),
        1 <= r <= 60,
{
    let parsed = match value {
        Some(JsonValue::Str(t)) => {
            let v = text::chars_of(t.as_str());
            let (a, b) = text::trim_bounds(&v, 0, v.len());
            assert(v@.subrange(0, v@.len() as int) =~= v@);
            let w = text::slice_of(&v, a, b);
            text::parse_u64_chars(&w)
        },
        Some(JsonValue::Number(n)) => n.uint64,
        _ => None,
    };
    let x = match parsed {
        Some(x) => x,
        None => DEFAULT_POLL_INTERVAL,
    };
    if x < 1 {
        1
    } else if x > 60 {
        60
    } else {
        x
    }
}

/// Whether an access token must be refreshed at time `now` (UNIX seconds):
/// when its expiry is unreadable, or at most five minutes away.
pub open spec fn needs_refresh_at(token: Seq<u8>, now: int) -> bool {
    match access_token_expiry_of(token) {
        Some(expiry) => expiry <= now + REFRESH_LEEWAY_SECS,
        None => true,
    }
}

/// Whether `token` must be refreshed at time `now` (UNIX seconds).
pub fn token_needs_refresh_at(token: &str, now: i64) -> (r: bool)
    ensures
        r == needs_refresh_at(token.spec_bytes(), now as int),
{
    match jwt::access_token_expiry(token) {
        Some(expiry) => (expiry as i128) <= (now as i128) + (REFRESH_LEEWAY_SECS as i128),
        None => true,
    }
}

/// Milliseconds since the UNIX epoch: `SystemTime::now()
/// .duration_since(UNIX_EPOCH)` read with `Duration::as_millis`; `None`
/// when the clock is before the epoch. Of the value only the range that
/// `Duration` allows is stated.
#[verifier::external_body]
fn unix_clock_millis() -> (r: Option<u128>)
    ensures
        r matches Some(m) ==> m / 1000 <= u64::MAX,
{
    std::time::SystemTime::now().duration_since(std::time::UNIX_EPOCH).ok().map(|d| d.as_millis())
}

/// Whole seconds of a clock reading in milliseconds since the UNIX epoch,
/// converted to `i64` as `as` does; 0 for a clock before the epoch.
pub open spec fn unix_secs_from(millis: Option<u128>) -> i64 {
    match millis {
        Some(m) => ((m / 1000) as u64) as i64,
        None => 0,
    }
}

/// A reading that `unix_clock_millis` can return.
pub open spec fn clock_reading_ok(millis: Option<u128>) -> bool {
    millis matches Some(m) ==> m / 1000 <= u64::MAX
}

/// Whole seconds since the UNIX epoch of a clock reading in milliseconds.
pub fn unix_secs_of(millis: Option<u128>) -> (r: i64)
    ensures
        r == unix_secs_from(millis),
{
    match millis {
        Some(m) => ((m / 1000) as u64) as i64,
        None => 0,
    }
}

/// Whole seconds since the UNIX epoch (0 when the clock is before it),
/// converted to `i64` as `as` does, for the current clock reading.
pub fn now_unix_secs() -> (r: i64)
    ensures
        exists|millis: Option<u128>| clock_reading_ok(millis) && r == unix_secs_from(millis),
{
    let millis = unix_clock_millis();
    let r = unix_secs_of(millis);
    assert(clock_reading_ok(millis) && r == unix_secs_from(millis));
    r
}

/// Whether `token` must be refreshed now. A token without a readable
/// expiry always must; otherwise the answer depends on the clock.
pub fn token_needs_refresh(token: &str) -> (r: bool)
    ensures
        access_token_expiry_of(token.spec_bytes()) is None ==> r,
        exists|now: i64| r == needs_refresh_at(token.spec_bytes(), now as int),
        exists|millis: Option<u128>|
            clock_reading_ok(millis) && r == needs_refresh_at(
                token.spec_bytes(),
                unix_secs_from(millis) as int,
            ),
{
    let now = now_unix_secs();
    let r = token_needs_refresh_at(token, now);
    assert(r == needs_refresh_at(token.spec_bytes(), now as int));
    proof {
        let millis = choose|millis: Option<u128>|
            clock_reading_ok(millis) && now == unix_secs_from(millis);
        assert(clock_reading_ok(millis) && r == needs_refresh_at(
            token.spec_bytes(),
            unix_secs_from(millis) as int,
        ));
    }
    r
}

/// A sign-in session id: `handy-{millis}-{counter}`.
pub open spec fn login_id_text(millis: nat, counter: nat) -> Seq<char> {
    "handy-"@ + decimal(millis) + "-"@ + decimal(counter)
}

/// Formats a sign-in session id from a clock reading and a counter.
pub fn format_login_id(millis: u128, counter: u64) -> (r: String)
    ensures
        r@ == login_id_text(millis as nat, counter as nat),
{
    let mut v: Vec<char> = Vec::new();
    text::push_str_chars(&mut v, "handy-");
    let m = text::decimal_chars(millis);
    text::push_chars(&mut v, &m);
    text::push_str_chars(&mut v, "-");
    let c = text::decimal_chars(counter as u128);
    text::push_chars(&mut v, &c);
    text::string_from_chars(v.as_slice())
}

/// A fresh sign-in session id for the counter value `counter`, stamped
/// with the current time in milliseconds (0 when the clock is before the
/// epoch).
pub fn login_id(counter: u64) -> (r: String)
    ensures
        exists|millis: nat| r@ == login_id_text(millis, counter as nat),
{
    let millis = match unix_clock_millis() {
        Some(m) => m,
        None => 0,
    };
    let r = format_login_id(millis, counter);
    assert(r@ == login_id_text(millis as nat, counter as nat));
    r
}

/// Whether an HTTP status code is a success (2xx).
pub open spec fn is_success(status: u16) -> bool {
    200 <= status <= 299
}

/// `"{prefix}{status}{suffix}"`.
pub open spec fn with_status(prefix: Seq<char>, status: u16, suffix: Seq<char>) -> Seq<char> {
    prefix + signed_decimal(status as int) + suffix
}

/// A byte `HeaderValue::from_str` accepts: a tab, or any byte from 32 up
/// except 127.
pub open spec fn header_byte_ok(b: u8) -> bool {
    (b >= 32 && b != 127) || b == 9
}

/// Text `HeaderValue::from_str` accepts: every byte of its UTF-8 form is
/// accepted.
pub open spec fn header_value_ok(s: Seq<char>) -> bool {
    forall|i: int|
        0 <= i < encode_utf8(s).len() ==> header_byte_ok(#[trigger] encode_utf8(s)[i])
}

/// `reqwest::header::HeaderValue::from_str(s).is_ok()`: the header value
/// accepts the text exactly when every byte is a tab or at least 32 and
/// not 127 (`http`'s `is_valid`).
#[verifier::external_body]
fn header_value_accepted(s: &str) -> (r: bool)
    ensures
        r == header_value_ok(s@),
{
    reqwest::header::HeaderValue::from_str(s).is_ok()
}

/// The `originator` header sent to the Codex backend.
pub open spec fn originator_text() -> Seq<char> {
    "codex_cli_rs"@
}

/// The `User-Agent` header sent to the Codex backend.
pub open spec fn user_agent_text() -> Seq<char> {
    "codex_cli_rs/0.155.0 (Mac OS; arm64) Terminal"@
}

/// The media type a Codex request accepts.
#[derive(Debug, Clone, Copy, PartialEq, Eq)]
pub enum AcceptKind {
    Json,
    EventStream,
}

/// The `Accept` header for a kind of response.
pub open spec fn accept_text(kind: AcceptKind) -> Seq<char> {
    match kind {
        AcceptKind::Json => "application/json"@,
        AcceptKind::EventStream => "text/event-stream"@,
    }
}

/// Header values of a Codex backend request; the names are
/// `Authorization`, `ChatGPT-Account-ID`, `originator`, `User-Agent`,
/// `session-id` and `Accept`.
#[derive(Debug)]
pub struct CodexHeaders {
    pub authorization: String,
    pub account_id: String,
    pub originator: String,
    pub user_agent: String,
    pub session_id: String,
    pub accept: String,
}

/// The headers of a Codex backend request for `tokens`, with session id
/// `session_id`; an error names the first value that cannot be a header.
pub fn codex_headers(tokens: &StoredTokens, session_id: &str, accept: AcceptKind) -> (r: Result<
    CodexHeaders,
    String,
>)
    ensures
        match r {
            Ok(h) => {
                &&& header_value_ok("Bearer "@ + tokens.access_token@)
                &&& header_value_ok(tokens.account_id@)
                &&& header_value_ok(user_agent_text())
                &&& header_value_ok(session_id@)
                &&& h.authorization@ == "Bearer "@ + tokens.access_token@
                &&& h.account_id@ == tokens.account_id@
                &&& h.originator@ == originator_text()
                &&& h.user_agent@ == user_agent_text()
                &&& h.session_id@ == session_id@
                &&& h.accept@ == accept_text(accept)
            },
            Err(e) => if !header_value_ok("Bearer "@ + tokens.access_token@) {
                e@ == "ChatGPT access token could not be used as an HTTP header."@
            } else if !header_value_ok(tokens.account_id@) {
                e@ == "ChatGPT account id could not be used as an HTTP header."@
            } else if !header_value_ok(user_agent_text()) {
                e@ == "Failed to build Codex User-Agent."@
            } else {
                !header_value_ok(session_id@) && e@ == "Failed to create Codex session id."@
            },
        },
{
    let authorization = text::concat_str("Bearer ", tokens.access_token.as_str());
    if !header_value_accepted(authorization.as_str()) {
        return Err("ChatGPT access token could not be used as an HTTP header.".to_owned());
    }
    if !header_value_accepted(tokens.account_id.as_str()) {
        return Err("ChatGPT account id could not be used as an HTTP header.".to_owned());
    }
    let user_agent = "codex_cli_rs/0.155.0 (Mac OS; arm64) Terminal".to_owned();
    if !header_value_accepted(user_agent.as_str()) {
        return Err("Failed to build Codex User-Agent.".to_owned());
    }
    if !header_value_accepted(session_id) {
        return Err("Failed to create Codex session id.".to_owned());
    }
    let accept = match accept {
        AcceptKind::Json => "application/json".to_owned(),
        AcceptKind::EventStream => "text/event-stream".to_owned(),
    };
    Ok(
        CodexHeaders {
            authorization,
            account_id: tokens.account_id.clone(),
            originator: "codex_cli_rs".to_owned(),
            user_agent,
            session_id: session_id.to_owned(),
            accept,
        },
    )
}

/// E-mail of an optional ID token.
pub open spec fn id_token_email(id: Option<Seq<char>>) -> Option<Seq<char>> {
    match id {
        Some(t) => match jwt_payload_of(encode_utf8(t)) {
            Some(p) => email_of(p),
            None => None,
        },
        None => None,
    }
}

/// Plan type of an optional ID token.
pub open spec fn id_token_plan(id: Option<Seq<char>>) -> Option<Seq<char>> {
    match id {
        Some(t) => match jwt_payload_of(encode_utf8(t)) {
            Some(p) => plan_type_of(p),
            None => None,
        },
        None => None,
    }
}

/// `a`, or `b` when `a` is `None`.
pub open spec fn or_else<T>(a: Option<T>, b: Option<T>) -> Option<T> {
    match a {
        Some(x) => Some(x),
        None => b,
    }
}

/// Identity read from an optional ID token string.
fn identity_of_opt(id: &Option<String>) -> (r: (Option<String>, Option<String>))
    ensures
        opt_chars(r.0) == id_token_email(opt_chars(*id)),
        opt_chars(r.1) == id_token_plan(opt_chars(*id)),
{
    match id {
        Some(t) => jwt::identity_from_id_token(Some(t.as_str())),
        None => jwt::identity_from_id_token(None),
    }
}

/// The optional string `s` as owned text.
fn owned_opt(s: Option<&str>) -> (r: Option<String>)
    ensures
        opt_chars(r) == (match s {
            Some(x) => Some(x@),
            None => None,
        }),
{
    match s {
        Some(x) => Some(x.to_owned()),
        None => None,
    }
}

/// Tokens from a successful authorization-code exchange, given the JSON
/// payload of the response.
pub open spec fn exchanged_tokens_of(p: JsonValue) -> Result<TokensView, Seq<char>> {
    match json_field_str(p, "access_token"@) {
        None => Err("ChatGPT authorization response did not contain an access token."@),
        Some(access) => match json_field_str(p, "refresh_token"@) {
            None => Err("ChatGPT authorization response did not contain a refresh token."@),
            Some(refresh) => match account_id_of(encode_utf8(access)) {
                None => Err("ChatGPT access token did not contain a workspace account id."@),
                Some(account) => {
                    let id = json_field_str(p, "id_token"@);
                    Ok(
                        TokensView {
                            access_token: access,
                            refresh_token: refresh,
                            id_token: id,
                            account_id: account,
                            email: id_token_email(id),
                            plan_type: id_token_plan(id),
                        },
                    )
                },
            },
        },
    }
}

/// The OAuth client id of the ChatGPT account integration.
pub open spec fn client_id_text() -> Seq<char> {
    "app_EMoamEEZ73f0CkXaXp7hrann"@
}

/// Where the device-code sign-in says it redirects.
pub open spec fn redirect_uri_text() -> Seq<char> {
    "https://auth.openai.com/deviceauth/callback"@
}

/// The characters of the names and values of form fields.
pub open spec fn form_view(v: Seq<(String, String)>) -> Seq<(Seq<char>, Seq<char>)> {
    v.map_values(|p: (String, String)| (p.0@, p.1@))
}

/// A form field `name=value`.
fn field(name: &str, value: &str) -> (r: (String, String))
    ensures
        r.0@ == name@,
        r.1@ == value@,
{
    (name.to_owned(), value.to_owned())
}

/// The form that exchanges an approved device sign-in's authorization
/// code (with its code verifier) for tokens.
pub fn exchange_form(code: &str, verifier: &str) -> (r: Vec<(String, String)>)
    ensures
        form_view(r@) == seq![
            ("grant_type"@, "authorization_code"@),
            ("code"@, code@),
            ("redirect_uri"@, redirect_uri_text()),
            ("client_id"@, client_id_text()),
            ("code_verifier"@, verifier@),
        ],
{
    let mut v: Vec<(String, String)> = Vec::new();
    v.push(field("grant_type", "authorization_code"));
    v.push(field("code", code));
    v.push(field("redirect_uri", "https://auth.openai.com/deviceauth/callback"));
    v.push(field("client_id", "app_EMoamEEZ73f0CkXaXp7hrann"));
    v.push(field("code_verifier", verifier));
    assert(form_view(v@) =~= seq![
        ("grant_type"@, "authorization_code"@),
        ("code"@, code@),
        ("redirect_uri"@, redirect_uri_text()),
        ("client_id"@, client_id_text()),
        ("code_verifier"@, verifier@),
    ]);
    v
}

/// The form that trades a refresh token for fresh tokens.
pub fn refresh_form(refresh_token: &str) -> (r: Vec<(String, String)>)
    ensures
        form_view(r@) == seq![
            ("client_id"@, client_id_text()),
            ("grant_type"@, "refresh_token"@),
            ("refresh_token"@, refresh_token@),
        ],
{
    let mut v: Vec<(String, String)> = Vec::new();
    v.push(field("client_id", "app_EMoamEEZ73f0CkXaXp7hrann"));
    v.push(field("grant_type", "refresh_token"));
    v.push(field("refresh_token", refresh_token));
    assert(form_view(v@) =~= seq![
        ("client_id"@, client_id_text()),
        ("grant_type"@, "refresh_token"@),
        ("refresh_token"@, refresh_token@),
    ]);
    v
}

/// Tokens from the body of a successful authorization-code exchange.
pub fn tokens_from_exchange(body: &[u8]) -> (r: Result<StoredTokens, String>)
    ensures
        match json_bytes_value(body@) {
            None => r matches Err(e) && e@ == "ChatGPT authorization returned an unreadable response."@,
            Some(p) => match (r, exchanged_tokens_of(p)) {
                (Ok(t), Ok(v)) => t@ == v,
                (Err(e), Err(m)) => e@ == m,
                _ => false,
            },
        },
{
    let payload = match json::parse_json_bytes(body) {
        Some(p) => p,
        None => {
            return Err("ChatGPT authorization returned an unreadable response.".to_owned());
        },
    };
    let access_token = match json::as_str(json::get(&payload, "access_token")) {
        Some(s) => s.to_owned(),
        None => {
            return Err(
                "ChatGPT authorization response did not contain an access token.".to_owned(),
            );
        },
    };
    let refresh_token = match json::as_str(json::get(&payload, "refresh_token")) {
        Some(s) => s.to_owned(),
        None => {
            return Err(
                "ChatGPT authorization response did not contain a refresh token.".to_owned(),
            );
        },
    };
    let id_token = owned_opt(json::as_str(json::get(&payload, "id_token")));
    let account_id = match jwt::account_id_from_access_token(access_token.as_str()) {
        Some(a) => a,
        None => {
            return Err(
                "ChatGPT access token did not contain a workspace account id.".to_owned(),
            );
        },
    };
    let (email, plan_type) = identity_of_opt(&id_token);
    Ok(StoredTokens { access_token, refresh_token, id_token, account_id, email, plan_type })
}

/// The error for a failed authorization-code exchange request.
pub fn exchange_http_error(status: u16) -> (r: String)
    ensures
        r@ == with_status("ChatGPT authorization exchange failed (HTTP "@, status, ")."@),
{
    text::message_with_code("ChatGPT authorization exchange failed (HTTP ", status as i64, ").")
}

/// What one answer of the token endpoint leads to while refreshing.
#[derive(Debug)]
pub enum RefreshStep {
    /// New tokens, to be saved and used.
    Refreshed(StoredTokens),
    /// Ask once more.
    Retry,
    /// The credentials are gone for good: delete them and ask the user to
    /// sign in again.
    ReauthRequired,
    /// Give up with this message.
    Failed(String),
}

/// Tokens after a successful refresh whose payload is `p` and whose new
/// access token is `access`: fields the server left out keep their
/// previous values.
pub open spec fn refreshed_tokens_of(old: TokensView, p: JsonValue, access: Seq<char>) -> TokensView {
    let id = or_else(json_field_str(p, "id_token"@), old.id_token);
    TokensView {
        access_token: access,
        refresh_token: match json_field_str(p, "refresh_token"@) {
            Some(r) => r,
            None => old.refresh_token,
        },
        id_token: id,
        account_id: match account_id_of(encode_utf8(access)) {
            Some(a) => a,
            None => old.account_id,
        },
        email: or_else(id_token_email(id), old.email),
        plan_type: or_else(id_token_plan(id), old.plan_type),
    }
}

/// Whether a refresh error body says the refresh token is dead.
pub open spec fn terminal_refresh_body(body: Seq<char>) -> bool {
    let lowered = ascii_lower_seq(body);
    contains_infix(lowered, "refresh_token_expired"@) || contains_infix(lowered, "reused"@)
        || contains_infix(lowered, "invalidated"@)
}

/// The step after the token endpoint answered `status` with `body`, on
/// attempt `attempt` (0 for the first).
pub open spec fn refresh_step_of(old: TokensView, attempt: u32, status: u16, body: Seq<char>) -> Result<
    TokensView,
    (u8, Seq<char>),
> {
    if is_success(status) {
        match json_text_value(body) {
            None => Err((3, "ChatGPT token refresh returned an unreadable response."@)),
            Some(p) => match json_field_str(p, "access_token"@) {
                None => Err((3, "ChatGPT token refresh did not return an access token."@)),
                Some(access) => Ok(refreshed_tokens_of(old, p, access)),
            },
        }
    } else if status == 401 && attempt == 0 {
        Err((1, Seq::empty()))
    } else if status == 401 || terminal_refresh_body(body) {
        Err((2, Seq::empty()))
    } else {
        Err((3, with_status("ChatGPT token refresh failed (HTTP "@, status, ")."@)))
    }
}

/// Whether `step` is what `refresh_step_of` describes: `Ok` is
/// `Refreshed`, tag 1 `Retry`, tag 2 `ReauthRequired`, tag 3 `Failed`.
pub open spec fn refresh_step_matches(step: RefreshStep, spec: Result<TokensView, (u8, Seq<char>)>) -> bool {
    match (step, spec) {
        (RefreshStep::Refreshed(t), Ok(v)) => t@ == v,
        (RefreshStep::Retry, Err((1, _))) => true,
        (RefreshStep::ReauthRequired, Err((2, _))) => true,
        (RefreshStep::Failed(m), Err((3, e))) => m@ == e,
        _ => false,
    }
}

/// Decides what an answer of the token endpoint leads to during a refresh
/// of `tokens`. A bare 401 is retried once before it counts as final.
pub fn refresh_step(tokens: &StoredTokens, attempt: u32, status: u16, body: &str) -> (r:
    RefreshStep)
    ensures
        refresh_step_matches(r, refresh_step_of(tokens@, attempt, status, body@)),
{
    if 200 <= status && status <= 299 {
        let payload = match json::parse_json_text(body) {
            Some(p) => p,
            None => {
                return RefreshStep::Failed(
                    "ChatGPT token refresh returned an unreadable response.".to_owned(),
                );
            },
        };
        let access_token = match json::as_str(json::get(&payload, "access_token")) {
            Some(s) => s.to_owned(),
            None => {
                return RefreshStep::Failed(
                    "ChatGPT token refresh did not return an access token.".to_owned(),
                );
            },
        };
        let refresh_token = match json::as_str(json::get(&payload, "refresh_token")) {
            Some(s) => s.to_owned(),
            None => tokens.refresh_token.clone(),
        };
        let id_token = match json::as_str(json::get(&payload, "id_token")) {
            Some(s) => Some(s.to_owned()),
            None => clone_opt(&tokens.id_token),
        };
        let account_id = match jwt::account_id_from_access_token(access_token.as_str()) {
            Some(a) => a,
            None => tokens.account_id.clone(),
        };
        let (next_email, next_plan) = identity_of_opt(&id_token);
        let email = match next_email {
            Some(e) => Some(e),
            None => clone_opt(&tokens.email),
        };
        let plan_type = match next_plan {
            Some(p) => Some(p),
            None => clone_opt(&tokens.plan_type),
        };
        return RefreshStep::Refreshed(
            StoredTokens { access_token, refresh_token, id_token, account_id, email, plan_type },
        );
    }
    let lowered = text::ascii_lower_chars(&text::chars_of(body));
    let terminal = text::contains_chars(&lowered, &text::chars_of("refresh_token_expired"))
        || text::contains_chars(&lowered, &text::chars_of("reused")) || text::contains_chars(
        &lowered,
        &text::chars_of("invalidated"),
    );
    if status == 401 && attempt == 0 {
        return RefreshStep::Retry;
    }
    if status == 401 || terminal {
        return RefreshStep::ReauthRequired;
    }
    RefreshStep::Failed(
        text::message_with_code("ChatGPT token refresh failed (HTTP ", status as i64, ")."),
    )
}

/// Error returned when the user has to sign in again.
pub open spec fn reauth_required_text() -> Seq<char> {
    "CHATGPT_REAUTH_REQUIRED"@
}

/// Error returned when no credentials are stored.
pub open spec fn not_authorized_text() -> Seq<char> {
    "CHATGPT_NOT_AUTHORIZED"@
}

/// The account status after trying to obtain valid tokens: an error that
/// only means "signed out" is reported as a signed-out status.
pub fn account_status_after_refresh(result: Result<StoredTokens, String>) -> (r: Result<
    CodexAccountStatus,
    String,
>)
    ensures
        match result {
            Ok(t) => r matches Ok(s) && s.signed_in && s.runtime_installed && s.email == t.email
                && s.plan_type == t.plan_type,
            Err(e) => if e@ == reauth_required_text() || e@ == not_authorized_text() {
                r matches Ok(s) && !s.signed_in && s.runtime_installed && s.email is None
                    && s.plan_type is None
            } else {
                r == Err::<CodexAccountStatus, String>(e)
            },
        },
{
    match result {
        Ok(t) => Ok(status_from_tokens(Some(t))),
        Err(e) => {
            if text::str_eq(e.as_str(), "CHATGPT_REAUTH_REQUIRED") || text::str_eq(
                e.as_str(),
                "CHATGPT_NOT_AUTHORIZED",
            ) {
                Ok(status_from_tokens(None))
            } else {
                Err(e)
            }
        },
    }
}

/// A bare 401 from the token endpoint is retried once; a second one means
/// the user must sign in again.
pub proof fn law_bare_401_retried_once(old: TokensView, body: Seq<char>)
    ensures
        refresh_step_of(old, 0, 401, body) == Err::<TokensView, (u8, Seq<char>)>(
            (1u8, Seq::empty()),
        ),
        refresh_step_of(old, 1, 401, body) == Err::<TokensView, (u8, Seq<char>)>(
            (2u8, Seq::empty()),
        ),
{
}

/// A failed refresh whose body reports an expired, reused or invalidated
/// refresh token requires signing in again (unless it is the first bare
/// 401, which is retried).
pub proof fn law_terminal_refresh_requires_reauth(
    old: TokensView,
    attempt: u32,
    status: u16,
    body: Seq<char>,
)
    requires
        !is_success(status),
        terminal_refresh_body(body),
        !(status == 401 && attempt == 0),
    ensures
        refresh_step_of(old, attempt, status, body) == Err::<TokensView, (u8, Seq<char>)>(
            (2u8, Seq::empty()),
        ),
{
}

/// A failed refresh answer (not 2xx) that is not a 401 and whose body,
/// lower-cased, mentions none of `refresh_token_expired`, `reused` and
/// `invalidated` fails with its HTTP status: the stored credentials are
/// kept and no new sign-in is asked for.
pub proof fn law_other_refresh_failure_keeps_credentials(
    old: TokensView,
    attempt: u32,
    status: u16,
    body: Seq<char>,
)
    requires
        !(200 <= status <= 299),
        status != 401,
        !contains_infix(ascii_lower_seq(body), "refresh_token_expired"@),
        !contains_infix(ascii_lower_seq(body), "reused"@),
        !contains_infix(ascii_lower_seq(body), "invalidated"@),
    ensures
        refresh_step_of(old, attempt, status, body) == Err::<TokensView, (u8, Seq<char>)>(
            (3u8, with_status("ChatGPT token refresh failed (HTTP "@, status, ")."@)),
        ),
{
}

/// A new sign-in is asked for only after a 401 that is not the first
/// answer, or a failed answer whose lower-cased body mentions
/// `refresh_token_expired`, `reused` or `invalidated`.
pub proof fn law_reauth_only_when_dead(old: TokensView, attempt: u32, status: u16, body: Seq<char>)
    requires
        refresh_step_of(old, attempt, status, body) matches Err((tag, _)) && tag == 2,
    ensures
        !(200 <= status <= 299),
        (status == 401 && attempt != 0) || contains_infix(
            ascii_lower_seq(body),
            "refresh_token_expired"@,
        ) || contains_infix(ascii_lower_seq(body), "reused"@) || contains_infix(
            ascii_lower_seq(body),
            "invalidated"@,
        ),
{
}

/// Refresh is due exactly from five minutes before expiry on: a token
/// whose expiry lies before `now + 300` seconds needs it, one that expires
/// later does not.
pub proof fn law_refresh_five_minutes_early(token: Seq<u8>, expiry: i64, now: int)
    requires
        access_token_expiry_of(token) == Some(expiry),
    ensures
        expiry <= now ==> needs_refresh_at(token, now),
        expiry <= now + 300 <==> needs_refresh_at(token, now),
{
}

/// A token that needs refreshing at some time still needs it later.
pub proof fn law_needs_refresh_monotone(token: Seq<u8>, t1: int, t2: int)
    requires
        t1 <= t2,
        needs_refresh_at(token, t1),
    ensures
        needs_refresh_at(token, t2),
{
}

/// The poll interval is 5 seconds when the server names none, and always
/// between 1 and 60 seconds.
pub proof fn law_poll_interval_bounds(v: Option<JsonValue>)
    ensures
        poll_interval_of(None) == DEFAULT_POLL_INTERVAL,
        1 <= poll_interval_of(v) <= 60,
{
}

/// An interval sent as a decimal string means the same as the number.
pub proof fn law_poll_interval_string_or_number(n: u64, s: String, num: JsonNumber)
    requires
        s@ == decimal(n as nat),
        num.uint64 == Some(n),
    ensures
        poll_interval_of(Some(JsonValue::Str(s))) == poll_interval_of(
            Some(JsonValue::Number(num)),
        ),
{
    text::lemma_decimal_trimmed(n as nat);
    text::lemma_parse_decimal_roundtrip(n);
}

/// A refresh answer that leaves out the refresh token, the ID token or an
/// account id keeps the stored ones, and so do e-mail and plan type when
/// the ID token does not carry them.
pub proof fn law_refresh_keeps_omitted_fields(old: TokensView, p: JsonValue, access: Seq<char>)
    ensures
        json_field_str(p, "refresh_token"@) is None ==> refreshed_tokens_of(old, p, access).refresh_token
            == old.refresh_token,
        json_field_str(p, "id_token"@) is None ==> refreshed_tokens_of(old, p, access).id_token
            == old.id_token,
        account_id_of(encode_utf8(access)) is None ==> refreshed_tokens_of(
            old,
            p,
            access,
        ).account_id == old.account_id,
        id_token_email(refreshed_tokens_of(old, p, access).id_token) is None ==> refreshed_tokens_of(
            old,
            p,
            access,
        ).email == old.email,
        id_token_plan(refreshed_tokens_of(old, p, access).id_token) is None ==> refreshed_tokens_of(
            old,
            p,
            access,
        ).plan_type == old.plan_type,
        refreshed_tokens_of(old, p, access).access_token == access,
{
}

proof fn lemma_last_dash(a: Seq<char>, b: Seq<char>)
    requires
        !b.contains('-'),
    ensures
        last_index(a + seq!['-'] + b, '-') == Some(a.len() as int),
{
    crate::local_llm::lemma_last_index_before(a, '-', b);
}

proof fn lemma_decimal_no_dash(n: nat)
    ensures
        !decimal(n).contains('-'),
{
    text::lemma_decimal_digits(n);
    if decimal(n).contains('-') {
        let k = choose|k: int| 0 <= k < decimal(n).len() && decimal(n)[k] == '-';
        assert(text::is_digit(decimal(n)[k]));
    }
}

/// Two session ids that are equal carry the same counter: the counter is
/// the decimal number after the last `-`.
pub proof fn lemma_login_id_counter(m1: nat, c1: nat, m2: nat, c2: nat)
    requires
        login_id_text(m1, c1) == login_id_text(m2, c2),
    ensures
        c1 == c2,
{
    reveal_strlit("-");
    let a1 = "handy-"@ + decimal(m1);
    let a2 = "handy-"@ + decimal(m2);
    lemma_decimal_no_dash(c1);
    lemma_decimal_no_dash(c2);
    assert(login_id_text(m1, c1) =~= a1 + seq!['-'] + decimal(c1));
    assert(login_id_text(m2, c2) =~= a2 + seq!['-'] + decimal(c2));
    lemma_last_dash(a1, decimal(c1));
    lemma_last_dash(a2, decimal(c2));
    let s = login_id_text(m1, c1);
    assert(s.skip(a1.len() as int + 1) =~= decimal(c1));
    assert(s.skip(a2.len() as int + 1) =~= decimal(c2));
    text::lemma_decimal_digits(c1);
    text::lemma_decimal_digits(c2);
}

/// Releases the backend's resources; it holds none between calls.
pub fn shutdown() {
}

} // verus!
