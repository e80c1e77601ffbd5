//! Claims read from the payload segment of a JSON Web Token.
//!
//! The payload is the second `.`-separated segment of the token, decoded
//! with base64's URL-safe alphabet without padding and parsed as JSON.
//! Because `.` is ASCII, splitting the UTF-8 bytes of the token at the byte
//! `b'.'` gives the same segments as `str::split('.')`.

use vstd::prelude::*;
use base64::Engine;
use vstd::string::StringSliceAdditionalSpecFns;
use crate::json::{JsonValue, json_bytes_value, json_get_opt, json_i64, json_str, opt_val};
use crate::json;
use crate::text::{first_index, lemma_first_index, opt_chars};

verus! {

/// Claim that holds the ChatGPT account information.
pub open spec fn auth_claim() -> Seq<char> {
    "https://api.openai.com/auth"@
}

/// What `URL_SAFE_NO_PAD.decode` of base64 gives for `input` (`None` on a
/// decode error).
pub uninterp spec fn base64_url_no_pad_decoded(input: Seq<u8>) -> Option<Seq<u8>>;

/// `base64::engine::general_purpose::URL_SAFE_NO_PAD.decode`; the contract
/// names the decoded bytes (the base64 alphabet and its padding and
/// trailing-bit rules are base64's).
#[verifier::external_body]
fn decode_base64_url_no_pad(input: &[u8]) -> (r: Option<Vec<u8>>)
    ensures
        match r {
            Some(v) => base64_url_no_pad_decoded(input@) == Some(v@),
            None => base64_url_no_pad_decoded(input@) is None,
        },
{
    base64::engine::general_purpose::URL_SAFE_NO_PAD.decode(input).ok()
}

/// `split('.').nth(1)`: the bytes after the first `.` up to the next `.`
/// (or the end); `None` when there is no `.`.
pub open spec fn second_segment(b: Seq<u8>) -> Option<Seq<u8>> {
    match first_index(b, 46u8) {
        Some(i) => {
            let rest = b.skip(i + 1);
            match first_index(rest, 46u8) {
                Some(j) => Some(rest.take(j)),
                None => Some(rest),
            }
        },
        None => None,
    }
}

/// The decoded JSON payload of a token given by its UTF-8 bytes.
pub open spec fn jwt_payload_of(token: Seq<u8>) -> Option<JsonValue> {
    match second_segment(token) {
        Some(seg) => match base64_url_no_pad_decoded(seg) {
            Some(bytes) => json_bytes_value(bytes),
            None => None,
        },
        None => None,
    }
}

/// The `exp` claim of an access token.
pub open spec fn access_token_expiry_of(token: Seq<u8>) -> Option<i64> {
    json_i64(json_get_opt(jwt_payload_of(token), "exp"@))
}

/// The `chatgpt_account_id` inside the auth claim of an access token.
pub open spec fn account_id_of(token: Seq<u8>) -> Option<Seq<char>> {
    json_str(json_get_opt(json_get_opt(jwt_payload_of(token), auth_claim()), "chatgpt_account_id"@))
}

/// The e-mail of an ID token payload: the `email` claim, else the `email`
/// inside the profile claim.
pub open spec fn email_of(payload: JsonValue) -> Option<Seq<char>> {
    match json_str(json_get_opt(Some(payload), "email"@)) {
        Some(e) => Some(e),
        None => json_str(
            json_get_opt(json_get_opt(Some(payload), "https://api.openai.com/profile"@), "email"@),
        ),
    }
}

/// The `chatgpt_plan_type` inside the auth claim of an ID token payload.
pub open spec fn plan_type_of(payload: JsonValue) -> Option<Seq<char>> {
    json_str(json_get_opt(json_get_opt(Some(payload), auth_claim()), "chatgpt_plan_type"@))
}

/// The bytes `b[a..e]` as a new vector.
fn byte_range(b: &[u8], a: usize, e: usize) -> (r: Vec<u8>)
    requires
        a <= e <= b@.len(),
    ensures
        r@ == b@.subrange(a as int, e as int),
{
    let mut r: Vec<u8> = Vec::new();
    let mut i = a;
    while i < e
        invariant
            a <= i <= e <= b@.len(),
            r@ == b@.subrange(a as int, i as int),
        decreases e - i,
    {
        r.push(b[i]);
        i = i + 1;
        assert(r@ =~= b@.subrange(a as int, i as int));
    }
    r
}

/// Position of the first `.` in `b[from..]`, or `b.len()`.
fn next_dot(b: &[u8], from: usize) -> (r: usize)
    requires
        from <= b@.len(),
    ensures
        from <= r <= b@.len(),
        r < b@.len() ==> first_index(b@.skip(from as int), 46u8) == Some(r - from),
        r == b@.len() ==> first_index(b@.skip(from as int), 46u8) is None,
{
    let mut i = from;
    while i < b.len() && b[i] != 46u8
        invariant
            from <= i <= b@.len(),
            forall|k: int| from <= k < i ==> b@[k] != 46u8,
        decreases b@.len() - i,
    {
        i = i + 1;
    }
    proof {
        let s = b@.skip(from as int);
        assert forall|k: int| 0 <= k < i - from implies s[k] != 46u8 by {
            assert(s[k] == b@[from + k]);
        }
        lemma_first_index(s, 46u8, i - from);
    }
    i
}

/// The payload segment of a token, as bytes.
pub fn payload_segment(token: &str) -> (r: Option<Vec<u8>>)
    ensures
        match r {
            Some(v) => second_segment(token.spec_bytes()) == Some(v@),
            None => second_segment(token.spec_bytes()) is None,
        },
{
    let b = token.as_bytes();
    let first = next_dot(b, 0);
    assert(b@.skip(0) =~= b@);
    if first == b.len() {
        return None;
    }
    let second = next_dot(b, first + 1);
    proof {
        let rest = b@.skip(first + 1);
        if second < b@.len() {
            assert(rest.take(second - first - 1) =~= b@.subrange(first + 1, second as int));
        } else {
            assert(rest =~= b@.subrange(first + 1, second as int));
        }
    }
    Some(byte_range(b, first + 1, second))
}

/// The decoded JSON payload of a JWT: the second `.`-separated segment,
/// base64url-decoded (no padding) and parsed as JSON.
pub fn jwt_payload(token: &str) -> (r: Option<JsonValue>)
    ensures
        r == jwt_payload_of(token.spec_bytes()),
{
    match payload_segment(token) {
        Some(seg) => match decode_base64_url_no_pad(seg.as_slice()) {
            Some(bytes) => json::parse_json_bytes(bytes.as_slice()),
            None => None,
        },
        None => None,
    }
}

/// The `exp` claim of an access token, when it is an integer in `i64`.
pub fn access_token_expiry(token: &str) -> (r: Option<i64>)
    ensures
        r == access_token_expiry_of(token.spec_bytes()),
{
    let payload = jwt_payload(token);
    match &payload {
        Some(p) => json::as_i64(json::get(p, "exp")),
        None => None,
    }
}

/// The ChatGPT workspace account id carried by an access token.
pub fn account_id_from_access_token(token: &str) -> (r: Option<String>)
    ensures
        match r {
            Some(s) => account_id_of(token.spec_bytes()) == Some(s@),
            None => account_id_of(token.spec_bytes()) is None,
        },
{
    let payload = jwt_payload(token);
    match &payload {
        Some(p) => {
            let auth = json::get(p, "https://api.openai.com/auth");
            match json::as_str(json::get_opt(auth, "chatgpt_account_id")) {
                Some(s) => Some(s.to_owned()),
                None => None,
            }
        },
        None => None,
    }
}

/// E-mail and plan type carried by an optional ID token.
pub fn identity_from_id_token(token: Option<&str>) -> (r: (Option<String>, Option<String>))
    ensures
        match token {
            Some(t) => match jwt_payload_of(t.spec_bytes()) {
                Some(p) => opt_chars(r.0) == email_of(p) && opt_chars(r.1) == plan_type_of(p),
                None => r.0 is None && r.1 is None,
            },
            None => r.0 is None && r.1 is None,
        },
{
    let payload = match token {
        Some(t) => jwt_payload(t),
        None => None,
    };
    match &payload {
        Some(p) => {
            let email = match json::as_str(json::get(p, "email")) {
                Some(e) => Some(e.to_owned()),
                None => {
                    let profile = json::get(p, "https://api.openai.com/profile");
                    match json::as_str(json::get_opt(profile, "email")) {
                        Some(e) => Some(e.to_owned()),
                        None => None,
                    }
                },
            };
            let auth = json::get(p, "https://api.openai.com/auth");
            let plan = match json::as_str(json::get_opt(auth, "chatgpt_plan_type")) {
                Some(s) => Some(s.to_owned()),
                None => None,
            };
            (email, plan)
        },
        None => (None, None),
    }
}

/// In `header.payload.signature` (and in `header.payload`), where neither
/// header nor payload holds a `.`, the payload segment is `payload`.
pub proof fn law_payload_segment(header: Seq<u8>, payload: Seq<u8>, signature: Seq<u8>)
    requires
        !header.contains(46u8),
        !payload.contains(46u8),
    ensures
        second_segment(header + seq![46u8] + payload + seq![46u8] + signature) == Some(payload),
        second_segment(header + seq![46u8] + payload) == Some(payload),
{
    let a = header + seq![46u8] + payload + seq![46u8] + signature;
    let b = header + seq![46u8] + payload;
    assert forall|k: int| 0 <= k < header.len() implies a[k] != 46u8 && b[k] != 46u8 by {
        assert(a[k] == header[k]);
        assert(b[k] == header[k]);
    }
    lemma_first_index(a, 46u8, header.len() as int);
    lemma_first_index(b, 46u8, header.len() as int);
    let ra = a.skip(header.len() as int + 1);
    let rb = b.skip(header.len() as int + 1);
    assert(ra =~= payload + seq![46u8] + signature);
    assert(rb =~= payload);
    assert forall|k: int| 0 <= k < payload.len() implies ra[k] != 46u8 && rb[k] != 46u8 by {
        assert(ra[k] == payload[k]);
    }
    lemma_first_index(ra, 46u8, payload.len() as int);
    lemma_first_index(rb, 46u8, payload.len() as int);
    assert(ra.take(payload.len() as int) =~= payload);
}

} // verus!
