//! Device-code sign-in: starting it, keeping the logins that wait for
//! approval, and reading the server's answers while polling.

use vstd::prelude::*;
use crate::codex::{PendingLogin, CodexDeviceLogin, poll_interval, poll_interval_of, is_success,
    with_status, or_else, login_id, login_id_text, lemma_login_id_counter, client_id_text};
use crate::json::{self, JsonValue, json_get, json_str, json_field_str, json_bytes_value, json_keys,
    member, string_value, lemma_object_lookup_distinct};
use crate::text;

verus! {

broadcast use vstd::string::group_string_axioms;

/// Page on which the user enters the device code.
pub open spec fn verification_url_text() -> Seq<char> {
    "https://auth.openai.com/codex/device"@
}

/// The body that starts a device sign-in: `{"client_id": ...}`.
pub fn device_login_request_body() -> (r: JsonValue)
    ensures
        json_keys(r) == seq!["client_id"@],
        json_field_str(r, "client_id"@) == Some(client_id_text()),
{
    let mut v: Vec<(String, JsonValue)> = Vec::new();
    v.push(member("client_id", string_value("app_EMoamEEZ73f0CkXaXp7hrann")));
    proof {
        let ks = v@.map_values(|m: (String, JsonValue)| m.0@);
        assert(ks =~= seq!["client_id"@]);
        lemma_object_lookup_distinct(v@);
        assert(v@[0].0@ == "client_id"@);
    }
    JsonValue::Object(v)
}

/// The body of one poll for the approval of `login`:
/// `{"device_auth_id": ..., "user_code": ...}`.
pub fn device_poll_body(login: &PendingLogin) -> (r: JsonValue)
    ensures
        json_keys(r) == seq!["device_auth_id"@, "user_code"@],
        json_field_str(r, "device_auth_id"@) == Some(login.device_auth_id@),
        json_field_str(r, "user_code"@) == Some(login.user_code@),
{
    let mut v: Vec<(String, JsonValue)> = Vec::new();
    v.push(member("device_auth_id", string_value(login.device_auth_id.as_str())));
    v.push(member("user_code", string_value(login.user_code.as_str())));
    proof {
        reveal_strlit("device_auth_id");
        reveal_strlit("user_code");
        let ks = v@.map_values(|m: (String, JsonValue)| m.0@);
        assert(ks =~= seq!["device_auth_id"@, "user_code"@]);
        assert("device_auth_id"@.len() != "user_code"@.len());
        assert(ks.no_duplicates());
        lemma_object_lookup_distinct(v@);
        assert(v@[0].0@ == "device_auth_id"@ && v@[1].0@ == "user_code"@);
    }
    JsonValue::Object(v)
}

/// The error for a start-of-sign-in request answered with `status`, if it
/// is one: 404 means device-code sign-in is disabled for the account.
pub fn device_login_http_error(status: u16) -> (r: Option<String>)
    ensures
        status == 404 ==> (r matches Some(e) && e@ == "DEVICE_CODE_DISABLED"@),
        status != 404 && is_success(status) ==> r is None,
        status != 404 && !is_success(status) ==> (r matches Some(e) && e@ == with_status(
            "Failed to start ChatGPT device sign-in (HTTP "@,
            status,
            ")."@,
        )),
{
    if status == 404 {
        return Some("DEVICE_CODE_DISABLED".to_owned());
    }
    if !(200 <= status && status <= 299) {
        return Some(
            text::message_with_code(
                "Failed to start ChatGPT device sign-in (HTTP ",
                status as i64,
                ").",
            ),
        );
    }
    None
}

/// The user code of a start-of-sign-in payload: `user_code`, else
/// `usercode`.
pub open spec fn user_code_of(p: JsonValue) -> Option<Seq<char>> {
    json_str(or_else(json_get(p, "user_code"@), json_get(p, "usercode"@)))
}

/// The pending login a start-of-sign-in payload describes.
pub open spec fn pending_login_of(p: JsonValue) -> Result<(Seq<char>, Seq<char>, u64), Seq<char>> {
    match json_field_str(p, "device_auth_id"@) {
        None => Err("ChatGPT device sign-in response did not contain device_auth_id."@),
        Some(id) => match user_code_of(p) {
            None => Err("ChatGPT device sign-in response did not contain a user code."@),
            Some(code) => Ok((id, code, poll_interval_of(json_get(p, "interval"@)))),
        },
    }
}

/// A pending login as the triple (device auth id, user code, interval).
pub open spec fn pending_view(l: PendingLogin) -> (Seq<char>, Seq<char>, u64) {
    (l.device_auth_id@, l.user_code@, l.interval_secs)
}

/// The pending login described by the body of a successful
/// start-of-sign-in response.
pub fn parse_device_login(body: &[u8]) -> (r: Result<PendingLogin, String>)
    ensures
        match json_bytes_value(body@) {
            None => r matches Err(e) && e@
                == "ChatGPT device sign-in returned an unreadable response."@,
            Some(p) => match (r, pending_login_of(p)) {
                (Ok(l), Ok(v)) => pending_view(l) == v,
                (Err(e), Err(m)) => e@ == m,
                _ => false,
            },
        },
{
    let payload = match json::parse_json_bytes(body) {
        Some(p) => p,
        None => {
            return Err("ChatGPT device sign-in returned an unreadable response.".to_owned());
        },
    };
    let device_auth_id = match json::as_str(json::get(&payload, "device_auth_id")) {
        Some(s) => s.to_owned(),
        None => {
            return Err(
                "ChatGPT device sign-in response did not contain device_auth_id.".to_owned(),
            );
        },
    };
    let code_value = match json::get(&payload, "user_code") {
        Some(v) => Some(v),
        None => json::get(&payload, "usercode"),
    };
    let user_code = match json::as_str(code_value) {
        Some(s) => s.to_owned(),
        None => {
            return Err(
                "ChatGPT device sign-in response did not contain a user code.".to_owned(),
            );
        },
    };
    let interval_secs = poll_interval(json::get(&payload, "interval"));
    Ok(PendingLogin { device_auth_id, user_code, interval_secs })
}

/// What the user is shown for a login registered under `login_id`.
pub fn device_login_for(login_id: String, pending: &PendingLogin) -> (r: CodexDeviceLogin)
    ensures
        r.login_id == login_id,
        r.verification_url@ == verification_url_text(),
        r.user_code@ == pending.user_code@,
{
    CodexDeviceLogin {
        login_id,
        verification_url: "https://auth.openai.com/codex/device".to_owned(),
        user_code: pending.user_code.clone(),
    }
}

/// How long a device sign-in may wait for approval: 15 minutes.
pub const LOGIN_TIMEOUT_SECS: u64 = 900;

/// Checked before each poll, given the whole seconds elapsed since the
/// wait began: once 15 minutes have passed the sign-in ends with
/// `CHATGPT_DEVICE_CODE_TIMEOUT`, otherwise polling goes on.
pub fn device_wait_deadline(elapsed_secs: u64) -> (r: Result<(), String>)
    ensures
        elapsed_secs >= LOGIN_TIMEOUT_SECS ==> (r matches Err(e) && e@
            == "CHATGPT_DEVICE_CODE_TIMEOUT"@),
        elapsed_secs < LOGIN_TIMEOUT_SECS ==> r is Ok,
{
    if elapsed_secs >= LOGIN_TIMEOUT_SECS {
        Err("CHATGPT_DEVICE_CODE_TIMEOUT".to_owned())
    } else {
        Ok(())
    }
}

/// What a poll of the device-token endpoint leads to.
#[derive(Debug)]
pub enum PollDecision {
    /// Not approved yet: sleep for the interval and poll again.
    KeepWaiting,
    /// Approved: the body carries the authorization code.
    Approved,
    /// Give up with this message.
    Failed(String),
}

/// The decision for a poll answered with `status`: 403 and 404 mean "not
/// yet", another failure ends the sign-in.
pub fn device_poll_decision(status: u16) -> (r: PollDecision)
    ensures
        (status == 403 || status == 404) ==> r is KeepWaiting,
        !(status == 403 || status == 404) && is_success(status) ==> r is Approved,
        !(status == 403 || status == 404) && !is_success(status) ==> (r matches PollDecision::Failed(
            e,
        ) && e@ == with_status(
            "ChatGPT device sign-in failed while waiting for approval (HTTP "@,
            status,
            ")."@,
        )),
{
    if status == 403 || status == 404 {
        return PollDecision::KeepWaiting;
    }
    if !(200 <= status && status <= 299) {
        return PollDecision::Failed(
            text::message_with_code(
                "ChatGPT device sign-in failed while waiting for approval (HTTP ",
                status as i64,
                ").",
            ),
        );
    }
    PollDecision::Approved
}

/// The authorization code and code verifier of an approval payload.
pub open spec fn approval_of(p: JsonValue) -> Result<(Seq<char>, Seq<char>), Seq<char>> {
    match json_field_str(p, "authorization_code"@) {
        None => Err("ChatGPT approval response did not contain an authorization code."@),
        Some(code) => match json_field_str(p, "code_verifier"@) {
            None => Err("ChatGPT approval response did not contain a code verifier."@),
            Some(verifier) => Ok((code, verifier)),
        },
    }
}

/// The authorization code and code verifier from the body of an approval.
pub fn parse_device_approval(body: &[u8]) -> (r: Result<(String, String), String>)
    ensures
        match json_bytes_value(body@) {
            None => r matches Err(e) && e@
                == "ChatGPT device sign-in approval returned an unreadable response."@,
            Some(p) => match (r, approval_of(p)) {
                (Ok((c, v)), Ok((sc, sv))) => c@ == sc && v@ == sv,
                (Err(e), Err(m)) => e@ == m,
                _ => false,
            },
        },
{
    let payload = match json::parse_json_bytes(body) {
        Some(p) => p,
        None => {
            return Err(
                "ChatGPT device sign-in approval returned an unreadable response.".to_owned(),
            );
        },
    };
    let code = match json::as_str(json::get(&payload, "authorization_code")) {
        Some(s) => s.to_owned(),
        None => {
            return Err(
                "ChatGPT approval response did not contain an authorization code.".to_owned(),
            );
        },
    };
    let verifier = match json::as_str(json::get(&payload, "code_verifier")) {
        Some(s) => s.to_owned(),
        None => {
            return Err(
                "ChatGPT approval response did not contain a code verifier.".to_owned(),
            );
        },
    };
    Ok((code, verifier))
}

/// Whether some entry of `s` has key `k`.
pub open spec fn has_key(s: Seq<(String, PendingLogin)>, k: Seq<char>) -> bool {
    exists|i: int| 0 <= i < s.len() && #[trigger] s[i].0@ == k
}

/// The entries as a map from login id to pending login.
pub open spec fn entries_map(s: Seq<(String, PendingLogin)>) -> Map<Seq<char>, PendingLogin> {
    Map::new(
        |k: Seq<char>| has_key(s, k),
        |k: Seq<char>| s[choose|i: int| 0 <= i < s.len() && #[trigger] s[i].0@ == k].1,
    )
}

/// No two entries share a key.
pub open spec fn keys_unique(s: Seq<(String, PendingLogin)>) -> bool {
    forall|i: int, j: int| 0 <= i < s.len() && 0 <= j < s.len() && #[trigger] s[i].0@ == #[trigger] s[j].0@ ==> i == j
}

/// Device sign-ins waiting for approval, by login id.
pub struct PendingLogins {
    entries: Vec<(String, PendingLogin)>,
}

impl View for PendingLogins {
    type V = Map<Seq<char>, PendingLogin>;

    closed spec fn view(&self) -> Map<Seq<char>, PendingLogin> {
        entries_map(self.entries@)
    }
}

proof fn lemma_entries_map_at(s: Seq<(String, PendingLogin)>, i: int)
    requires
        keys_unique(s),
        0 <= i < s.len(),
    ensures
        entries_map(s).contains_key(s[i].0@),
        entries_map(s)[s[i].0@] == s[i].1,
{
    let k = s[i].0@;
    assert(has_key(s, k));
    let j = choose|j: int| 0 <= j < s.len() && #[trigger] s[j].0@ == k;
    assert(s[j].0@ == s[i].0@);
}

impl PendingLogins {
    #[verifier::type_invariant]
    spec fn inv(self) -> bool {
        keys_unique(self.entries@)
    }

    /// No login is waiting.
    pub fn new() -> (r: PendingLogins)
        ensures
            r@ == Map::<Seq<char>, PendingLogin>::empty(),
    {
        let r = PendingLogins { entries: Vec::new() };
        assert(r@ =~= Map::<Seq<char>, PendingLogin>::empty());
        r
    }

    /// Index of the entry with key `id`.
    fn find(&self, id: &str) -> (r: Option<usize>)
        ensures
            match r {
                Some(i) => i < self.entries@.len() && self.entries@[i as int].0@ == id@,
                None => !has_key(self.entries@, id@),
            },
    {
        let k = text::chars_of(id);
        let mut i: usize = 0;
        while i < self.entries.len()
            invariant
                i <= self.entries@.len(),
                k@ == id@,
                forall|j: int| 0 <= j < i ==> #[trigger] self.entries@[j].0@ != id@,
            decreases self.entries@.len() - i,
        {
            let name = text::chars_of(self.entries[i].0.as_str());
            if text::seq_eq(&name, &k) {
                return Some(i);
            }
            i = i + 1;
        }
        None
    }

    /// Registers `login` under `login_id`, replacing any login with that id.
    pub fn insert(&mut self, login_id: String, login: PendingLogin)
        ensures
            final(self)@ == old(self)@.insert(login_id@, login),
    {
        proof {
            use_type_invariant(&*self);
        }
        let ghost key = login_id@;
        let ghost old_entries = self.entries@;
        match self.find(login_id.as_str()) {
            Some(i) => {
                let mut entries: Vec<(String, PendingLogin)> = Vec::new();
                std::mem::swap(&mut entries, &mut self.entries);
                entries.remove(i);
                entries.push((login_id, login));
                proof {
                    let s = entries@;
                    assert(keys_unique(s)) by {
                        assert forall|a: int, b: int|
                            0 <= a < s.len() && 0 <= b < s.len() && #[trigger] s[a].0@
                                == #[trigger] s[b].0@ implies a == b by {
                            let oa = if a < i { a } else if a < s.len() - 1 { a + 1 } else { i as int };
                            let ob = if b < i { b } else if b < s.len() - 1 { b + 1 } else { i as int };
                            assert(s[a] == old_entries[oa] || a == s.len() - 1);
                            if a == s.len() - 1 && b < s.len() - 1 {
                                assert(old_entries[ob].0@ == key);
                                assert(old_entries[i as int].0@ == key);
                            } else if b == s.len() - 1 && a < s.len() - 1 {
                                assert(old_entries[oa].0@ == key);
                                assert(old_entries[i as int].0@ == key);
                            } else if a < s.len() - 1 && b < s.len() - 1 {
                                assert(old_entries[oa].0@ == old_entries[ob].0@);
                            }
                        }
                    }
                    assert(entries_map(s) =~= entries_map(old_entries).insert(key, login)) by {
                        assert forall|k: Seq<char>| #[trigger] has_key(s, k) == (k == key
                            || has_key(old_entries, k)) by {
                            if has_key(old_entries, k) && k != key {
                                let j = choose|j: int| 0 <= j < old_entries.len() && #[trigger] old_entries[j].0@ == k;
                                let nj = if j < i { j } else { j - 1 };
                                assert(j != i);
                                assert(s[nj] == old_entries[j]);
                            }
                            if has_key(s, k) && k != key {
                                let j = choose|j: int| 0 <= j < s.len() && #[trigger] s[j].0@ == k;
                                let oj = if j < i { j } else { j + 1 };
                                assert(s[j] == old_entries[oj]);
                            }
                            assert(s[s.len() - 1].0@ == key);
                        }
                        assert forall|k: Seq<char>| has_key(s, k) implies #[trigger] entries_map(s)[k]
                            == entries_map(old_entries).insert(key, login)[k] by {
                            let j = choose|j: int| 0 <= j < s.len() && #[trigger] s[j].0@ == k;
                            lemma_entries_map_at(s, j);
                            if k != key {
                                let oj = if j < i { j } else { j + 1 };
                                assert(s[j] == old_entries[oj]);
                                lemma_entries_map_at(old_entries, oj);
                            } else {
                                assert(j == s.len() - 1);
                            }
                        }
                    }
                }
                self.entries = entries;
            },
            None => {
                let mut entries: Vec<(String, PendingLogin)> = Vec::new();
                std::mem::swap(&mut entries, &mut self.entries);
                entries.push((login_id, login));
                proof {
                    let s = entries@;
                    assert(keys_unique(s)) by {
                        assert forall|a: int, b: int|
                            0 <= a < s.len() && 0 <= b < s.len() && #[trigger] s[a].0@
                                == #[trigger] s[b].0@ implies a == b by {
                            if a < s.len() - 1 && b == s.len() - 1 {
                                assert(old_entries[a].0@ == key);
                            }
                            if b < s.len() - 1 && a == s.len() - 1 {
                                assert(old_entries[b].0@ == key);
                            }
                        }
                    }
                    assert(entries_map(s) =~= entries_map(old_entries).insert(key, login)) by {
                        assert forall|k: Seq<char>| #[trigger] has_key(s, k) == (k == key
                            || has_key(old_entries, k)) by {
                            if has_key(old_entries, k) {
                                let j = choose|j: int| 0 <= j < old_entries.len() && #[trigger] old_entries[j].0@ == k;
                                assert(s[j] == old_entries[j]);
                            }
                            if has_key(s, k) && k != key {
                                let j = choose|j: int| 0 <= j < s.len() && #[trigger] s[j].0@ == k;
                                assert(s[j] == old_entries[j]);
                            }
                            assert(s[s.len() - 1].0@ == key);
                        }
                        assert forall|k: Seq<char>| has_key(s, k) implies #[trigger] entries_map(s)[k]
                            == entries_map(old_entries).insert(key, login)[k] by {
                            let j = choose|j: int| 0 <= j < s.len() && #[trigger] s[j].0@ == k;
                            lemma_entries_map_at(s, j);
                            if k != key {
                                assert(s[j] == old_entries[j]);
                                lemma_entries_map_at(old_entries, j);
                            } else {
                                assert(j == s.len() - 1);
                            }
                        }
                    }
                }
                self.entries = entries;
            },
        }
    }

    /// Takes the login registered under `login_id` out of the registry.
    pub fn remove(&mut self, login_id: &str) -> (r: Option<PendingLogin>)
        ensures
            match r {
                Some(l) => old(self)@.contains_key(login_id@) && l == old(self)@[login_id@],
                None => !old(self)@.contains_key(login_id@),
            },
            final(self)@ == old(self)@.remove(login_id@),
    {
        proof {
            use_type_invariant(&*self);
        }
        let ghost key = login_id@;
        let ghost old_entries = self.entries@;
        match self.find(login_id) {
            Some(i) => {
                proof {
                    lemma_entries_map_at(old_entries, i as int);
                }
                let mut entries: Vec<(String, PendingLogin)> = Vec::new();
                std::mem::swap(&mut entries, &mut self.entries);
                let (_, login) = entries.remove(i);
                proof {
                    let s = entries@;
                    assert(keys_unique(s)) by {
                        assert forall|a: int, b: int|
                            0 <= a < s.len() && 0 <= b < s.len() && #[trigger] s[a].0@
                                == #[trigger] s[b].0@ implies a == b by {
                            let oa = if a < i { a } else { a + 1 };
                            let ob = if b < i { b } else { b + 1 };
                            assert(s[a] == old_entries[oa]);
                            assert(s[b] == old_entries[ob]);
                        }
                    }
                    assert(entries_map(s) =~= entries_map(old_entries).remove(key)) by {
                        assert forall|k: Seq<char>| #[trigger] has_key(s, k) == (k != key
                            && has_key(old_entries, k)) by {
                            if has_key(old_entries, k) && k != key {
                                let j = choose|j: int| 0 <= j < old_entries.len() && #[trigger] old_entries[j].0@ == k;
                                let nj = if j < i { j } else { j - 1 };
                                assert(j != i);
                                assert(s[nj] == old_entries[j]);
                            }
                            if has_key(s, k) {
                                let j = choose|j: int| 0 <= j < s.len() && #[trigger] s[j].0@ == k;
                                let oj = if j < i { j } else { j + 1 };
                                assert(s[j] == old_entries[oj]);
                                assert(oj != i);
                            }
                        }
                        assert forall|k: Seq<char>| has_key(s, k) implies #[trigger] entries_map(s)[k]
                            == entries_map(old_entries)[k] by {
                            let j = choose|j: int| 0 <= j < s.len() && #[trigger] s[j].0@ == k;
                            lemma_entries_map_at(s, j);
                            let oj = if j < i { j } else { j + 1 };
                            assert(s[j] == old_entries[oj]);
                            lemma_entries_map_at(old_entries, oj);
                        }
                    }
                }
                self.entries = entries;
                Some(login)
            },
            None => {
                assert(entries_map(old_entries).remove(key) =~= entries_map(old_entries));
                None
            },
        }
    }

    /// Forgets every waiting login.
    pub fn clear(&mut self)
        ensures
            final(self)@ == Map::<Seq<char>, PendingLogin>::empty(),
    {
        self.entries = Vec::new();
        assert(self@ =~= Map::<Seq<char>, PendingLogin>::empty());
    }

    /// Takes out the login a waiting sign-in refers to; a missing one means
    /// the session expired.
    pub fn take_for_wait(&mut self, login_id: &str) -> (r: Result<PendingLogin, String>)
        ensures
            match r {
                Ok(l) => old(self)@.contains_key(login_id@) && l == old(self)@[login_id@],
                Err(e) => !old(self)@.contains_key(login_id@) && e@
                    == "ChatGPT sign-in session expired. Start sign-in again."@,
            },
            final(self)@ == old(self)@.remove(login_id@),
    {
        match self.remove(login_id) {
            Some(l) => Ok(l),
            None => Err("ChatGPT sign-in session expired. Start sign-in again.".to_owned()),
        }
    }

    /// A sign-in session id that no waiting login holds: the id made from
    /// `first_counter`, or from the first counter after it (wrapping) whose
    /// id is free. A counter is passed over only when an id made from it is
    /// waiting, so at most as many counters are passed over as logins wait.
    pub fn fresh_login_id(&self, first_counter: u64) -> (r: String)
        ensures
            !self@.contains_key(r@),
            exists|millis: nat, k: nat|
                {
                    &&& k <= self@.dom().len()
                    &&& forall|j: nat| j < k ==> #[trigger] counter_taken(self@, first_counter, j)
                    &&& r@ == #[trigger] login_id_text(millis, counter_after(first_counter, k))
                },
    {
        proof {
            use_type_invariant(self);
            lemma_entries_dom_len(self.entries@);
        }
        let ghost s = self.entries@;
        let waiting = self.entries.len();
        let mut counter: u64 = first_counter;
        let mut tried: usize = 0;
        let ghost mut found: Seq<int> = Seq::empty();
        loop
            invariant
                s == self.entries@,
                keys_unique(s),
                self@.dom().len() == s.len(),
                tried <= s.len(),
                found.len() == tried,
                counter as nat == counter_after(first_counter, tried as nat),
                forall|j: int| 0 <= j < tried ==> 0 <= #[trigger] found[j] < s.len(),
                forall|j: int|
                    0 <= j < tried ==> id_from_counter(
                        s[#[trigger] found[j]].0@,
                        first_counter,
                        j as nat,
                    ),
                found.no_duplicates(),
                s.len() == waiting,
            decreases s.len() - tried,
        {
            let id = login_id(counter);
            let ghost mid = choose|m: nat| id@ == login_id_text(m, counter as nat);
            match self.find(id.as_str()) {
                None => {
                    assert(id@ == login_id_text(mid, counter_after(first_counter, tried as nat)));
                    assert forall|j: nat| j < tried implies #[trigger] counter_taken(
                        self@,
                        first_counter,
                        j,
                    ) by {
                        let jj = j as int;
                        assert(id_from_counter(s[found[jj]].0@, first_counter, j));
                        let m = choose|m: nat|
                            s[found[jj]].0@ == #[trigger] login_id_text(
                                m,
                                counter_after(first_counter, j),
                            );
                        assert(has_key(s, s[found[jj]].0@));
                        assert(self@.contains_key(login_id_text(m, counter_after(first_counter, j))));
                    }
                    return id;
                },
                Some(i) => {
                    proof {
                        assert forall|j: int| 0 <= j < tried implies found[j] != i as int by {
                            if found[j] == i as int {
                                assert(id_from_counter(s[found[j]].0@, first_counter, j as nat));
                                let mj = choose|m: nat|
                                    s[found[j]].0@ == #[trigger] login_id_text(
                                        m,
                                        counter_after(first_counter, j as nat),
                                    );
                                lemma_login_id_counter(
                                    mj,
                                    counter_after(first_counter, j as nat),
                                    mid,
                                    counter as nat,
                                );
                                lemma_counter_after_distinct(first_counter, j as nat, tried as nat);
                            }
                        }
                        let old_found = found;
                        found = found.push(i as int);
                        assert forall|j: int| 0 <= j < tried + 1 implies id_from_counter(
                            s[#[trigger] found[j]].0@,
                            first_counter,
                            j as nat,
                        ) by {
                            if j < tried {
                                assert(found[j] == old_found[j]);
                            } else {
                                assert(s[found[j]].0@ == login_id_text(
                                    mid,
                                    counter_after(first_counter, j as nat),
                                ));
                            }
                        }
                        lemma_distinct_indices_below(found, s.len() as int);
                    }
                    counter = if counter == u64::MAX { 0 } else { counter + 1 };
                    tried = tried + 1;
                },
            }
        }
    }
}

/// Some session id made from the counter `k` places after `first` is a
/// key of `logins`.
pub open spec fn counter_taken(logins: Map<Seq<char>, PendingLogin>, first: u64, k: nat) -> bool {
    exists|m: nat| logins.contains_key(#[trigger] login_id_text(m, counter_after(first, k)))
}

/// `id` is a session id made from the counter `k` places after `first`.
spec fn id_from_counter(id: Seq<char>, first: u64, k: nat) -> bool {
    exists|m: nat| id == #[trigger] login_id_text(m, counter_after(first, k))
}

/// The counter `k` places after `first`, wrapping at 2^64.
pub open spec fn counter_after(first: u64, k: nat) -> nat {
    ((first as nat + k) % 0x1_0000_0000_0000_0000) as nat
}

proof fn lemma_counter_after_distinct(first: u64, j: nat, t: nat)
    requires
        j < t,
        t < 0x1_0000_0000_0000_0000,
    ensures
        counter_after(first, j) != counter_after(first, t),
{
}

/// A sequence of distinct indices below `n` is at most `n` long.
proof fn lemma_distinct_indices_below(found: Seq<int>, n: int)
    requires
        0 <= n,
        found.no_duplicates(),
        forall|j: int| 0 <= j < found.len() ==> 0 <= #[trigger] found[j] < n,
    ensures
        found.len() <= n,
{
    found.unique_seq_to_set();
    vstd::set_lib::lemma_int_range(0, n);
    assert(found.to_set().subset_of(vstd::set_lib::set_int_range(0, n)));
    vstd::set_lib::lemma_len_subset(found.to_set(), vstd::set_lib::set_int_range(0, n));
}

/// With distinct keys, as many logins wait as there are entries.
proof fn lemma_entries_dom_len(s: Seq<(String, PendingLogin)>)
    requires
        keys_unique(s),
    ensures
        entries_map(s).dom().finite(),
        entries_map(s).dom().len() == s.len(),
{
    let ks = s.map_values(|e: (String, PendingLogin)| e.0@);
    assert(ks.no_duplicates()) by {
        assert forall|i: int, j: int| 0 <= i < ks.len() && 0 <= j < ks.len() && i != j implies ks[i]
            != ks[j] by {
            if ks[i] == ks[j] {
                assert(s[i].0@ == s[j].0@);
            }
        }
    }
    ks.unique_seq_to_set();
    vstd::seq_lib::seq_to_set_is_finite(ks);
    assert(entries_map(s).dom() =~= ks.to_set()) by {
        assert forall|k: Seq<char>| has_key(s, k) implies ks.contains(k) by {
            let i = choose|i: int| 0 <= i < s.len() && #[trigger] s[i].0@ == k;
            assert(ks[i] == k);
        }
        assert forall|k: Seq<char>| ks.contains(k) implies has_key(s, k) by {
            let i = choose|i: int| 0 <= i < ks.len() && ks[i] == k;
            assert(s[i].0@ == k);
        }
    }
}

/// A login registered at the start of a sign-in is the one the wait takes
/// out, and only once: a second wait on the same id finds nothing.
pub proof fn law_pending_login_taken_once(
    logins: Map<Seq<char>, PendingLogin>,
    login_id: Seq<char>,
    login: PendingLogin,
)
    ensures
        logins.insert(login_id, login).contains_key(login_id),
        logins.insert(login_id, login)[login_id] == login,
        !logins.insert(login_id, login).remove(login_id).contains_key(login_id),
{
}

} // verus!
