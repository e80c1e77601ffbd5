use handy::codex::{PendingLogin, shutdown};
use handy::device::{
    device_login_for, device_login_http_error, device_login_request_body, device_poll_body,
    device_poll_decision, device_wait_deadline,
    parse_device_approval, parse_device_login, PendingLogins, PollDecision,
};
use handy::keychain::{
    after_legacy_read_error, after_protected_read_error, after_protected_save_error,
    delete_outcome, save_error, ReadFallback, ERR_SEC_ITEM_NOT_FOUND, ERR_SEC_MISSING_ENTITLEMENT,
};
use handy::model_commands::{
    check_model_available, clear_deleted_selection, dictation_needs_load, dictation_wait_expired,
    finish_switch, is_model_loading, load_in_progress_error, plan_dictation, plan_switch,
    restore_after_failed_dictation, restore_after_failed_switch, select_for_dictation,
    select_for_switch, selection_changed_event, ModelSettings, ModelSummary, SwitchAction,
};
use handy::unsupported;

fn login(code: &str) -> PendingLogin {
    PendingLogin { device_auth_id: format!("dev-{code}"), user_code: code.to_string(), interval_secs: 5 }
}

#[test]
fn pending_login_is_taken_once() {
    let mut logins = PendingLogins::new();
    logins.insert("id-1".to_string(), login("AAAA"));
    logins.insert("id-2".to_string(), login("BBBB"));
    let l = logins.take_for_wait("id-1").unwrap();
    assert_eq!(l.user_code, "AAAA");
    assert_eq!(
        logins.take_for_wait("id-1").err().as_deref(),
        Some("ChatGPT sign-in session expired. Start sign-in again.")
    );
    assert_eq!(logins.remove("id-2").map(|l| l.user_code).as_deref(), Some("BBBB"));
}

#[test]
fn pending_login_insert_replaces_and_clear_forgets() {
    let mut logins = PendingLogins::new();
    logins.insert("id".to_string(), login("OLD"));
    logins.insert("id".to_string(), login("NEW"));
    assert_eq!(logins.remove("id").map(|l| l.user_code).as_deref(), Some("NEW"));
    assert!(logins.remove("id").is_none());
    logins.insert("a".to_string(), login("A"));
    logins.insert("b".to_string(), login("B"));
    logins.clear();
    assert!(logins.remove("a").is_none());
    assert!(logins.remove("b").is_none());
}

#[test]
fn device_login_start() {
    assert_eq!(device_login_http_error(404).as_deref(), Some("DEVICE_CODE_DISABLED"));
    assert_eq!(
        device_login_http_error(500).as_deref(),
        Some("Failed to start ChatGPT device sign-in (HTTP 500).")
    );
    assert_eq!(device_login_http_error(200), None);

    let l = parse_device_login(br#"{"device_auth_id":"d1","user_code":"ABCD-1234","interval":"3"}"#).unwrap();
    assert_eq!(l.device_auth_id, "d1");
    assert_eq!(l.user_code, "ABCD-1234");
    assert_eq!(l.interval_secs, 3);
    let l = parse_device_login(br#"{"device_auth_id":"d1","usercode":"XY","interval":120}"#).unwrap();
    assert_eq!(l.user_code, "XY");
    assert_eq!(l.interval_secs, 60);
    assert_eq!(
        parse_device_login(br#"{"user_code":"XY"}"#).err().as_deref(),
        Some("ChatGPT device sign-in response did not contain device_auth_id.")
    );
    assert_eq!(
        parse_device_login(br#"{"device_auth_id":"d","user_code":5,"usercode":"XY"}"#).err().as_deref(),
        Some("ChatGPT device sign-in response did not contain a user code.")
    );
    assert_eq!(
        parse_device_login(b"nope").err().as_deref(),
        Some("ChatGPT device sign-in returned an unreadable response.")
    );
    let shown = device_login_for("handy-1-1".to_string(), &login("CODE"));
    assert_eq!(shown.login_id, "handy-1-1");
    assert_eq!(shown.verification_url, "https://auth.openai.com/codex/device");
    assert_eq!(shown.user_code, "CODE");
}

#[test]
fn device_polling() {
    assert!(matches!(device_poll_decision(403), PollDecision::KeepWaiting));
    assert!(matches!(device_poll_decision(404), PollDecision::KeepWaiting));
    assert!(matches!(device_poll_decision(200), PollDecision::Approved));
    match device_poll_decision(500) {
        PollDecision::Failed(m) => assert_eq!(
            m,
            "ChatGPT device sign-in failed while waiting for approval (HTTP 500)."
        ),
        _ => panic!("expected a failure"),
    }
    assert_eq!(
        parse_device_approval(br#"{"authorization_code":"c","code_verifier":"v"}"#).unwrap(),
        ("c".to_string(), "v".to_string())
    );
    assert_eq!(
        parse_device_approval(br#"{"code_verifier":"v"}"#).err().as_deref(),
        Some("ChatGPT approval response did not contain an authorization code.")
    );
    assert_eq!(
        parse_device_approval(br#"{"authorization_code":"c"}"#).err().as_deref(),
        Some("ChatGPT approval response did not contain a code verifier.")
    );
    assert_eq!(
        parse_device_approval(b"").err().as_deref(),
        Some("ChatGPT device sign-in approval returned an unreadable response.")
    );
}

#[test]
fn keychain_fallbacks() {
    assert!(matches!(after_protected_read_error(ERR_SEC_ITEM_NOT_FOUND), ReadFallback::TryLegacy));
    assert!(matches!(after_protected_read_error(ERR_SEC_MISSING_ENTITLEMENT), ReadFallback::TryLegacy));
    match after_protected_read_error(-128) {
        ReadFallback::Failed(m) => {
            assert_eq!(m, "macOS Keychain could not read ChatGPT credentials (OSStatus -128).")
        }
        _ => panic!("expected a failure"),
    }
    assert!(matches!(after_legacy_read_error(ERR_SEC_ITEM_NOT_FOUND), ReadFallback::NotStored));
    assert!(matches!(after_legacy_read_error(ERR_SEC_MISSING_ENTITLEMENT), ReadFallback::Failed(_)));
    assert!(after_protected_save_error(ERR_SEC_MISSING_ENTITLEMENT).is_ok());
    assert_eq!(
        after_protected_save_error(-25299).err().as_deref(),
        Some("macOS Keychain could not save ChatGPT credentials (OSStatus -25299).")
    );
    assert_eq!(save_error(7), "macOS Keychain could not save ChatGPT credentials (OSStatus 7).");
    assert!(delete_outcome(None, Some(ERR_SEC_ITEM_NOT_FOUND)).is_ok());
    assert!(delete_outcome(Some(ERR_SEC_MISSING_ENTITLEMENT), None).is_ok());
    assert_eq!(
        delete_outcome(Some(-1), Some(-2)).err().as_deref(),
        Some("macOS Keychain could not delete ChatGPT credentials (OSStatus -1).")
    );
    assert_eq!(
        delete_outcome(Some(ERR_SEC_ITEM_NOT_FOUND), Some(-2)).err().as_deref(),
        Some("macOS Keychain could not delete ChatGPT credentials (OSStatus -2).")
    );
}

#[test]
fn model_selection_decisions() {
    assert!(check_model_available("m", Some(true)).is_ok());
    assert_eq!(check_model_available("m", None).err().as_deref(), Some("Model not found: m"));
    assert_eq!(
        check_model_available("m", Some(false)).err().as_deref(),
        Some("Model not downloaded: m")
    );
    assert_eq!(load_in_progress_error(), "Model load already in progress");

    let settings = ModelSettings { selected_model: "old".to_string(), onboarding_completed: false };
    let (next, old_model, old_onboarding) = select_for_switch(settings, "new");
    assert_eq!(next.selected_model, "new");
    assert!(next.onboarding_completed);
    let back = restore_after_failed_switch(old_model, old_onboarding);
    assert_eq!(back.selected_model, "old");
    assert!(!back.onboarding_completed);

    let s = ModelSettings { selected_model: "a".to_string(), onboarding_completed: true };
    assert!(select_for_dictation(&s, "a").is_none());
    assert_eq!(select_for_dictation(&s, "b").unwrap().selected_model, "b");
    let during = ModelSettings { selected_model: "b".to_string(), onboarding_completed: true };
    assert_eq!(
        restore_after_failed_dictation(&during, "b", "a".to_string()).unwrap().selected_model,
        "a"
    );
    assert!(restore_after_failed_dictation(&during, "c", "a".to_string()).is_none());
    assert_eq!(clear_deleted_selection(&s, "a").unwrap().selected_model, "");
    assert!(clear_deleted_selection(&s, "z").is_none());

    let e = selection_changed_event("m1", "Model One");
    assert_eq!(e.event_type, "selection_changed");
    assert_eq!(e.model_id.as_deref(), Some("m1"));
    assert_eq!(e.model_name.as_deref(), Some("Model One"));
    assert!(e.error.is_none());
    assert!(is_model_loading(&None));
    assert!(!is_model_loading(&Some("m".to_string())));
}

#[test]
fn unsupported_platform_answers() {
    let msg = "ChatGPT account integration is currently available only on Apple Silicon macOS.";
    let s = unsupported::account_status().unwrap();
    assert!(!s.runtime_installed && !s.signed_in);
    assert_eq!(unsupported::start_device_login().err().as_deref(), Some(msg));
    assert_eq!(unsupported::wait_device_login("x".to_string()).err().as_deref(), Some(msg));
    assert!(!unsupported::logout().unwrap().signed_in);
    assert_eq!(unsupported::fetch_models().err().as_deref(), Some(msg));
    assert_eq!(
        unsupported::post_process(None, "p".to_string(), "t".to_string()).err().as_deref(),
        Some(msg)
    );
    unsupported::shutdown();
    shutdown();
}

#[test]
fn fresh_login_id_is_not_registered() {
    let mut logins = PendingLogins::new();
    let first = logins.fresh_login_id(7);
    assert!(first.starts_with("handy-"));
    assert!(first.ends_with("-7"));
    logins.insert(first.clone(), login("AAAA"));
    let second = logins.fresh_login_id(7);
    assert_ne!(second, first);
    assert!(second.ends_with("-7") || second.ends_with("-8"));
    assert!(logins.take_for_wait(&second).is_err());
    assert!(logins.take_for_wait(&first).is_ok());
}

#[test]
fn fresh_login_id_wraps_the_counter() {
    let logins = PendingLogins::new();
    let id = logins.fresh_login_id(u64::MAX);
    assert!(id.ends_with(&format!("-{}", u64::MAX)));
}

#[test]
fn device_wait_gives_up_after_fifteen_minutes() {
    assert_eq!(device_wait_deadline(0), Ok(()));
    assert_eq!(device_wait_deadline(899), Ok(()));
    assert_eq!(
        device_wait_deadline(900),
        Err("CHATGPT_DEVICE_CODE_TIMEOUT".to_string())
    );
    assert_eq!(
        device_wait_deadline(u64::MAX),
        Err("CHATGPT_DEVICE_CODE_TIMEOUT".to_string())
    );
}

fn summary(name: &str, is_downloaded: bool) -> Option<ModelSummary> {
    Some(ModelSummary { name: name.to_string(), is_downloaded })
}

fn settings(selected: &str, onboarding_completed: bool) -> ModelSettings {
    ModelSettings { selected_model: selected.to_string(), onboarding_completed }
}

#[test]
fn switch_checks_come_in_order() {
    let busy = plan_switch(false, "m", None, settings("old", false), false);
    assert_eq!(busy.err().as_deref(), Some("Model load already in progress"));
    let busy = plan_switch(false, "m", summary("M", false), settings("old", false), false);
    assert_eq!(busy.err().as_deref(), Some("Model load already in progress"));
    let unknown = plan_switch(true, "m", None, settings("old", false), false);
    assert_eq!(unknown.err().as_deref(), Some("Model not found: m"));
    let missing = plan_switch(true, "m", summary("M", false), settings("old", false), true);
    assert_eq!(missing.err().as_deref(), Some("Model not downloaded: m"));
}

#[test]
fn switch_loads_or_only_announces() {
    let plan = plan_switch(true, "m", summary("Model M", true), settings("old", false), false).unwrap();
    assert_eq!(plan.settings.selected_model, "m");
    assert!(plan.settings.onboarding_completed);
    assert_eq!(plan.previous_model, "old");
    assert!(!plan.previous_onboarding);
    assert!(matches!(plan.action, SwitchAction::Load));

    let plan = plan_switch(true, "m", summary("Model M", true), settings("old", true), true).unwrap();
    assert_eq!(plan.settings.selected_model, "m");
    assert!(plan.previous_onboarding);
    match plan.action {
        SwitchAction::Announce(ev) => {
            assert_eq!(ev.event_type, "selection_changed");
            assert_eq!(ev.model_id.as_deref(), Some("m"));
            assert_eq!(ev.model_name.as_deref(), Some("Model M"));
            assert!(ev.error.is_none());
        }
        SwitchAction::Load => panic!("a switch with immediate unload must not load"),
    }
}

#[test]
fn failed_switch_restores_previous_selection() {
    let (write, answer) = finish_switch(Err("boom".to_string()), "old".to_string(), false);
    let restored = write.unwrap();
    assert_eq!(restored.selected_model, "old");
    assert!(!restored.onboarding_completed);
    assert_eq!(answer, Err("boom".to_string()));
    let (write, answer) = finish_switch(Ok(()), "old".to_string(), false);
    assert!(write.is_none());
    assert_eq!(answer, Ok(()));
}

#[test]
fn dictation_announces_only_a_changed_selection() {
    assert_eq!(
        plan_dictation("m", None, &settings("a", true), &None).err().as_deref(),
        Some("Model not found: m")
    );
    assert_eq!(
        plan_dictation("m", summary("M", false), &settings("a", true), &None).err().as_deref(),
        Some("Model not downloaded: m")
    );

    let same = plan_dictation("a", summary("A", true), &settings("a", true), &Some("a".to_string()))
        .unwrap();
    assert!(same.settings.is_none());
    assert!(same.event.is_none());
    assert!(!same.load);
    assert_eq!(same.previous_model, "a");

    let changed =
        plan_dictation("b", summary("Model B", true), &settings("a", false), &Some("a".to_string()))
            .unwrap();
    let written = changed.settings.unwrap();
    assert_eq!(written.selected_model, "b");
    assert!(!written.onboarding_completed);
    let ev = changed.event.unwrap();
    assert_eq!(ev.event_type, "selection_changed");
    assert_eq!(ev.model_id.as_deref(), Some("b"));
    assert_eq!(ev.model_name.as_deref(), Some("Model B"));
    assert!(changed.load);
    assert_eq!(changed.previous_model, "a");

    let selected_not_loaded =
        plan_dictation("a", summary("A", true), &settings("a", true), &None).unwrap();
    assert!(selected_not_loaded.event.is_none());
    assert!(selected_not_loaded.load);
}

#[test]
fn dictation_load_decisions() {
    assert!(dictation_needs_load(&None, "m"));
    assert!(dictation_needs_load(&Some("other".to_string()), "m"));
    assert!(!dictation_needs_load(&Some("m".to_string()), "m"));
    assert!(!dictation_wait_expired(0));
    assert!(!dictation_wait_expired(59_999));
    assert!(dictation_wait_expired(60_000));
}

fn members(v: &handy::json::JsonValue) -> Vec<(String, String)> {
    match v {
        handy::json::JsonValue::Object(m) => m
            .iter()
            .map(|(k, x)| match x {
                handy::json::JsonValue::Str(s) => (k.clone(), s.clone()),
                _ => (k.clone(), String::from("<not a string>")),
            })
            .collect(),
        _ => Vec::new(),
    }
}

#[test]
fn device_request_bodies() {
    assert_eq!(
        members(&device_login_request_body()),
        vec![("client_id".to_string(), "app_EMoamEEZ73f0CkXaXp7hrann".to_string())]
    );
    assert_eq!(
        members(&device_poll_body(&login("WXYZ"))),
        vec![
            ("device_auth_id".to_string(), "dev-WXYZ".to_string()),
            ("user_code".to_string(), "WXYZ".to_string()),
        ]
    );
}
