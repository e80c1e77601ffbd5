//! The ChatGPT-account backend on platforms where it is not offered: every
//! operation reports that, and the status is "not installed, signed out".

use vstd::prelude::*;
use crate::codex::{CodexAccountStatus, CodexDeviceLogin};

verus! {

broadcast use vstd::string::group_string_axioms;

/// The message of every unsupported operation.
pub open spec fn unsupported_text() -> Seq<char> {
    "ChatGPT account integration is currently available only on Apple Silicon macOS."@
}

fn unsupported_error() -> (r: String)
    ensures
        r@ == unsupported_text(),
{
    "ChatGPT account integration is currently available only on Apple Silicon macOS.".to_owned()
}

/// The account status: backend absent, signed out.
pub fn account_status() -> (r: Result<CodexAccountStatus, String>)
    ensures
        r matches Ok(s) && !s.runtime_installed && !s.signed_in && s.email is None
            && s.plan_type is None,
{
    Ok(CodexAccountStatus { runtime_installed: false, signed_in: false, email: None, plan_type: None })
}

/// Device sign-in is not offered.
pub fn start_device_login() -> (r: Result<CodexDeviceLogin, String>)
    ensures
        r matches Err(e) && e@ == unsupported_text(),
{
    Err(unsupported_error())
}

/// Device sign-in is not offered.
pub fn wait_device_login(login_id: String) -> (r: Result<CodexAccountStatus, String>)
    ensures
        r matches Err(e) && e@ == unsupported_text(),
{
    Err(unsupported_error())
}

/// Signing out leaves the signed-out status.
pub fn logout() -> (r: Result<CodexAccountStatus, String>)
    ensures
        r matches Ok(s) && !s.runtime_installed && !s.signed_in && s.email is None
            && s.plan_type is None,
{
    account_status()
}

/// No models are offered.
pub fn fetch_models() -> (r: Result<Vec<String>, String>)
    ensures
        r matches Err(e) && e@ == unsupported_text(),
{
    Err(unsupported_error())
}

/// Post-processing through the account is not offered.
pub fn post_process(model: Option<String>, system_prompt: String, transcription: String) -> (r:
    Result<Option<String>, String>)
    ensures
        r matches Err(e) && e@ == unsupported_text(),
{
    Err(unsupported_error())
}

/// Nothing to release.
pub fn shutdown() {
}

} // verus!
