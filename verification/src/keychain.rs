//! How keychain results are read. The protected (data-protection) keychain
//! is preferred; a build without the keychain entitlement falls back to
//! the legacy login keychain. Codes are Security.framework `OSStatus`
//! values.

use vstd::prelude::*;
use crate::text::{self, signed_decimal};

verus! {

/// `errSecItemNotFound`.
pub const ERR_SEC_ITEM_NOT_FOUND: i32 = -25300;

/// `errSecMissingEntitlement`.
pub const ERR_SEC_MISSING_ENTITLEMENT: i32 = -34018;

/// The message for a failed read.
pub open spec fn read_error_text(code: i32) -> Seq<char> {
    "macOS Keychain could not read ChatGPT credentials (OSStatus "@ + signed_decimal(code as int)
        + ")."@
}

/// The message for a failed save.
pub open spec fn save_error_text(code: i32) -> Seq<char> {
    "macOS Keychain could not save ChatGPT credentials (OSStatus "@ + signed_decimal(code as int)
        + ")."@
}

/// The message for a failed delete.
pub open spec fn delete_error_text(code: i32) -> Seq<char> {
    "macOS Keychain could not delete ChatGPT credentials (OSStatus "@ + signed_decimal(
        code as int,
    ) + ")."@
}

/// What a failed keychain read leads to.
#[derive(Debug)]
pub enum ReadFallback {
    /// Read the legacy login keychain instead.
    TryLegacy,
    /// No credentials are stored.
    NotStored,
    /// Report this message.
    Failed(String),
}

fn read_error(code: i32) -> (r: String)
    ensures
        r@ == read_error_text(code),
{
    text::message_with_code(
        "macOS Keychain could not read ChatGPT credentials (OSStatus ",
        code as i64,
        ").",
    )
}

/// After the protected keychain failed with `code`: a missing item or a
/// missing entitlement sends the read to the legacy keychain.
pub fn after_protected_read_error(code: i32) -> (r: ReadFallback)
    ensures
        (code == ERR_SEC_ITEM_NOT_FOUND || code == ERR_SEC_MISSING_ENTITLEMENT) ==> r is TryLegacy,
        !(code == ERR_SEC_ITEM_NOT_FOUND || code == ERR_SEC_MISSING_ENTITLEMENT) ==> (r matches ReadFallback::Failed(
            m,
        ) && m@ == read_error_text(code)),
{
    if code == ERR_SEC_ITEM_NOT_FOUND || code == ERR_SEC_MISSING_ENTITLEMENT {
        ReadFallback::TryLegacy
    } else {
        ReadFallback::Failed(read_error(code))
    }
}

/// After the legacy keychain failed with `code`: a missing item means
/// nothing is stored.
pub fn after_legacy_read_error(code: i32) -> (r: ReadFallback)
    ensures
        code == ERR_SEC_ITEM_NOT_FOUND ==> r is NotStored,
        code != ERR_SEC_ITEM_NOT_FOUND ==> (r matches ReadFallback::Failed(m) && m@
            == read_error_text(code)),
{
    if code == ERR_SEC_ITEM_NOT_FOUND {
        ReadFallback::NotStored
    } else {
        ReadFallback::Failed(read_error(code))
    }
}

/// The message for a failed save with `code`.
pub fn save_error(code: i32) -> (r: String)
    ensures
        r@ == save_error_text(code),
{
    text::message_with_code(
        "macOS Keychain could not save ChatGPT credentials (OSStatus ",
        code as i64,
        ").",
    )
}

/// After a save into the protected keychain failed with `code`: `Ok` when
/// the save is to be repeated in the legacy keychain (missing
/// entitlement), else the message.
pub fn after_protected_save_error(code: i32) -> (r: Result<(), String>)
    ensures
        code == ERR_SEC_MISSING_ENTITLEMENT ==> r is Ok,
        code != ERR_SEC_MISSING_ENTITLEMENT ==> (r matches Err(m) && m@ == save_error_text(code)),
{
    if code == ERR_SEC_MISSING_ENTITLEMENT {
        Ok(())
    } else {
        Err(save_error(code))
    }
}

/// Whether a delete failure matters: a missing item or entitlement does not.
pub open spec fn unexpected_delete_code(code: Option<i32>) -> Option<i32> {
    match code {
        Some(c) => if c != ERR_SEC_ITEM_NOT_FOUND && c != ERR_SEC_MISSING_ENTITLEMENT {
            Some(c)
        } else {
            None
        },
        None => None,
    }
}

/// Outcome of deleting from both keychains, given the error code of each
/// delete (`None` when it succeeded): the first code that is neither a
/// missing item nor a missing entitlement is reported.
pub fn delete_outcome(protected: Option<i32>, legacy: Option<i32>) -> (r: Result<(), String>)
    ensures
        match unexpected_delete_code(protected) {
            Some(c) => r matches Err(m) && m@ == delete_error_text(c),
            None => match unexpected_delete_code(legacy) {
                Some(c) => r matches Err(m) && m@ == delete_error_text(c),
                None => r is Ok,
            },
        },
{
    let mut unexpected: Option<i32> = None;
    if let Some(code) = protected {
        if code != ERR_SEC_ITEM_NOT_FOUND && code != ERR_SEC_MISSING_ENTITLEMENT {
            unexpected = Some(code);
        }
    }
    if let Some(code) = legacy {
        if code != ERR_SEC_ITEM_NOT_FOUND && code != ERR_SEC_MISSING_ENTITLEMENT
            && unexpected.is_none() {
            unexpected = Some(code);
        }
    }
    match unexpected {
        Some(code) => Err(
            text::message_with_code(
                "macOS Keychain could not delete ChatGPT credentials (OSStatus ",
                code as i64,
                ").",
            ),
        ),
        None => Ok(()),
    }
}

} // verus!
