//! The decisions of registering the account as primary device: the phone
//! number is asked until it parses, a captcha is asked as long as the
//! server wants one, then the verification code is asked and must be a
//! number.  The storage password may be empty, meaning no encryption.
//!
//! Opening the store is tried without password first; when that fails the
//! password is asked, at most three times, and after the last failed try
//! the first failure is reported.

use crate::contact::{format_with_country_helper, phone_number_text, NumberFormat};
use crate::decimal::{parse_u32, parse_u32_spec};
use vstd::prelude::*;
use vstd::string::*;

verus! {

/// What follows the entry of a phone number.
pub enum PhoneNumberStep {
    /// The number parses; its E.164 text.
    Accepted(String),
    /// The number does not parse: the user is told and asked again.
    Rejected,
}

/// What follows the server's answer to a registration request.
#[derive(Clone, Copy, Debug, PartialEq, Eq, Structural)]
pub enum RegisterStep {
    /// The server wants a captcha: ask for one and register again with it.
    AskCaptcha,
    /// The server sent a verification code: ask the user for it.
    AskVerificationCode,
}

/// The entered phone number, read without a default country (so it must
/// be international): accepted with its E.164 text when it parses.
pub fn phone_number_entered(number: &str) -> (res: PhoneNumberStep)
    ensures
        match res {
            PhoneNumberStep::Accepted(e164) => phone_number_text(number@, NumberFormat::E164, ""@)
                == Some(e164@),
            PhoneNumberStep::Rejected => phone_number_text(number@, NumberFormat::E164, ""@) is None,
        },
{
    match format_with_country_helper(number, NumberFormat::E164, "") {
        Some(e164) => PhoneNumberStep::Accepted(e164),
        None => PhoneNumberStep::Rejected,
    }
}

/// The step after the server answered a registration request.
pub fn register_response(captcha_required: bool) -> (res: RegisterStep)
    ensures
        captcha_required ==> res == RegisterStep::AskCaptcha,
        !captcha_required ==> res == RegisterStep::AskVerificationCode,
{
    if captcha_required {
        RegisterStep::AskCaptcha
    } else {
        RegisterStep::AskVerificationCode
    }
}

/// The verification code the user entered, as a number; `None` (an error)
/// when it is not one.
pub fn verification_code_entered(code: &str) -> (res: Option<u32>)
    ensures
        res == parse_u32_spec(code.spec_bytes()),
{
    parse_u32(code.as_bytes())
}

/// The storage password: none when the user entered nothing.
pub fn storage_password(entered: String) -> (res: Option<String>)
    ensures
        entered@.len() == 0 ==> res is None,
        entered@.len() > 0 ==> res is Some && res->Some_0@ == entered@,
{
    if entered.as_str().is_empty() {
        None
    } else {
        Some(entered)
    }
}

/// How many times the storage password may be entered.
pub const MAX_PASSWORD_ENTER_ATTEMPTS: i8 = 3;

/// What follows a failed opening of the store.
#[derive(Clone, Copy, Debug, PartialEq, Eq, Structural)]
pub enum OpenStep {
    /// Ask the password for this attempt (counted from one) and open with it.
    AskPassword(i8),
    /// Give up and report the failure of the opening without password.
    GiveUp,
}

/// The step after an opening failed; `attempts` is the number of
/// passwords tried so far (zero after the opening without password).
pub fn after_failed_open(attempts: i8) -> (res: OpenStep)
    ensures
        attempts < MAX_PASSWORD_ENTER_ATTEMPTS ==> res == OpenStep::AskPassword(
            (attempts + 1) as i8,
        ),
        attempts >= MAX_PASSWORD_ENTER_ATTEMPTS ==> res == OpenStep::GiveUp,
{
    if attempts < MAX_PASSWORD_ENTER_ATTEMPTS {
        OpenStep::AskPassword(attempts + 1)
    } else {
        OpenStep::GiveUp
    }
}

} // verus!
