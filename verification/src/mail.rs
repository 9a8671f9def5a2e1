//! The links and texts of verification and password-reset emails, and the
//! lifetimes of their tokens. Sending happens in the server program.

use vstd::prelude::*;
use vstd::string::StringExecFns;
use crate::text::{parse_unsigned, parse_unsigned_spec, trim_end_slashes, trim_slashes_spec};

verus! {

/// A verification link stays valid for 2 days, in seconds.
pub const VERIFY_TTL_SECS: i64 = 172800;

/// A password-reset link stays valid for 1 hour, in seconds.
pub const RESET_TTL_SECS: i64 = 3600;

/// The link that verifies an email with `token`.
pub fn verify_link(public_base_url: &str, token: &str) -> (url: String)
    ensures
        url@ == trim_slashes_spec(public_base_url@) + "/auth/verify/"@ + token@,
{
    let mut url = trim_end_slashes(public_base_url);
    url.append("/auth/verify/");
    url.append(token);
    url
}

/// The link that opens the password-reset form for `token`.
pub fn reset_link(public_base_url: &str, token: &str) -> (url: String)
    ensures
        url@ == trim_slashes_spec(public_base_url@) + "/auth/password-reset/confirm?token="@
            + token@,
{
    let mut url = trim_end_slashes(public_base_url);
    url.append("/auth/password-reset/confirm?token=");
    url.append(token);
    url
}

/// The body of the verification email.
pub fn verify_body(username: &str, url: &str) -> (body: String)
    ensures
        body@ == "Welcome to cờ tướng, "@ + username@ + "!\n\nClick to verify your email:\n"@
            + url@ + "\n\nThis link is good for 48 hours."@,
{
    let mut b = String::from_str("Welcome to cờ tướng, ");
    b.append(username);
    b.append("!\n\nClick to verify your email:\n");
    b.append(url);
    b.append("\n\nThis link is good for 48 hours.");
    b
}

/// The body of the password-reset email.
pub fn reset_body(url: &str) -> (body: String)
    ensures
        body@ == "Someone (hopefully you) asked to reset your cờ tướng password.\n\nClick to set a new one:\n"@
            + url@ + "\n\nThis link is good for 1 hour. If you didn't ask, ignore this email."@,
{
    let mut b = String::from_str(
        "Someone (hopefully you) asked to reset your cờ tướng password.\n\nClick to set a new one:\n",
    );
    b.append(url);
    b.append("\n\nThis link is good for 1 hour. If you didn't ask, ignore this email.");
    b
}

/// The SMTP port given the value of `COTUONG_SMTP_PORT`, if set: the port
/// number it holds, else 587.
pub fn smtp_port(var: Option<&str>) -> (port: u16)
    ensures
        port == (match var {
            Some(v) => match parse_unsigned_spec(v@, 65535) {
                Some(n) => n,
                None => 587,
            },
            None => 587,
        }),
{
    match var {
        Some(v) => match parse_unsigned(v, 65535) {
            Some(n) => n as u16,
            None => 587,
        },
        None => 587,
    }
}

} // verus!
