//! Server configuration read from the environment.

use vstd::prelude::*;
use vstd::string::StringExecFns;
use crate::text::str_eq;

verus! {

#[derive(Clone, Debug)]
pub struct AuthConfig {
    /// Set the Secure flag on the session cookie. Off in dev (HTTP), on in
    /// prod (HTTPS).
    pub cookie_secure: bool,
    /// Public base URL of the site (used to build OAuth redirect URIs and
    /// email links). Default: `http://127.0.0.1:8000`.
    pub public_base_url: String,
    /// If true, signup blocks login until the user clicks the verify link.
    pub require_email_verification: bool,
}

/// A switch variable is on when it reads `1`, `true` or `yes`.
pub open spec fn flag_on(v: Seq<char>) -> bool {
    v == "1"@ || v == "true"@ || v == "yes"@
}

pub fn flag_enabled(v: &str) -> (on: bool)
    ensures
        on == flag_on(v@),
{
    str_eq(v, "1") || str_eq(v, "true") || str_eq(v, "yes")
}

pub open spec fn flag_var_on(v: Option<&str>) -> bool {
    match v {
        Some(s) => flag_on(s@),
        None => false,
    }
}

impl AuthConfig {
    /// The configuration given the values of `COTUONG_COOKIE_SECURE`,
    /// `COTUONG_PUBLIC_URL` and `COTUONG_EMAIL_VERIFY`, where set.
    pub fn from_vars(
        cookie_secure: Option<&str>,
        public_url: Option<String>,
        email_verify: Option<&str>,
    ) -> (cfg: Self)
        ensures
            cfg.cookie_secure == flag_var_on(cookie_secure),
            cfg.require_email_verification == flag_var_on(email_verify),
            match public_url {
                Some(u) => cfg.public_base_url@ == u@,
                None => cfg.public_base_url@ == "http://127.0.0.1:8000"@,
            },
    {
        let cookie_secure = match cookie_secure {
            Some(v) => flag_enabled(v),
            None => false,
        };
        let public_base_url = match public_url {
            Some(u) => u,
            None => String::from_str("http://127.0.0.1:8000"),
        };
        let require_email_verification = match email_verify {
            Some(v) => flag_enabled(v),
            None => false,
        };
        Self { cookie_secure, public_base_url, require_email_verification }
    }
}

} // verus!
