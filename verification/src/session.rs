//! Session cookies: their name and lifetime, and reading the session token
//! out of a `Cookie` header. The cookie jar and the session table live in the
//! server program.

use vstd::prelude::*;
use crate::text::{
    chars_of, find_char, has_prefix, index_of_from, lemma_index_of_from, string_of,
    trim, trim_ws,
};

verus! {

pub const COOKIE_NAME: &'static str = "cotuong_session";

/// Lifetime of a session: 30 days, in seconds.
pub const SESSION_TTL_SECS: i64 = 2592000;

pub open spec fn cookie_name() -> Seq<char> {
    "cotuong_session"@
}

/// The session token of the first `;`-separated pair, from position `start`
/// on, that once trimmed reads `cotuong_session=` followed by a non-empty value.
pub open spec fn session_cookie_from(h: Seq<char>, start: int) -> Option<Seq<char>>
    decreases h.len() - start,
    when 0 <= start <= h.len()
{
    let end = index_of_from(h, start, ';');
    let seg = trim_ws(h.subrange(start, end));
    let eq = index_of_from(seg, 0, '=');
    proof {
        lemma_index_of_from(h, start, ';');
    }
    if eq < seg.len() && seg.take(eq) == cookie_name() && eq + 1 < seg.len() {
        Some(seg.skip(eq + 1))
    } else if end >= h.len() {
        None
    } else {
        session_cookie_from(h, end + 1)
    }
}

/// Finds the session token in a `Cookie` header.
pub fn session_token_from_header(header: &str) -> (res: Option<String>)
    ensures
        match res {
            Some(t) => session_cookie_from(header@, 0) == Some(t@),
            None => session_cookie_from(header@, 0) is None,
        },
{
    let v = chars_of(header);
    let mut start: usize = 0;
    loop
        invariant
            v@ == header@,
            start <= v.len(),
            session_cookie_from(v@, start as int) == session_cookie_from(v@, 0),
        decreases v.len() - start,
    {
        let end = find_char(&v, start, ';');
        let seg = string_of(&v, start, end);
        let t = trim(seg.as_str());
        let tv = chars_of(t.as_str());
        let eq = find_char(&tv, 0, '=');
        proof {
            lemma_index_of_from(tv@, 0, '=');
            reveal_strlit("cotuong_session");
        }
        if eq < tv.len() && eq == 15 && has_prefix(&tv, COOKIE_NAME) && eq + 1 < tv.len() {
            assert(tv@.take(eq as int) =~= cookie_name());
            let token = string_of(&tv, eq + 1, tv.len());
            assert(token@ =~= tv@.skip(eq + 1));
            return Some(token);
        }
        proof {
            if eq < tv.len() && tv@.take(eq as int) == cookie_name() {
                assert(tv@.take(eq as int).len() == 15);
            }
        }
        if end >= v.len() {
            return None;
        }
        start = end + 1;
    }
}

/// Why a request that needs a signed-in user was refused.
#[derive(Debug)]
pub enum AuthRejection {
    Unauthorized,
}

impl AuthRejection {
    /// HTTP status and body of the refusal.
    pub fn response_parts(&self) -> (r: (u16, &'static str))
        ensures
            r.0 == 401 && r.1@ == "not authenticated"@,
    {
        match self {
            AuthRejection::Unauthorized => (401, "not authenticated"),
        }
    }
}

} // verus!
