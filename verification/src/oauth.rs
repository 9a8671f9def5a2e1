//! The decisions of the Google OAuth 2.0 (OpenID Connect) flow: checking
//! the callback against the state cookie, and deriving a username for a
//! new account. The HTTP exchanges live in the server program.

use vstd::prelude::*;
use vstd::string::StringExecFns;
use crate::auth::AuthError;
use crate::text::{
    chars_of, find_char, index_of_from, push_char, string_of,
    trim_end_slashes, trim_slashes_spec,
};

verus! {

#[derive(Debug, Clone)]
pub struct GoogleConfig {
    pub client_id: String,
    pub client_secret: String,
    pub redirect_url: String,
}

pub open spec fn callback_suffix() -> Seq<char> {
    "/auth/google/callback"@
}

impl GoogleConfig {
    /// The configuration for the given client, with the redirect URL on the
    /// public site: the base URL without trailing slashes, then
    /// `/auth/google/callback`.
    pub fn new(client_id: String, client_secret: String, public_base_url: &str) -> (cfg: Self)
        ensures
            cfg.client_id == client_id,
            cfg.client_secret == client_secret,
            cfg.redirect_url@ == trim_slashes_spec(public_base_url@) + callback_suffix(),
    {
        let mut redirect_url = trim_end_slashes(public_base_url);
        redirect_url.append("/auth/google/callback");
        GoogleConfig { client_id, client_secret, redirect_url }
    }
}

#[derive(Debug)]
pub struct CallbackParams {
    pub code: Option<String>,
    pub state: Option<String>,
    pub error: Option<String>,
}

/// Whether `c` may appear in a username.
pub open spec fn is_username_char(c: char) -> bool {
    let u = c as u32;
    (48 <= u <= 57) || (65 <= u <= 90) || (97 <= u <= 122) || c == '_' || c == '-'
}

pub open spec fn clean_char(c: char) -> char {
    if is_username_char(c) {
        c
    } else {
        '_'
    }
}

pub open spec fn is_edge(c: char) -> bool {
    c == '_' || c == '-'
}

pub open spec fn trim_start_edges(s: Seq<char>) -> Seq<char>
    decreases s.len(),
{
    if s.len() > 0 && is_edge(s[0]) {
        trim_start_edges(s.drop_first())
    } else {
        s
    }
}

pub open spec fn trim_end_edges(s: Seq<char>) -> Seq<char>
    decreases s.len(),
{
    if s.len() > 0 && is_edge(s.last()) {
        trim_end_edges(s.drop_last())
    } else {
        s
    }
}

/// The first `n` characters of `s` (all of it if shorter).
pub open spec fn take_chars(s: Seq<char>, n: int) -> Seq<char> {
    if n < s.len() {
        s.take(n)
    } else {
        s
    }
}

/// A username made from free text: every character other than an ASCII
/// letter, digit, `_` or `-` becomes `_`, leading and trailing `_` and `-` are
/// removed, and the rest is cut to 30 characters; nothing if nothing is left.
pub open spec fn sanitize_spec(s: Seq<char>) -> Option<Seq<char>> {
    let t = trim_end_edges(trim_start_edges(s.map_values(|c: char| clean_char(c))));
    if t.len() == 0 {
        None
    } else {
        Some(take_chars(t, 30))
    }
}

proof fn lemma_trim_start_edges(s: Seq<char>, k: int)
    requires
        0 <= k <= s.len(),
        forall|j: int| 0 <= j < k ==> is_edge(#[trigger] s[j]),
        k == s.len() || !is_edge(s[k]),
    ensures
        trim_start_edges(s) == s.skip(k),
    decreases k,
{
    if k == 0 {
        assert(s.skip(0) =~= s);
    } else {
        assert(is_edge(s[0]));
        lemma_trim_start_edges(s.drop_first(), k - 1);
        assert(s.drop_first().skip(k - 1) =~= s.skip(k));
    }
}

proof fn lemma_trim_end_edges(s: Seq<char>, k: int)
    requires
        0 <= k <= s.len(),
        forall|j: int| k <= j < s.len() ==> is_edge(#[trigger] s[j]),
        k == 0 || !is_edge(s[k - 1]),
    ensures
        trim_end_edges(s) == s.take(k),
    decreases s.len() - k,
{
    if k == s.len() {
        assert(s.take(k) =~= s);
    } else {
        assert(is_edge(s.last()));
        lemma_trim_end_edges(s.drop_last(), k);
        assert(s.drop_last().take(k) =~= s.take(k));
    }
}

pub fn truncate(s: &str, max: usize) -> (t: String)
    ensures
        t@ == take_chars(s@, max as int),
{
    let v = chars_of(s);
    let n = if v.len() < max {
        v.len()
    } else {
        max
    };
    assert(v@.subrange(0, n as int) =~= take_chars(s@, max as int));
    string_of(&v, 0, n)
}

pub fn sanitize_username(s: &str) -> (res: Option<String>)
    ensures
        match res {
            Some(t) => sanitize_spec(s@) == Some(t@),
            None => sanitize_spec(s@) is None,
        },
{
    let v = chars_of(s);
    let mut cleaned: Vec<char> = Vec::new();
    let mut i: usize = 0;
    while i < v.len()
        invariant
            v@ == s@,
            i <= v.len(),
            cleaned@ == v@.take(i as int).map_values(|c: char| clean_char(c)),
        decreases v.len() - i,
    {
        let c = v[i];
        let u = c as u32;
        let keep = (u >= 48 && u <= 57) || (u >= 65 && u <= 90) || (u >= 97 && u <= 122) || c
            == '_' || c == '-';
        if keep {
            cleaned.push(c);
        } else {
            cleaned.push('_');
        }
        assert(cleaned@ =~= v@.take(i + 1).map_values(|c: char| clean_char(c)));
        i = i + 1;
    }
    let ghost m = s@.map_values(|c: char| clean_char(c));
    assert(cleaned@ =~= m);
    let n = cleaned.len();
    let mut start: usize = 0;
    while start < n && (cleaned[start] == '_' || cleaned[start] == '-')
        invariant
            n == cleaned.len(),
            start <= n,
            forall|j: int| 0 <= j < start ==> is_edge(#[trigger] cleaned@[j]),
        decreases n - start,
    {
        start = start + 1;
    }
    proof {
        lemma_trim_start_edges(m, start as int);
    }
    let mut end: usize = n;
    while end > start && (cleaned[end - 1] == '_' || cleaned[end - 1] == '-')
        invariant
            n == cleaned.len(),
            start <= end <= n,
            forall|j: int| end <= j < n ==> is_edge(#[trigger] cleaned@[j]),
        decreases end,
    {
        end = end - 1;
    }
    proof {
        let st = m.skip(start as int);
        assert forall|j: int| end - start <= j < st.len() implies is_edge(#[trigger] st[j]) by {
            assert(st[j] == m[j + start]);
        }
        lemma_trim_end_edges(st, end - start);
        assert(st.take(end - start) =~= cleaned@.subrange(start as int, end as int));
    }
    if end == start {
        return None;
    }
    let trimmed = string_of(&cleaned, start, end);
    Some(truncate(trimmed.as_str(), 30))
}

/// Compares two byte strings in time that depends only on their lengths.
pub fn constant_time_eq(a: &[u8], b: &[u8]) -> (eq: bool)
    ensures
        eq == (a@ == b@),
{
    if a.len() != b.len() {
        return false;
    }
    let mut diff: u8 = 0;
    let mut i: usize = 0;
    while i < a.len()
        invariant
            a.len() == b.len(),
            i <= a.len(),
            (diff == 0) == (forall|j: int| 0 <= j < i ==> a@[j] == b@[j]),
        decreases a.len() - i,
    {
        let x = a[i];
        let y = b[i];
        let old_diff = diff;
        diff = diff | (x ^ y);
        assert((diff == 0) == (old_diff == 0 && x == y)) by (bit_vector)
            requires
                diff == old_diff | (x ^ y),
        ;
        i = i + 1;
    }
    proof {
        if diff == 0 {
            assert(a@ =~= b@);
        }
    }
    diff == 0
}

/// What the OAuth callback carries once it is checked: the authorization
/// code and the PKCE verifier from the state cookie.
pub open spec fn callback_ok(p: CallbackParams, cookie: Option<Seq<char>>) -> Option<(Seq<char>, Seq<char>)> {
    match (p.error, p.code, p.state, cookie) {
        (None, Some(code), Some(state), Some(c)) => {
            let colon = index_of_from(c, 0, ':');
            if colon < c.len() && crate::text::encode_str(state@) == crate::text::encode_str(
                c.take(colon),
            ) {
                Some((code@, c.skip(colon + 1)))
            } else {
                None
            }
        },
        _ => None,
    }
}

pub open spec fn opt_text(o: Option<String>) -> Option<Seq<char>> {
    match o {
        Some(s) => Some(s@),
        None => None,
    }
}

/// Checks the parameters of the OAuth callback against the state cookie,
/// which holds `csrf:verifier`: no error reported, a code and a state given,
/// a cookie with a colon, and the state equal to the cookie's CSRF part.
/// Returns the code and the verifier.
pub fn check_callback(p: CallbackParams, state_cookie: Option<String>) -> (res: Result<
    (String, String),
    AuthError,
>)
    ensures
        match res {
            Ok((code, verifier)) => callback_ok(p, opt_text(state_cookie)) == Some(
                (code@, verifier@),
            ),
            Err(e) => callback_ok(p, opt_text(state_cookie)) is None
                && e is InvalidCredentials,
        },
{
    if p.error.is_some() {
        return Err(AuthError::InvalidCredentials);
    }
    let code = match p.code {
        Some(c) => c,
        None => return Err(AuthError::InvalidCredentials),
    };
    let returned_state = match p.state {
        Some(s) => s,
        None => return Err(AuthError::InvalidCredentials),
    };
    let cookie = match state_cookie {
        Some(c) => c,
        None => return Err(AuthError::InvalidCredentials),
    };
    let v = chars_of(cookie.as_str());
    let colon = find_char(&v, 0, ':');
    if colon == v.len() {
        return Err(AuthError::InvalidCredentials);
    }
    let csrf = string_of(&v, 0, colon);
    let verifier = string_of(&v, colon + 1, v.len());
    assert(csrf@ =~= v@.take(colon as int));
    assert(verifier@ =~= v@.skip(colon + 1));
    if !constant_time_eq(returned_state.as_str().as_bytes(), csrf.as_str().as_bytes()) {
        return Err(AuthError::InvalidCredentials);
    }
    Ok((code, verifier))
}

pub open spec fn player_text() -> Seq<char> {
    "player"@
}

/// The base of a new account's username: the sanitized display name, else
/// the sanitized part of the email before its first `@`, else `player`.
pub open spec fn username_base_spec(email: Seq<char>, display: Option<Seq<char>>) -> Seq<char> {
    let from_display = match display {
        Some(d) => sanitize_spec(d),
        None => None,
    };
    match from_display {
        Some(u) => u,
        None => match sanitize_spec(email.take(index_of_from(email, 0, '@'))) {
            Some(u) => u,
            None => player_text(),
        },
    }
}

pub fn username_base(email: &str, display: Option<&str>) -> (base: String)
    ensures
        base@ == username_base_spec(
            email@,
            match display {
                Some(d) => Some(d@),
                None => None,
            },
        ),
{
    let from_display = match display {
        Some(d) => sanitize_username(d),
        None => None,
    };
    match from_display {
        Some(u) => u,
        None => {
            let v = chars_of(email);
            let at = find_char(&v, 0, '@');
            let local = string_of(&v, 0, at);
            assert(local@ =~= email@.take(index_of_from(email@, 0, '@')));
            match sanitize_username(local.as_str()) {
                Some(u) => u,
                None => {
                    proof {
                        reveal_strlit("player");
                    }
                    String::from_str("player")
                },
            }
        },
    }
}

/// The `n`-th fallback username: `base-n`, cut to 30 characters.
pub fn username_candidate(base: &str, n: u32) -> (c: String)
    ensures
        c@ == take_chars(base@ + seq!['-'] + crate::text::decimal(n as nat), 30),
{
    let mut s = String::from_str(base);
    push_char(&mut s, '-');
    crate::text::push_decimal(&mut s, n as u64);
    truncate(s.as_str(), 30)
}

/// The `n`-th username tried for a new account: the base first, then
/// `base-1` up to `base-999`; past that the search gives up with an
/// internal error.
pub fn username_attempt(base: &str, n: u32) -> (r: Result<String, AuthError>)
    ensures
        n == 0 ==> (r matches Ok(c) && c@ == base@),
        1 <= n < 1000 ==> (r matches Ok(c) && c@ == take_chars(
            base@ + seq!['-'] + crate::text::decimal(n as nat),
            30,
        )),
        n >= 1000 ==> (r matches Err(e) && e is Internal),
{
    if n == 0 {
        Ok(String::from_str(base))
    } else if n < 1000 {
        Ok(username_candidate(base, n))
    } else {
        Err(AuthError::Internal)
    }
}

} // verus!
