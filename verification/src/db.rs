//! Records and queries of game and user persistence, and the storage errors
//! that the handlers react to. The database itself lives in the server program.

use vstd::prelude::*;
use crate::text::{chars_of, find_char, has_prefix, index_of_from, starts_with, string_of};

verus! {

/// A storage failure. Database and migration failures carry their message.
#[derive(Debug)]
pub enum StorageError {
    Db(String),
    Migrate(String),
    UnsupportedScheme(String),
    Conflict(&'static str),
}

/// The field named by a refused account creation: the username if it is
/// already in use, else the email if that is, else the account as a whole.
pub fn conflict_field(username_taken: bool, email_taken: bool) -> (f: &'static str)
    ensures
        f@ == (if username_taken {
            "username"@
        } else if email_taken {
            "email"@
        } else {
            "user"@
        }),
{
    if username_taken {
        "username"
    } else if email_taken {
        "email"
    } else {
        "user"
    }
}

#[derive(Debug, Clone, Copy, PartialEq, Eq, Structural)]
pub enum GameResult {
    RedWins,
    BlackWins,
    Draw,
}

impl GameResult {
    pub fn as_str(self) -> (s: &'static str)
        ensures
            s@ == (match self {
                GameResult::RedWins => "red_wins"@,
                GameResult::BlackWins => "black_wins"@,
                GameResult::Draw => "draw"@,
            }),
    {
        match self {
            GameResult::RedWins => "red_wins",
            GameResult::BlackWins => "black_wins",
            GameResult::Draw => "draw",
        }
    }
}

#[derive(Debug, Clone, Copy, PartialEq, Eq, Structural)]
pub enum Termination {
    Checkmate,
    Resignation,
    Abandoned,
}

impl Termination {
    pub fn as_str(self) -> (s: &'static str)
        ensures
            s@ == (match self {
                Termination::Checkmate => "checkmate"@,
                Termination::Resignation => "resignation"@,
                Termination::Abandoned => "abandoned"@,
            }),
    {
        match self {
            Termination::Checkmate => "checkmate",
            Termination::Resignation => "resignation",
            Termination::Abandoned => "abandoned",
        }
    }
}

#[derive(Debug, Clone, Copy)]
pub struct ListGamesQuery {
    pub limit: i32,
    pub finished_only: bool,
}

impl Default for ListGamesQuery {
    fn default() -> (q: Self)
        ensures
            q.limit == 50,
            !q.finished_only,
    {
        Self { limit: 50, finished_only: false }
    }
}

impl ListGamesQuery {
    /// The number of rows a listing returns at most: the requested limit
    /// clamped to 1..=500.
    pub fn effective_limit(&self) -> (n: i64)
        ensures
            n == (if self.limit < 1 {
                1
            } else if self.limit > 500 {
                500
            } else {
                self.limit as int
            }),
    {
        if self.limit < 1 {
            1
        } else if self.limit > 500 {
            500
        } else {
            self.limit as i64
        }
    }
}

#[derive(Debug, Clone)]
pub struct NewUser {
    pub username: String,
    pub email: String,
    pub password_hash: Option<String>,
    pub oauth_provider: Option<String>,
    pub oauth_subject: Option<String>,
    pub email_verified: bool,
}

#[derive(Debug, Clone, Copy, PartialEq, Eq, Structural)]
pub enum EmailTokenPurpose {
    VerifyEmail,
    PasswordReset,
}

impl EmailTokenPurpose {
    pub fn as_str(self) -> (s: &'static str)
        ensures
            s@ == (match self {
                EmailTokenPurpose::VerifyEmail => "verify_email"@,
                EmailTokenPurpose::PasswordReset => "password_reset"@,
            }),
    {
        match self {
            EmailTokenPurpose::VerifyEmail => "verify_email",
            EmailTokenPurpose::PasswordReset => "password_reset",
        }
    }
}

/// What follows the `sqlite://` or `sqlite:` scheme of a database URL.
pub open spec fn sqlite_rest(u: Seq<char>) -> Option<Seq<char>> {
    if starts_with(u, "sqlite://"@) {
        Some(u.skip("sqlite://"@.len() as int))
    } else if starts_with(u, "sqlite:"@) {
        Some(u.skip("sqlite:"@.len() as int))
    } else {
        None
    }
}

/// The file of an SQLite URL: the part after the scheme up to any `?`;
/// nothing for an in-memory database or an empty path.
pub open spec fn sqlite_path_spec(u: Seq<char>) -> Option<Seq<char>> {
    match sqlite_rest(u) {
        None => None,
        Some(s) => if s.len() == 0 || starts_with(s, ":memory:"@) {
            None
        } else {
            let bare = s.take(index_of_from(s, 0, '?'));
            if bare.len() == 0 {
                None
            } else {
                Some(bare)
            }
        },
    }
}

/// Path to the on-disk database file of an SQLite URL (None for in-memory).
pub fn sqlite_file_path(url: &str) -> (res: Option<String>)
    ensures
        match res {
            Some(p) => sqlite_path_spec(url@) == Some(p@),
            None => sqlite_path_spec(url@) is None,
        },
{
    let v = chars_of(url);
    let skip: usize = if has_prefix(&v, "sqlite://") {
        proof {
            reveal_strlit("sqlite://");
        }
        9
    } else if has_prefix(&v, "sqlite:") {
        proof {
            reveal_strlit("sqlite:");
        }
        7
    } else {
        return None;
    };
    let ghost rest = url@.skip(skip as int);
    assert(sqlite_rest(url@) == Some(rest));
    if skip == v.len() {
        return None;
    }
    let s = string_of(&v, skip, v.len());
    assert(s@ =~= rest);
    let sv = chars_of(s.as_str());
    if has_prefix(&sv, ":memory:") {
        return None;
    }
    let q = find_char(&sv, 0, '?');
    if q == 0 {
        return None;
    }
    let bare = string_of(&sv, 0, q);
    assert(bare@ =~= rest.take(q as int));
    Some(bare)
}

/// The scheme of a database URL: the part before its first `:`.
pub open spec fn url_scheme(u: Seq<char>) -> Seq<char> {
    u.take(index_of_from(u, 0, ':'))
}

/// Only `sqlite:` URLs name a supported storage backend.
pub fn check_storage_url(url: &str) -> (res: Result<(), StorageError>)
    ensures
        starts_with(url@, "sqlite:"@) ==> res is Ok,
        !starts_with(url@, "sqlite:"@) ==> (res matches Err(StorageError::UnsupportedScheme(s))
            && s@ == url_scheme(url@)),
{
    let v = chars_of(url);
    if has_prefix(&v, "sqlite:") {
        return Ok(());
    }
    let colon = find_char(&v, 0, ':');
    let scheme = string_of(&v, 0, colon);
    assert(scheme@ =~= url_scheme(url@));
    Err(StorageError::UnsupportedScheme(scheme))
}

} // verus!
