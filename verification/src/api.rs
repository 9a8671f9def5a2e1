//! The read-only game browsing endpoints: their query and their errors.

use vstd::prelude::*;
use crate::db::{ListGamesQuery, StorageError};

verus! {

#[derive(Debug)]
pub struct ListParams {
    pub limit: Option<i32>,
    pub finished: Option<bool>,
}

#[derive(Debug)]
pub enum ApiError {
    NotFound,
    Storage(StorageError),
}

impl vstd::std_specs::convert::FromSpecImpl<StorageError> for ApiError {
    open spec fn obeys_from_spec() -> bool {
        true
    }

    open spec fn from_spec(v: StorageError) -> ApiError {
        ApiError::Storage(v)
    }
}

impl From<StorageError> for ApiError {
    fn from(e: StorageError) -> (r: Self) {
        ApiError::Storage(e)
    }
}

impl ListGamesQuery {
    /// The listing asked for: at most 50 games and all of them, unless the
    /// request says otherwise.
    pub fn from_params(p: &ListParams) -> (q: Self)
        ensures
            q.limit == (match p.limit {
                Some(l) => l,
                None => 50,
            }),
            q.finished_only == (match p.finished {
                Some(f) => f,
                None => false,
            }),
    {
        ListGamesQuery {
            limit: match p.limit {
                Some(l) => l,
                None => 50,
            },
            finished_only: match p.finished {
                Some(f) => f,
                None => false,
            },
        }
    }
}

impl ApiError {
    /// HTTP status and body of the response to this error.
    pub fn response_parts(&self) -> (r: (u16, &'static str))
        ensures
            match self {
                ApiError::NotFound => r.0 == 404 && r.1@ == "not found"@,
                ApiError::Storage(_) => r.0 == 500 && r.1@ == "server error"@,
            },
    {
        match self {
            ApiError::NotFound => (404, "not found"),
            ApiError::Storage(_) => (500, "server error"),
        }
    }
}

} // verus!
