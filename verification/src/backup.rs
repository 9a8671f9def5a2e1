//! Periodic SQLite snapshots to S3-compatible storage: their configuration
//! and the names they are stored under. The upload runs in the server program.

use vstd::prelude::*;
use vstd::string::StringExecFns;
use crate::text::{
    chars_of, parse_unsigned, parse_unsigned_spec, push_char, trim_end_slashes, trim_slashes_spec,
};

verus! {

#[derive(Debug, Clone)]
pub struct BackupConfig {
    pub bucket: String,
    pub endpoint: String,
    pub region: String,
    pub access_key_id: String,
    pub secret_access_key: String,
    pub key_prefix: String,
    /// Seconds between two backups.
    pub interval_secs: u64,
}

/// The backup interval given the value of `COTUONG_R2_INTERVAL_SECS`, if
/// set: the number of seconds it holds, else an hour.
pub fn interval_secs(var: Option<&str>) -> (secs: u64)
    ensures
        secs == (match var {
            Some(v) => match parse_unsigned_spec(v@, u64::MAX as nat) {
                Some(n) => n,
                None => 3600,
            },
            None => 3600,
        }),
{
    match var {
        Some(v) => match parse_unsigned(v, u64::MAX) {
            Some(n) => n,
            None => 3600,
        },
        None => 3600,
    }
}

/// `<stem>-<stamp>.db`, with `cotuong` for a missing stem.
pub fn snapshot_name(stem: Option<&str>, stamp: &str) -> (name: String)
    ensures
        name@ == (match stem {
            Some(s) => s@,
            None => "cotuong"@,
        }) + "-"@ + stamp@ + ".db"@,
{
    let mut n = match stem {
        Some(s) => String::from_str(s),
        None => String::from_str("cotuong"),
    };
    n.append("-");
    n.append(stamp);
    n.append(".db");
    n
}

/// The object key of a snapshot: the prefix without trailing slashes, `/`,
/// then the snapshot's name.
pub fn object_key(prefix: &str, snapshot: &str) -> (key: String)
    ensures
        key@ == trim_slashes_spec(prefix@) + "/"@ + snapshot@,
{
    let mut k = trim_end_slashes(prefix);
    k.append("/");
    k.append(snapshot);
    k
}

/// `s` with every `'` doubled, as inside an SQL string literal.
pub open spec fn sql_quote_spec(s: Seq<char>) -> Seq<char>
    decreases s.len(),
{
    if s.len() == 0 {
        seq![]
    } else {
        sql_quote_spec(s.drop_last()) + if s.last() == '\'' {
            seq!['\'', '\'']
        } else {
            seq![s.last()]
        }
    }
}

pub fn sql_quote(s: &str) -> (q: String)
    ensures
        q@ == sql_quote_spec(s@),
{
    let v = chars_of(s);
    let mut q = String::new();
    let mut i: usize = 0;
    while i < v.len()
        invariant
            v@ == s@,
            i <= v.len(),
            q@ == sql_quote_spec(v@.take(i as int)),
        decreases v.len() - i,
    {
        push_char(&mut q, v[i]);
        if v[i] == '\'' {
            push_char(&mut q, '\'');
        }
        assert(v@.take(i + 1).drop_last() =~= v@.take(i as int));
        assert(q@ =~= sql_quote_spec(v@.take(i + 1)));
        i = i + 1;
    }
    assert(v@.take(v.len() as int) =~= v@);
    q
}

} // verus!
