//! Hiding credentials in database URLs before they are logged.

use vstd::prelude::*;
use vstd::string::StringExecFns;
use crate::text::{chars_of, find_char, has_prefix, index_of_from, push_chars, starts_with};

verus! {

/// A Postgres URL with its user part (up to the first `@` after the scheme)
/// replaced by `***`; any other URL unchanged.
pub open spec fn redact_spec(u: Seq<char>) -> Seq<char> {
    let rest = if starts_with(u, "postgres://"@) {
        Some(u.skip("postgres://"@.len() as int))
    } else if starts_with(u, "postgresql://"@) {
        Some(u.skip("postgresql://"@.len() as int))
    } else {
        None
    };
    match rest {
        Some(r) => {
            let at = index_of_from(r, 0, '@');
            if at < r.len() {
                (if starts_with(u, "postgresql://"@) {
                    "postgresql"@
                } else {
                    "postgres"@
                }) + "://***@"@ + r.skip(at + 1)
            } else {
                u
            }
        },
        None => u,
    }
}

pub fn redact_url(url: &str) -> (r: String)
    ensures
        r@ == redact_spec(url@),
{
    let v = chars_of(url);
    proof {
        reveal_strlit("postgres://");
        reveal_strlit("postgresql://");
    }
    let skip: usize = if has_prefix(&v, "postgres://") {
        11
    } else if has_prefix(&v, "postgresql://") {
        13
    } else {
        return String::from_str(url);
    };
    let at = find_char(&v, skip, '@');
    proof {
        let rest = url@.skip(skip as int);
        assert forall|j: int| skip <= j <= v@.len() implies index_of_from(v@, j, '@') - skip
            == index_of_from(rest, j - skip, '@') by {
            lemma_index_shift(v@, skip as int, j);
        }
    }
    if at == v.len() {
        return String::from_str(url);
    }
    let mut r = if has_prefix(&v, "postgresql://") {
        String::from_str("postgresql")
    } else {
        String::from_str("postgres")
    };
    r.append("://***@");
    push_chars(&mut r, &v, at + 1, v.len());
    assert(v@.subrange(at + 1, v@.len() as int) =~= url@.skip(skip as int).skip(at - skip + 1));
    r
}

proof fn lemma_index_shift(s: Seq<char>, k: int, j: int)
    requires
        0 <= k <= j <= s.len(),
    ensures
        index_of_from(s, j, '@') - k == index_of_from(s.skip(k), j - k, '@'),
    decreases s.len() - j,
{
    if j < s.len() && s[j] != '@' {
        lemma_index_shift(s, k, j + 1);
    }
}

} // verus!
