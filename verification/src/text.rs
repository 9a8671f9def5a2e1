//! Building text: the characters and decimal numbers that the JSON output
//! of the engine is made of.

use vstd::prelude::*;

verus! {

/// `String::push` of std: appends one character.
#[verifier::external_body]
pub(crate) fn push_char(s: &mut String, c: char)
    ensures
        final(s)@ == old(s)@.push(c),
{
    s.push(c);
}

/// The decimal digit character for `d` < 10.
pub open spec fn digit_char(d: nat) -> char {
    (d + 48) as char
}

/// The decimal representation of `n`, without leading zeros.
pub open spec fn decimal(n: nat) -> Seq<char>
    decreases n,
{
    if n < 10 {
        seq![digit_char(n)]
    } else {
        decimal(n / 10).push(digit_char(n % 10))
    }
}

/// Appends the decimal representation of `n`.
pub fn push_decimal(s: &mut String, n: u64)
    ensures
        final(s)@ == old(s)@ + decimal(n as nat),
    decreases n,
{
    if n >= 10 {
        push_decimal(s, n / 10);
    }
    let d = (n % 10) as u8;
    push_char(s, (48u8 + d) as char);
    assert(s@ =~= old(s)@ + decimal(n as nat));
}

/// The characters of `s`.
pub fn chars_of(s: &str) -> (v: Vec<char>)
    ensures
        v@ == s@,
{
    let mut v: Vec<char> = Vec::new();
    for c in it: s.chars()
        invariant
            it.seq() == s@,
            v@ == it.seq().take(it.index() as int),
    {
        v.push(c);
        assert(v@ =~= it.seq().take(it.index() + 1));
    }
    assert(v@ =~= s@);
    v
}

/// Appends the characters `v[lo..hi]`.
pub fn push_chars(s: &mut String, v: &Vec<char>, lo: usize, hi: usize)
    requires
        lo <= hi <= v.len(),
    ensures
        final(s)@ == old(s)@ + v@.subrange(lo as int, hi as int),
{
    let mut i = lo;
    while i < hi
        invariant
            lo <= i <= hi <= v.len(),
            s@ == old(s)@ + v@.subrange(lo as int, i as int),
        decreases hi - i,
    {
        push_char(s, v[i]);
        assert(s@ =~= old(s)@ + v@.subrange(lo as int, i + 1));
        i = i + 1;
    }
}

/// The string made of the characters `v[lo..hi]`.
pub fn string_of(v: &Vec<char>, lo: usize, hi: usize) -> (s: String)
    requires
        lo <= hi <= v.len(),
    ensures
        s@ == v@.subrange(lo as int, hi as int),
{
    let mut s = String::new();
    push_chars(&mut s, v, lo, hi);
    s
}

/// Whether `s` begins with `p`.
pub open spec fn starts_with(s: Seq<char>, p: Seq<char>) -> bool {
    p.len() <= s.len() && s.take(p.len() as int) == p
}

pub fn has_prefix(v: &Vec<char>, p: &str) -> (res: bool)
    ensures
        res == starts_with(v@, p@),
{
    let pv = chars_of(p);
    if pv.len() > v.len() {
        return false;
    }
    let mut i: usize = 0;
    while i < pv.len()
        invariant
            pv@ == p@,
            pv.len() <= v.len(),
            i <= pv.len(),
            forall|j: int| 0 <= j < i ==> v@[j] == pv@[j],
        decreases pv.len() - i,
    {
        if v[i] != pv[i] {
            assert(v@.take(pv.len() as int)[i as int] != p@[i as int]);
            return false;
        }
        i = i + 1;
    }
    assert(v@.take(pv.len() as int) =~= p@);
    true
}

/// The index of the first `c` in `s` at or after `i`, or the length of `s`.
pub open spec fn index_of_from(s: Seq<char>, i: int, c: char) -> int
    decreases s.len() - i,
{
    if i >= s.len() {
        s.len() as int
    } else if s[i] == c {
        i
    } else {
        index_of_from(s, i + 1, c)
    }
}

pub proof fn lemma_index_of_from(s: Seq<char>, i: int, c: char)
    requires
        0 <= i <= s.len(),
    ensures
        i <= index_of_from(s, i, c) <= s.len(),
        forall|j: int| i <= j < index_of_from(s, i, c) ==> s[j] != c,
        index_of_from(s, i, c) < s.len() ==> s[index_of_from(s, i, c)] == c,
    decreases s.len() - i,
{
    if i < s.len() && s[i] != c {
        lemma_index_of_from(s, i + 1, c);
    }
}

pub fn find_char(v: &Vec<char>, from: usize, c: char) -> (k: usize)
    requires
        from <= v.len(),
    ensures
        k == index_of_from(v@, from as int, c),
        from <= k <= v.len(),
{
    let mut k = from;
    while k < v.len() && v[k] != c
        invariant
            from <= k <= v.len(),
            index_of_from(v@, k as int, c) == index_of_from(v@, from as int, c),
        decreases v.len() - k,
    {
        k = k + 1;
    }
    k
}

/// Unicode `White_Space`: the characters `char::is_whitespace` accepts.
pub open spec fn is_white_space(c: char) -> bool {
    let u = c as u32;
    ||| 0x09 <= u <= 0x0d
    ||| u == 0x20
    ||| u == 0x85
    ||| u == 0xa0
    ||| u == 0x1680
    ||| 0x2000 <= u <= 0x200a
    ||| u == 0x2028
    ||| u == 0x2029
    ||| u == 0x202f
    ||| u == 0x205f
    ||| u == 0x3000
}

pub open spec fn trim_start_ws(s: Seq<char>) -> Seq<char>
    decreases s.len(),
{
    if s.len() > 0 && is_white_space(s[0]) {
        trim_start_ws(s.drop_first())
    } else {
        s
    }
}

pub open spec fn trim_end_ws(s: Seq<char>) -> Seq<char>
    decreases s.len(),
{
    if s.len() > 0 && is_white_space(s.last()) {
        trim_end_ws(s.drop_last())
    } else {
        s
    }
}

/// `s` without leading and trailing white space.
pub open spec fn trim_ws(s: Seq<char>) -> Seq<char> {
    trim_end_ws(trim_start_ws(s))
}

/// Whether `c` is Unicode white space.
pub fn is_white_space_char(c: char) -> (b: bool)
    ensures
        b == is_white_space(c),
{
    let u = c as u32;
    (0x09 <= u && u <= 0x0d) || u == 0x20 || u == 0x85 || u == 0xa0 || u == 0x1680 || (0x2000 <= u
        && u <= 0x200a) || u == 0x2028 || u == 0x2029 || u == 0x202f || u == 0x205f || u == 0x3000
}

/// `s` without its leading and trailing Unicode white space, as `str::trim`
/// gives it.
pub fn trim(s: &str) -> (r: String)
    ensures
        r@ == trim_ws(s@),
{
    let v = chars_of(s);
    let n = v.len();
    let mut lo: usize = 0;
    assert(v@.skip(0) =~= v@);
    while lo < n && is_white_space_char(v[lo])
        invariant
            v@ == s@,
            n == v.len(),
            lo <= n,
            trim_start_ws(v@) == trim_start_ws(v@.skip(lo as int)),
        decreases n - lo,
    {
        assert(v@.skip(lo as int).drop_first() =~= v@.skip(lo + 1));
        lo = lo + 1;
    }
    assert(trim_start_ws(v@) == v@.skip(lo as int)) by {
        if lo == n {
            assert(v@.skip(lo as int).len() == 0);
        }
    }
    let mut hi: usize = n;
    while hi > lo && is_white_space_char(v[hi - 1])
        invariant
            v@ == s@,
            n == v.len(),
            lo <= hi <= n,
            trim_start_ws(v@) == v@.skip(lo as int),
            trim_end_ws(v@.skip(lo as int)) == trim_end_ws(v@.subrange(lo as int, hi as int)),
        decreases hi - lo,
    {
        assert(v@.subrange(lo as int, hi as int).drop_last() =~= v@.subrange(lo as int, hi - 1));
        assert(v@.subrange(lo as int, hi as int).last() == v@[hi - 1]);
        hi = hi - 1;
    }
    proof {
        assert(v@.subrange(lo as int, n as int) =~= v@.skip(lo as int));
        let sub = v@.subrange(lo as int, hi as int);
        if hi == lo {
            assert(sub.len() == 0);
        } else {
            assert(sub.last() == v@[hi - 1]);
        }
    }
    string_of(&v, lo, hi)
}

/// The UTF-8 bytes of a text.
pub open spec fn encode_str(s: Seq<char>) -> Seq<u8> {
    vstd::utf8::encode_utf8(s)
}

pub open spec fn trim_slashes_rec(s: Seq<char>) -> Seq<char>
    decreases s.len(),
{
    if s.len() > 0 && s.last() == '/' {
        trim_slashes_rec(s.drop_last())
    } else {
        s
    }
}

/// `s` without trailing `/` characters.
pub open spec fn trim_slashes_spec(s: Seq<char>) -> Seq<char> {
    trim_slashes_rec(s)
}

/// `s` without its trailing `/` characters, as a new string.
pub fn trim_end_slashes(s: &str) -> (t: String)
    ensures
        t@ == trim_slashes_spec(s@),
{
    let v = chars_of(s);
    let mut end = v.len();
    assert(v@.take(v.len() as int) =~= v@);
    while end > 0 && v[end - 1] == '/'
        invariant
            v@ == s@,
            end <= v.len(),
            trim_slashes_rec(v@.take(end as int)) == trim_slashes_rec(v@),
        decreases end,
    {
        assert(v@.take(end as int).drop_last() =~= v@.take(end - 1));
        end = end - 1;
    }
    assert(v@.subrange(0, end as int) =~= v@.take(end as int));
    string_of(&v, 0, end)
}

/// Whether two strings have the same characters.
pub fn str_eq(a: &str, b: &str) -> (eq: bool)
    ensures
        eq == (a@ == b@),
{
    let va = chars_of(a);
    let vb = chars_of(b);
    if va.len() != vb.len() {
        return false;
    }
    let mut i: usize = 0;
    while i < va.len()
        invariant
            va@ == a@,
            vb@ == b@,
            va.len() == vb.len(),
            i <= va.len(),
            forall|j: int| 0 <= j < i ==> va@[j] == vb@[j],
        decreases va.len() - i,
    {
        if va[i] != vb[i] {
            return false;
        }
        i = i + 1;
    }
    assert(va@ =~= vb@);
    true
}

/// The value of the decimal digits `s`, most significant first.
pub open spec fn digits_value(s: Seq<char>) -> nat
    decreases s.len(),
{
    if s.len() == 0 {
        0
    } else {
        digits_value(s.drop_last()) * 10 + ((s.last() as u32) - 48) as nat
    }
}

pub open spec fn is_digit(c: char) -> bool {
    48 <= (c as u32) <= 57
}

/// `s` without one leading `+`.
pub open spec fn unsigned_digits(s: Seq<char>) -> Seq<char> {
    if s.len() > 0 && s[0] == '+' {
        s.drop_first()
    } else {
        s
    }
}

pub open spec fn all_digits(d: Seq<char>) -> bool {
    forall|i: int| 0 <= i < d.len() ==> is_digit(#[trigger] d[i])
}

/// The unsigned number written in `s` (an optional `+`, then one or more
/// ASCII digits), if it is at most `max`: how `str::parse` reads an unsigned
/// integer type whose largest value is `max`.
pub open spec fn parse_unsigned_spec(s: Seq<char>, max: nat) -> Option<nat> {
    let d = unsigned_digits(s);
    if d.len() > 0 && all_digits(d) && digits_value(d) <= max {
        Some(digits_value(d))
    } else {
        None
    }
}

proof fn lemma_digits_value_mono(s: Seq<char>, k: int)
    requires
        0 <= k <= s.len(),
        forall|i: int| 0 <= i < s.len() ==> is_digit(#[trigger] s[i]),
    ensures
        digits_value(s.take(k)) <= digits_value(s),
    decreases s.len(),
{
    if k < s.len() {
        lemma_digits_value_mono(s.drop_last(), k);
        assert(s.drop_last().take(k) =~= s.take(k));
    } else {
        assert(s.take(k) =~= s);
    }
}

proof fn lemma_parse_nondigit(s: Seq<char>, max: nat, j: int)
    requires
        0 <= j < unsigned_digits(s).len(),
        !is_digit(unsigned_digits(s)[j]),
    ensures
        parse_unsigned_spec(s, max) is None,
{
}

pub fn parse_unsigned(s: &str, max: u64) -> (res: Option<u64>)
    ensures
        match res {
            Some(n) => parse_unsigned_spec(s@, max as nat) == Some(n as nat),
            None => parse_unsigned_spec(s@, max as nat) is None,
        },
{
    let v = chars_of(s);
    let start: usize = if v.len() > 0 && v[0] == '+' {
        1
    } else {
        0
    };
    let ghost d = unsigned_digits(s@);
    assert(d =~= v@.skip(start as int));
    if start == v.len() {
        return None;
    }
    let mut value: u64 = 0;
    let mut i = start;
    while i < v.len()
        invariant
            v@ == s@,
            d == v@.skip(start as int),
            d == unsigned_digits(s@),
            start < v.len(),
            start <= i <= v.len(),
            forall|j: int| start <= j < i ==> is_digit(#[trigger] v@[j]),
            value as nat == digits_value(d.take(i - start)),
            value <= max,
        decreases v.len() - i,
    {
        let c = v[i];
        let u = c as u32;
        assert(d[i - start] == c);
        if u < 48 || u > 57 {
            assert(!is_digit(d[i - start]));
            proof {
                lemma_parse_nondigit(s@, max as nat, (i - start) as int);
            }
            return None;
        }
        let digit = (u - 48) as u64;
        assert(d.take(i + 1 - start).drop_last() =~= d.take(i - start));
        assert(d.take(i + 1 - start).last() == c);
        assert(digits_value(d.take(i + 1 - start)) == value * 10 + digit);
        if digit > max || value > (max - digit) / 10 {
            proof {
                assert(value * 10 + digit > max) by (nonlinear_arith)
                    requires
                        digit > max || value > (max - digit) / 10,
                        digit <= max ==> (max - digit) / 10 * 10 <= max - digit,
                ;
                if all_digits(d) {
                    lemma_digits_value_mono(d, i + 1 - start);
                }
            }
            return None;
        }
        assert(value * 10 + digit <= max) by (nonlinear_arith)
            requires
                value <= (max - digit) / 10,
                digit <= max,
        ;
        value = value * 10 + digit;
        i = i + 1;
    }
    assert(d.take(v.len() - start) =~= d);
    Some(value)
}

} // verus!
