//! Auth core: password hashing, token generation, input validation.

use vstd::prelude::*;
use vstd::string::StringSliceAdditionalSpecFns;
use vstd::utf8::encode_utf8;
use crate::db::StorageError;
use crate::text::{chars_of, find_char, index_of_from, trim, trim_ws};

use argon2::password_hash::{PasswordHash, PasswordHasher, PasswordVerifier, SaltString};
use base64::Engine;
use rand::RngCore;
use sha2::Digest;

verus! {

#[derive(Debug)]
pub enum AuthError {
    InvalidCredentials,
    InvalidInput { field: &'static str, reason: &'static str },
    Conflict(&'static str),
    NotAuthenticated,
    Storage(StorageError),
    Internal,
}

/// `res` is the input error on `field` with `reason`.
pub open spec fn is_invalid_input(res: Result<(), AuthError>, field: Seq<char>, reason: Seq<char>) -> bool {
    res matches Err(AuthError::InvalidInput { field: f, reason: r }) && f@ == field && r@ == reason
}

// ---- Password hashing ------------------------------------------------------

/// Whether `hash`, a PHC string, is an Argon2 hash of `password`: what
/// `argon2`'s `verify_password` answers.
pub uninterp spec fn argon2_verifies(password: Seq<u8>, hash: Seq<char>) -> bool;

/// The PHC string of the Argon2 (default parameters) hash of `password` with
/// the B64 salt `salt`, if hashing succeeds.
pub uninterp spec fn argon2_phc(password: Seq<u8>, salt: Seq<char>) -> Option<Seq<char>>;

/// `SaltString::generate` of `password-hash` with the operating system's
/// random generator: 16 random bytes in B64 (standard Base64 without
/// padding), 22 characters. Which bytes is not claimed.
#[verifier::external_body]
fn generate_salt() -> (salt: String)
    ensures
        salt_of_16_bytes(salt@),
{
    SaltString::generate(&mut rand::rngs::OsRng).as_str().to_string()
}

/// `Argon2::hash_password` of `argon2` with default parameters: hashes
/// `password` with the B64 salt `salt` into a PHC string. The result is the
/// named function of its arguments, and a produced hash verifies against the
/// same password (verification recomputes the hash with the parameters and
/// salt read back from the string). Hashing fails only on a salt that
/// `SaltString::from_b64` refuses or that decodes to fewer than 8 bytes, or
/// on a password longer than `u32::MAX` bytes (always refused), so it
/// succeeds on a valid salt and any shorter password.
#[verifier::external_body]
fn argon2_hash(password: &[u8], salt: &str) -> (res: Option<String>)
    ensures
        match res {
            Some(h) => argon2_phc(password@, salt@) == Some(h@) && argon2_verifies(password@, h@),
            None => argon2_phc(password@, salt@) is None,
        },
        valid_salt(salt@) && password@.len() <= argon2_max_password_len() ==> res is Some,
        password@.len() > argon2_max_password_len() ==> res is None,
{
    let salt = SaltString::from_b64(salt).ok()?;
    argon2::Argon2::default().hash_password(password, &salt).map(|h| h.to_string()).ok()
}

/// `Argon2::verify_password` of `argon2` with default parameters, on the PHC
/// string `hash` parsed by `PasswordHash::new` (an unparsable string does not
/// verify).
#[verifier::external_body]
fn argon2_verify(password: &[u8], hash: &str) -> (ok: bool)
    ensures
        ok == argon2_verifies(password@, hash@),
{
    let Ok(parsed) = PasswordHash::new(hash) else {
        return false;
    };
    argon2::Argon2::default().verify_password(password, &parsed).is_ok()
}

/// Hashes `password` with a fresh random salt. A hash that comes back is the
/// Argon2 hash of the password with some salt, and verifies against the
/// password. Hashing fails, with an internal error, only on a password
/// longer than `u32::MAX` bytes.
pub fn hash_password(password: &str) -> (res: Result<String, AuthError>)
    ensures
        res is Ok <==> password.spec_bytes().len() <= argon2_max_password_len(),
        match res {
            Ok(h) => (exists|salt: Seq<char>| argon2_phc(password.spec_bytes(), salt) == Some(h@))
                && argon2_verifies(password.spec_bytes(), h@),
            Err(e) => e is Internal,
        },
{
    let salt = generate_salt();
    proof {
        let bytes = choose|bytes: Seq<u8>|
            bytes.len() == 16 && salt@ == #[trigger] base64_nopad(bytes, false);
        assert(valid_salt(salt@));
    }
    let result = argon2_hash(password.as_bytes(), salt.as_str());
    match result {
        Some(h) => Ok(h),
        None => {
            proof {
                if password.spec_bytes().len() <= argon2_max_password_len() {
                    assert(result is Some);
                }
            }
            Err(AuthError::Internal)
        },
    }
}

pub fn verify_password(password: &str, hash: &str) -> (ok: bool)
    ensures
        ok == argon2_verifies(password.spec_bytes(), hash@),
{
    argon2_verify(password.as_bytes(), hash)
}

// ---- Tokens ----------------------------------------------------------------

/// The SHA-256 digest of `data`.
pub uninterp spec fn sha256_digest(data: Seq<u8>) -> Seq<u8>;

/// The character for `v` < 64 of a Base64 alphabet: `A`-`Z`, `a`-`z`,
/// `0`-`9`, then `-` and `_` in the URL-safe alphabet, `+` and `/` in the
/// standard one.
pub open spec fn base64_char(v: int, url_safe: bool) -> char {
    if v < 26 {
        (v + 65) as char
    } else if v < 52 {
        (v - 26 + 97) as char
    } else if v < 62 {
        (v - 52 + 48) as char
    } else if v == 62 {
        if url_safe {
            '-'
        } else {
            '+'
        }
    } else {
        if url_safe {
            '_'
        } else {
            '/'
        }
    }
}

/// The unpadded Base64 encoding of `data`: each group of three bytes as four
/// characters of six bits each, high bits first; a final group of one or two
/// bytes as two or three characters, the last one padded with zero bits,
/// and no `=`.
pub open spec fn base64_nopad(data: Seq<u8>, url_safe: bool) -> Seq<char>
    decreases data.len(),
{
    let a = data[0] as int;
    let b = data[1] as int;
    let c = data[2] as int;
    if data.len() == 0 {
        seq![]
    } else if data.len() == 1 {
        seq![base64_char(a / 4, url_safe), base64_char((a % 4) * 16, url_safe)]
    } else if data.len() == 2 {
        seq![
            base64_char(a / 4, url_safe),
            base64_char((a % 4) * 16 + b / 16, url_safe),
            base64_char((b % 16) * 4, url_safe),
        ]
    } else {
        seq![
            base64_char(a / 4, url_safe),
            base64_char((a % 4) * 16 + b / 16, url_safe),
            base64_char((b % 16) * 4 + c / 64, url_safe),
            base64_char(c % 64, url_safe),
        ] + base64_nopad(data.skip(3), url_safe)
    }
}

/// The unpadded URL-safe Base64 encoding of `data`.
pub open spec fn base64_url_nopad(data: Seq<u8>) -> Seq<char> {
    base64_nopad(data, true)
}

/// `salt` is a B64 salt (standard Base64 without padding) of 8 to 48 bytes:
/// one that `SaltString::from_b64` accepts and Argon2 decodes.
pub open spec fn valid_salt(salt: Seq<char>) -> bool {
    exists|bytes: Seq<u8>| 8 <= bytes.len() <= 48 && salt == #[trigger] base64_nopad(bytes, false)
}

/// `salt` is the B64 encoding of 16 bytes, as `SaltString::generate` makes.
pub open spec fn salt_of_16_bytes(salt: Seq<char>) -> bool {
    exists|bytes: Seq<u8>| bytes.len() == 16 && salt == #[trigger] base64_nopad(bytes, false)
}

/// The longest password Argon2 hashes, in bytes.
pub open spec fn argon2_max_password_len() -> int {
    0xFFFF_FFFF
}

/// `Sha256::digest` of `sha2`: the 32-byte SHA-256 digest of `data`.
#[verifier::external_body]
fn sha256(data: &[u8]) -> (d: Vec<u8>)
    ensures
        d@ == sha256_digest(data@),
        d@.len() == 32,
{
    sha2::Sha256::digest(data).to_vec()
}

/// The lower-case hexadecimal digit for `d` < 16.
pub open spec fn hex_digit(d: int) -> char {
    if d < 10 {
        (d + 48) as char
    } else {
        (d + 87) as char
    }
}

/// Two lower-case hex digits per byte, high nibble first.
pub open spec fn hex_lower(data: Seq<u8>) -> Seq<char>
    decreases data.len(),
{
    if data.len() == 0 {
        seq![]
    } else {
        hex_lower(data.drop_last()) + seq![
            hex_digit(data.last() as int / 16),
            hex_digit(data.last() as int % 16),
        ]
    }
}

pub proof fn lemma_hex_len(data: Seq<u8>)
    ensures
        hex_lower(data).len() == 2 * data.len(),
    decreases data.len(),
{
    if data.len() > 0 {
        lemma_hex_len(data.drop_last());
    }
}

/// `hex::encode` of `hex`: each byte as two lower-case hex digits, high
/// nibble first.
#[verifier::external_body]
fn hex_encode(data: &[u8]) -> (s: String)
    ensures
        s@ == hex_lower(data@),
{
    hex::encode(data)
}

/// `Engine::encode` of `base64` with the `URL_SAFE_NO_PAD` engine.
#[verifier::external_body]
fn base64_url_encode(data: &[u8]) -> (s: String)
    ensures
        s@ == base64_url_nopad(data@),
{
    base64::engine::general_purpose::URL_SAFE_NO_PAD.encode(data)
}

/// `RngCore::fill_bytes` of `rand` on the operating system's generator
/// (`OsRng`): 32 random bytes. Nothing is claimed of their values.
#[verifier::external_body]
fn random_bytes_32() -> (b: [u8; 32])
    ensures
        b@.len() == 32,
{
    let mut bytes = [0u8;32];
    rand::rngs::OsRng.fill_bytes(&mut bytes);
    bytes
}

pub fn sha256_hex(s: &str) -> (h: String)
    ensures
        h@ == hex_lower(sha256_digest(s.spec_bytes())),
        h@.len() == 64,
{
    let d = sha256(s.as_bytes());
    proof {
        lemma_hex_len(d@);
    }
    hex_encode(d.as_slice())
}

/// Generate a cryptographically random token. Returns (raw_token, sha256_hash).
/// The raw token is what the client sees (cookie or email link). Only the hash
/// is stored, so DB compromise can't impersonate active sessions.
pub fn new_token() -> (t: (String, String))
    ensures
        exists|bytes: Seq<u8>| bytes.len() == 32 && t.0@ == base64_url_nopad(bytes),
        t.1@ == hex_lower(sha256_digest(encode_utf8(t.0@))),
        t.1@.len() == 64,
{
    let bytes = random_bytes_32();
    let raw = base64_url_encode(&bytes);
    let hash = sha256_hex(raw.as_str());
    (raw, hash)
}

// ---- Validation ------------------------------------------------------------

pub const USERNAME_MIN: usize = 3;

pub const USERNAME_MAX: usize = 30;

pub const PASSWORD_MIN: usize = 8;

pub const PASSWORD_MAX: usize = 128;

pub open spec fn is_ascii_alnum(b: u8) -> bool {
    (48 <= b <= 57) || (65 <= b <= 90) || (97 <= b <= 122)
}

/// A byte of an ASCII letter, digit, `_` or `-`. Every byte of a non-ASCII
/// character is refused, so on the bytes of a string this says exactly that
/// each character is one of these.
pub open spec fn username_byte(b: u8) -> bool {
    is_ascii_alnum(b) || b == 95 || b == 45
}

fn is_ascii_alnum_byte(b: u8) -> (r: bool)
    ensures
        r == is_ascii_alnum(b),
{
    (b >= 48 && b <= 57) || (b >= 65 && b <= 90) || (b >= 97 && b <= 122)
}

/// What is wrong with a username given by its bytes, if anything: it must
/// have 3 to 30 bytes of ASCII letters, digits, `_` and `-`, starting with a
/// letter or digit.
pub open spec fn username_problem(b: Seq<u8>) -> Option<Seq<char>> {
    if b.len() < 3 {
        Some("too short (min 3)"@)
    } else if b.len() > 30 {
        Some("too long (max 30)"@)
    } else if exists|i: int| 0 <= i < b.len() && !username_byte(#[trigger] b[i]) {
        Some("only letters, digits, _ and - allowed"@)
    } else if !is_ascii_alnum(b[0]) {
        Some("must start with a letter or digit"@)
    } else {
        None
    }
}

/// The answer of a validator on `field` for a value with `problem`.
pub open spec fn validation_result(res: Result<(), AuthError>, field: Seq<char>, problem: Option<Seq<char>>) -> bool {
    match problem {
        Some(reason) => is_invalid_input(res, field, reason),
        None => res is Ok,
    }
}

pub fn validate_username(s: &str) -> (res: Result<(), AuthError>)
    ensures
        validation_result(res, "username"@, username_problem(s.spec_bytes())),
{
    let bytes = s.as_bytes();
    if bytes.len() < USERNAME_MIN {
        return Err(AuthError::InvalidInput { field: "username", reason: "too short (min 3)" });
    }
    if bytes.len() > USERNAME_MAX {
        return Err(AuthError::InvalidInput { field: "username", reason: "too long (max 30)" });
    }
    let mut i: usize = 0;
    while i < bytes.len()
        invariant
            bytes@ == s.spec_bytes(),
            3 <= bytes.len() <= 30,
            i <= bytes.len(),
            forall|j: int| 0 <= j < i ==> username_byte(#[trigger] bytes@[j]),
        decreases bytes.len() - i,
    {
        let c = bytes[i];
        if !(is_ascii_alnum_byte(c) || c == 95 || c == 45) {
            assert(!username_byte(s.spec_bytes()[i as int]));
            assert(exists|j: int|
                0 <= j < s.spec_bytes().len() && !username_byte(#[trigger] s.spec_bytes()[j]));
            let e = Err(
                AuthError::InvalidInput {
                    field: "username",
                    reason: "only letters, digits, _ and - allowed",
                },
            );
            return e;
        }
        i = i + 1;
    }
    if !is_ascii_alnum_byte(bytes[0]) {
        return Err(
            AuthError::InvalidInput {
                field: "username",
                reason: "must start with a letter or digit",
            },
        );
    }
    Ok(())
}

/// What is wrong with a password given by its bytes: it must have 8 to 128.
pub open spec fn password_problem(b: Seq<u8>) -> Option<Seq<char>> {
    if b.len() < 8 {
        Some("too short (min 8)"@)
    } else if b.len() > 128 {
        Some("too long (max 128)"@)
    } else {
        None
    }
}

pub fn validate_password(s: &str) -> (res: Result<(), AuthError>)
    ensures
        validation_result(res, "password"@, password_problem(s.spec_bytes())),
{
    let n = s.as_bytes().len();
    if n < PASSWORD_MIN {
        return Err(AuthError::InvalidInput { field: "password", reason: "too short (min 8)" });
    }
    if n > PASSWORD_MAX {
        return Err(AuthError::InvalidInput { field: "password", reason: "too long (max 128)" });
    }
    Ok(())
}

/// What is wrong with an email: once trimmed of white space it must have at
/// most 254 bytes, a non-empty part before its first `@`, a non-empty part
/// after it, and a dot somewhere after it.
pub open spec fn email_problem(s: Seq<char>) -> Option<Seq<char>> {
    let t = trim_ws(s);
    let at = index_of_from(t, 0, '@');
    if encode_utf8(t).len() > 254 {
        Some("too long"@)
    } else if at == t.len() || at == 0 || at == t.len() - 1 {
        Some("missing @ or local/domain part"@)
    } else if index_of_from(t, at + 1, '.') == t.len() {
        Some("domain has no dot"@)
    } else {
        None
    }
}

pub fn validate_email(s: &str) -> (res: Result<(), AuthError>)
    ensures
        validation_result(res, "email"@, email_problem(s@)),
{
    // Deliberately minimal: "has @ and a dot in the domain", because the
    // verification email is the real check. Not RFC-correct.
    let trimmed = trim(s);
    let s = trimmed.as_str();
    if s.as_bytes().len() > 254 {
        return Err(AuthError::InvalidInput { field: "email", reason: "too long" });
    }
    let v = chars_of(s);
    let at = find_char(&v, 0, '@');
    if at == v.len() || at == 0 || at == v.len() - 1 {
        return Err(
            AuthError::InvalidInput { field: "email", reason: "missing @ or local/domain part" },
        );
    }
    if find_char(&v, at + 1, '.') == v.len() {
        return Err(AuthError::InvalidInput { field: "email", reason: "domain has no dot" });
    }
    Ok(())
}

} // verus!
