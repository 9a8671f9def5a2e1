use cotuong::auth::{
    hash_password, new_token, sha256_hex, validate_email, validate_password, validate_username,
    verify_password, AuthError,
};
use cotuong::oauth::{
    check_callback, constant_time_eq, sanitize_username, truncate, username_base,
    username_attempt, username_candidate, CallbackParams, GoogleConfig,
};

#[test]
fn password_hash_verifies() {
    let h = hash_password("hunter2hunter2").unwrap();
    assert!(verify_password("hunter2hunter2", &h));
    assert!(!verify_password("wrongpass1234", &h));
}

#[test]
fn token_is_unique() {
    let a = new_token();
    let b = new_token();
    assert_ne!(a.0, b.0);
    assert_eq!(a.1.len(), 64); // sha256 hex
}

#[test]
fn username_rules() {
    assert!(validate_username("alice").is_ok());
    assert!(validate_username("alice_42").is_ok());
    assert!(validate_username("ab").is_err());
    assert!(validate_username("a".repeat(31).as_str()).is_err());
    assert!(validate_username("alice@bob").is_err());
    assert!(validate_username("_alice").is_err());
}

#[test]
fn password_rules() {
    assert!(validate_password("short").is_err());
    assert!(validate_password("longenoughpw").is_ok());
}

#[test]
fn email_rules() {
    assert!(validate_email("a@b.co").is_ok());
    assert!(validate_email("a@b").is_err());
    assert!(validate_email("@b.co").is_err());
    assert!(validate_email("a@").is_err());
}

#[test]
fn sanitize_replaces_punctuation() {
    assert_eq!(sanitize_username("Alice O'Brien").as_deref(), Some("Alice_O_Brien"));
    assert_eq!(
        sanitize_username("alice@example.com").as_deref(),
        Some("alice_example_com")
    );
}

#[test]
fn sanitize_trims_leading_underscores() {
    assert_eq!(sanitize_username("---bob").as_deref(), Some("bob"));
}

#[test]
fn truncate_caps_length() {
    let s = "x".repeat(50);
    assert_eq!(truncate(&s, 30).len(), 30);
}

fn reason_of(r: Result<(), AuthError>) -> (&'static str, &'static str) {
    match r {
        Err(AuthError::InvalidInput { field, reason }) => (field, reason),
        other => panic!("expected an input error, got {:?}", other),
    }
}

#[test]
fn username_errors_name_the_rule() {
    assert_eq!(reason_of(validate_username("ab")), ("username", "too short (min 3)"));
    assert_eq!(
        reason_of(validate_username(&"a".repeat(31))),
        ("username", "too long (max 30)")
    );
    assert_eq!(
        reason_of(validate_username("al ice")),
        ("username", "only letters, digits, _ and - allowed")
    );
    assert_eq!(
        reason_of(validate_username("-alice")),
        ("username", "must start with a letter or digit")
    );
    // Non-ASCII letters are refused even though the byte count fits.
    assert!(validate_username("émile").is_err());
    assert!(validate_username(&"a".repeat(30)).is_ok());
    assert!(validate_username("abc").is_ok());
}

#[test]
fn password_bounds() {
    assert_eq!(reason_of(validate_password("1234567")), ("password", "too short (min 8)"));
    assert!(validate_password("12345678").is_ok());
    assert!(validate_password(&"p".repeat(128)).is_ok());
    assert_eq!(
        reason_of(validate_password(&"p".repeat(129))),
        ("password", "too long (max 128)")
    );
}

#[test]
fn email_errors_name_the_rule() {
    assert!(validate_email("  a@b.co \n").is_ok());
    assert_eq!(reason_of(validate_email("ab.co")), ("email", "missing @ or local/domain part"));
    assert_eq!(reason_of(validate_email("a@bco")), ("email", "domain has no dot"));
    // Only the first @ splits: the domain may hold another @.
    assert!(validate_email("a@b@c.d").is_ok());
    let long = format!("{}@example.com", "a".repeat(250));
    assert_eq!(reason_of(validate_email(&long)), ("email", "too long"));
}

#[test]
fn sha256_hex_known_value() {
    assert_eq!(
        sha256_hex("abc"),
        "ba7816bf8f01cfea414140de5dae2223b00361a396177a9cb410ff61f20015ad"
    );
}

#[test]
fn token_hash_is_hash_of_raw() {
    let (raw, hash) = new_token();
    assert_eq!(sha256_hex(&raw), hash);
    assert_eq!(raw.len(), 43);
    assert!(raw.chars().all(|c| c.is_ascii_alphanumeric() || c == '-' || c == '_'));
}

#[test]
fn sanitize_edge_cases() {
    assert_eq!(sanitize_username("___"), None);
    assert_eq!(sanitize_username(""), None);
    assert_eq!(sanitize_username("bob--"), Some("bob".to_string()));
    assert_eq!(sanitize_username("Trần Văn"), Some("Tr_n_V_n".to_string()));
    let long = "y".repeat(40);
    assert_eq!(sanitize_username(&long), Some("y".repeat(30)));
}

#[test]
fn truncate_counts_characters() {
    assert_eq!(truncate("ờờờ", 2), "ờờ");
    assert_eq!(truncate("ab", 5), "ab");
    assert_eq!(truncate("abc", 0), "");
}

#[test]
fn constant_time_eq_compares() {
    assert!(constant_time_eq(b"abc", b"abc"));
    assert!(!constant_time_eq(b"abc", b"abd"));
    assert!(!constant_time_eq(b"abc", b"ab"));
    assert!(constant_time_eq(b"", b""));
}

#[test]
fn username_from_profile() {
    assert_eq!(username_base("a.b@example.com", Some("Jane Doe")), "Jane_Doe");
    assert_eq!(username_base("a.b@example.com", Some("!!!")), "a_b");
    assert_eq!(username_base("@example.com", None), "player");
    assert_eq!(username_candidate("bob", 7), "bob-7");
    assert_eq!(username_candidate(&"z".repeat(30), 12), "z".repeat(30));
    assert_eq!(username_candidate(&"z".repeat(28), 12), format!("{}-1", "z".repeat(28)));
}

#[test]
fn callback_checks_state() {
    let ok = check_callback(
        CallbackParams { code: Some("c0de".into()), state: Some("xyz".into()), error: None },
        Some("xyz:verif:ier".into()),
    )
    .unwrap();
    assert_eq!(ok, ("c0de".to_string(), "verif:ier".to_string()));
    let bad_state = check_callback(
        CallbackParams { code: Some("c".into()), state: Some("abc".into()), error: None },
        Some("xyz:v".into()),
    );
    assert!(matches!(bad_state, Err(AuthError::InvalidCredentials)));
    let denied = check_callback(
        CallbackParams { code: Some("c".into()), state: Some("xyz".into()), error: Some("access_denied".into()) },
        Some("xyz:v".into()),
    );
    assert!(matches!(denied, Err(AuthError::InvalidCredentials)));
    let no_cookie = check_callback(
        CallbackParams { code: Some("c".into()), state: Some("xyz".into()), error: None },
        None,
    );
    assert!(matches!(no_cookie, Err(AuthError::InvalidCredentials)));
    let no_colon = check_callback(
        CallbackParams { code: Some("c".into()), state: Some("xyz".into()), error: None },
        Some("xyz".into()),
    );
    assert!(matches!(no_colon, Err(AuthError::InvalidCredentials)));
}

#[test]
fn google_redirect_url() {
    let cfg = GoogleConfig::new("id".into(), "secret".into(), "https://example.org//");
    assert_eq!(cfg.redirect_url, "https://example.org/auth/google/callback");
}

#[test]
fn username_attempts() {
    assert_eq!(username_attempt("alice", 0).unwrap(), "alice");
    assert_eq!(username_attempt("alice", 7).unwrap(), "alice-7");
    assert_eq!(username_attempt(&"x".repeat(30), 999).unwrap(), "x".repeat(30));
    assert!(matches!(username_attempt("alice", 1000), Err(AuthError::Internal)));
}

#[test]
fn token_is_url_safe_base64_of_32_bytes() {
    let (raw, hash) = new_token();
    assert_eq!(raw.len(), 43);
    assert!(raw.chars().all(|c| c.is_ascii_alphanumeric() || c == '-' || c == '_'));
    assert_eq!(hash, sha256_hex(&raw));
}
