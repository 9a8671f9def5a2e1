use cotuong::api::{ApiError, ListParams};
use cotuong::auth::AuthError;
use cotuong::backup::{interval_secs, object_key, snapshot_name, sql_quote};
use cotuong::board::Color;
use cotuong::db::{
    check_storage_url, conflict_field, sqlite_file_path, EmailTokenPurpose, GameResult, ListGamesQuery,
    StorageError, Termination,
};
use cotuong::handlers::{check_login, map_storage_conflict, validate_signup, SignupRequest};
use cotuong::hub::{
    color_idx, color_str, current_status, join_step, leave_step, move_error_reason, random_code, result_for_winner,
    seat_for_join, seat_of, session_action, turn_byte, JoinStep, SessionAction, ROOM_CODE_CHARS,
};
use cotuong::mail::{reset_body, reset_link, smtp_port, verify_body, verify_link};
use cotuong::proto::ClientMsg;
use cotuong::room::{GameRoom, MoveError};
use cotuong::session::{session_token_from_header, COOKIE_NAME, SESSION_TTL_SECS};
use cotuong::state::{flag_enabled, AuthConfig};
use cotuong::text::parse_unsigned;
use cotuong::util::redact_url;

#[test]
fn names_of_results() {
    assert_eq!(GameResult::RedWins.as_str(), "red_wins");
    assert_eq!(GameResult::BlackWins.as_str(), "black_wins");
    assert_eq!(GameResult::Draw.as_str(), "draw");
    assert_eq!(Termination::Checkmate.as_str(), "checkmate");
    assert_eq!(Termination::Resignation.as_str(), "resignation");
    assert_eq!(Termination::Abandoned.as_str(), "abandoned");
    assert_eq!(EmailTokenPurpose::VerifyEmail.as_str(), "verify_email");
    assert_eq!(EmailTokenPurpose::PasswordReset.as_str(), "password_reset");
}

#[test]
fn list_query_defaults_and_clamp() {
    let q = ListGamesQuery::default();
    assert_eq!(q.limit, 50);
    assert!(!q.finished_only);
    let q = ListGamesQuery::from_params(&ListParams { limit: None, finished: Some(true) });
    assert_eq!(q.limit, 50);
    assert!(q.finished_only);
    assert_eq!(ListGamesQuery { limit: 0, finished_only: false }.effective_limit(), 1);
    assert_eq!(ListGamesQuery { limit: 10, finished_only: false }.effective_limit(), 10);
    assert_eq!(ListGamesQuery { limit: 9999, finished_only: false }.effective_limit(), 500);
    assert_eq!(ApiError::NotFound.response_parts(), (404, "not found"));
    let e: ApiError = StorageError::Db("boom".into()).into();
    assert_eq!(e.response_parts(), (500, "server error"));
}

#[test]
fn sqlite_paths() {
    assert_eq!(sqlite_file_path("sqlite:cotuong.db"), Some("cotuong.db".to_string()));
    assert_eq!(sqlite_file_path("sqlite://data/x.db?mode=rwc"), Some("data/x.db".to_string()));
    assert_eq!(sqlite_file_path("sqlite::memory:"), None);
    assert_eq!(sqlite_file_path("sqlite:"), None);
    assert_eq!(sqlite_file_path("sqlite:?mode=memory"), None);
    assert_eq!(sqlite_file_path("postgres://x"), None);
}

#[test]
fn storage_url_schemes() {
    assert!(check_storage_url("sqlite::memory:").is_ok());
    match check_storage_url("postgres://u:p@h/db") {
        Err(StorageError::UnsupportedScheme(s)) => assert_eq!(s, "postgres"),
        other => panic!("unexpected {:?}", other),
    }
}

#[test]
fn redaction() {
    assert_eq!(redact_url("postgres://user:pw@host/db"), "postgres://***@host/db");
    assert_eq!(redact_url("postgresql://user:pw@host/db"), "postgresql://***@host/db");
    assert_eq!(redact_url("postgres://host/db"), "postgres://host/db");
    assert_eq!(redact_url("sqlite:cotuong.db"), "sqlite:cotuong.db");
}

#[test]
fn conflicts_map_to_auth_conflicts() {
    assert!(matches!(map_storage_conflict(StorageError::Conflict("email")), AuthError::Conflict("email")));
    assert!(matches!(
        map_storage_conflict(StorageError::Db("x".into())),
        AuthError::Storage(StorageError::Db(_))
    ));
    let from: AuthError = StorageError::Migrate("m".into()).into();
    assert!(matches!(from, AuthError::Storage(StorageError::Migrate(_))));
}

#[test]
fn auth_error_responses() {
    assert_eq!(
        AuthError::InvalidInput { field: "email", reason: "too long" }.response_parts(),
        (400, "invalid_input", "email: too long".to_string())
    );
    assert_eq!(
        AuthError::Conflict("username").response_parts(),
        (409, "conflict", "username already in use".to_string())
    );
    assert_eq!(
        AuthError::InvalidCredentials.response_parts(),
        (401, "invalid_credentials", "invalid credentials".to_string())
    );
    assert_eq!(
        AuthError::NotAuthenticated.response_parts(),
        (401, "not_authenticated", "not authenticated".to_string())
    );
    assert_eq!(AuthError::Internal.response_parts(), (500, "internal", "internal error".to_string()));
    assert_eq!(
        AuthError::Storage(StorageError::Db("x".into())).response_parts(),
        (500, "internal", "internal error".to_string())
    );
}

#[test]
fn signup_checks_in_order() {
    let req = SignupRequest { username: "ab".into(), email: "bad".into(), password: "x".into() };
    match validate_signup(&req) {
        Err(AuthError::InvalidInput { field, .. }) => assert_eq!(field, "username"),
        other => panic!("unexpected {:?}", other),
    }
    let req = SignupRequest { username: "alice".into(), email: "bad".into(), password: "x".into() };
    match validate_signup(&req) {
        Err(AuthError::InvalidInput { field, .. }) => assert_eq!(field, "email"),
        other => panic!("unexpected {:?}", other),
    }
    let req = SignupRequest { username: "alice".into(), email: "a@b.co".into(), password: "x".into() };
    match validate_signup(&req) {
        Err(AuthError::InvalidInput { field, .. }) => assert_eq!(field, "password"),
        other => panic!("unexpected {:?}", other),
    }
    let req = SignupRequest {
        username: "alice".into(),
        email: "a@b.co".into(),
        password: "longenoughpw".into(),
    };
    assert!(validate_signup(&req).is_ok());
}

#[test]
fn login_decisions() {
    let h = cotuong::auth::hash_password("correct horse").unwrap();
    assert!(check_login("correct horse", Some(&h), true, true).is_ok());
    assert!(check_login("correct horse", Some(&h), false, false).is_ok());
    assert!(matches!(check_login("wrong", Some(&h), true, false), Err(AuthError::InvalidCredentials)));
    assert!(matches!(check_login("x", None, true, false), Err(AuthError::InvalidCredentials)));
    match check_login("correct horse", Some(&h), false, true) {
        Err(AuthError::InvalidInput { field, reason }) => {
            assert_eq!(field, "email");
            assert_eq!(reason, "not verified — check your inbox");
        }
        other => panic!("unexpected {:?}", other),
    }
}

#[test]
fn session_cookie_parsing() {
    assert_eq!(COOKIE_NAME, "cotuong_session");
    assert_eq!(SESSION_TTL_SECS, 30 * 24 * 3600);
    assert_eq!(
        session_token_from_header("a=1; cotuong_session=tok123; b=2"),
        Some("tok123".to_string())
    );
    assert_eq!(session_token_from_header("cotuong_session="), None);
    assert_eq!(session_token_from_header("cotuong_session=; cotuong_session=x"), Some("x".to_string()));
    assert_eq!(session_token_from_header("xcotuong_session=1"), None);
    assert_eq!(session_token_from_header(""), None);
    assert_eq!(session_token_from_header("cotuong_session=a=b"), Some("a=b".to_string()));
}

#[test]
fn config_flags() {
    assert!(flag_enabled("1"));
    assert!(flag_enabled("true"));
    assert!(flag_enabled("yes"));
    assert!(!flag_enabled("TRUE"));
    assert!(!flag_enabled(""));
    let cfg = AuthConfig::from_vars(Some("yes"), None, Some("0"));
    assert!(cfg.cookie_secure);
    assert!(!cfg.require_email_verification);
    assert_eq!(cfg.public_base_url, "http://127.0.0.1:8000");
    let cfg = AuthConfig::from_vars(None, Some("https://x.org".into()), Some("1"));
    assert!(!cfg.cookie_secure);
    assert!(cfg.require_email_verification);
    assert_eq!(cfg.public_base_url, "https://x.org");
}

#[test]
fn unsigned_parsing() {
    assert_eq!(parse_unsigned("587", 65535), Some(587));
    assert_eq!(parse_unsigned("+25", 65535), Some(25));
    assert_eq!(parse_unsigned("65536", 65535), None);
    assert_eq!(parse_unsigned("", 65535), None);
    assert_eq!(parse_unsigned("+", 65535), None);
    assert_eq!(parse_unsigned("-1", 65535), None);
    assert_eq!(parse_unsigned("12a", 65535), None);
    assert_eq!(parse_unsigned("18446744073709551615", u64::MAX), Some(u64::MAX));
    assert_eq!(parse_unsigned("18446744073709551616", u64::MAX), None);
    assert_eq!(smtp_port(Some("2525")), 2525);
    assert_eq!(smtp_port(Some("nope")), 587);
    assert_eq!(smtp_port(None), 587);
    assert_eq!(interval_secs(Some("60")), 60);
    assert_eq!(interval_secs(None), 3600);
    for s in ["0", "7", "+9", "00012", "99999", "x", " 1"] {
        assert_eq!(parse_unsigned(s, 65535), s.parse::<u16>().ok().map(u64::from));
    }
}

#[test]
fn mail_links_and_bodies() {
    assert_eq!(verify_link("https://x.org/", "T"), "https://x.org/auth/verify/T");
    assert_eq!(
        reset_link("https://x.org", "T"),
        "https://x.org/auth/password-reset/confirm?token=T"
    );
    assert!(verify_body("bob", "U").starts_with("Welcome to cờ tướng, bob!"));
    assert!(reset_body("U").contains("\nU\n"));
}

#[test]
fn backup_names() {
    assert_eq!(snapshot_name(Some("cotuong"), "20240101T000000Z"), "cotuong-20240101T000000Z.db");
    assert_eq!(snapshot_name(None, "S"), "cotuong-S.db");
    assert_eq!(object_key("backups//", "a.db"), "backups/a.db");
    assert_eq!(sql_quote("/tmp/it's.db"), "/tmp/it''s.db");
}

#[test]
fn hub_helpers() {
    assert_eq!(color_idx(Color::Red), 0);
    assert_eq!(color_idx(Color::Black), 1);
    assert_eq!(color_str(Color::Black), "black");
    assert_eq!(turn_byte(Color::Black), 1);
    assert_eq!(seat_for_join(false, false), Some(Color::Red));
    assert_eq!(seat_for_join(true, false), Some(Color::Black));
    assert_eq!(seat_for_join(true, true), None);
    assert_eq!(move_error_reason(&MoveError::Illegal), "illegal move");
    assert_eq!(move_error_reason(&MoveError::NotYourTurn), "not your turn");
    assert_eq!(move_error_reason(&MoveError::GameFinished), "game finished");
    let code = random_code();
    assert_eq!(code.chars().count(), 6);
    assert!(code.chars().all(|c| ROOM_CODE_CHARS.contains(c)));
}

#[test]
fn seats_and_results() {
    let s = seat_of(Some("alice".to_string()), Some("ignored".to_string()));
    assert_eq!((s.name.as_str(), s.kind), ("alice", "user"));
    let s = seat_of(None, Some("bob".to_string()));
    assert_eq!((s.name.as_str(), s.kind), ("bob", "guest"));
    let s = seat_of(None, Some(String::new()));
    assert_eq!((s.name.as_str(), s.kind), ("Guest", "guest"));
    let s = seat_of(None, None);
    assert_eq!((s.name.as_str(), s.kind), ("Guest", "guest"));
    assert_eq!(result_for_winner(Color::Red), GameResult::RedWins);
    assert_eq!(result_for_winner(Color::Black), GameResult::BlackWins);
}

#[test]
fn room_status_reports() {
    let mut r = GameRoom::new();
    assert_eq!(current_status(&mut r), ("playing", false));
    r.resign(Color::Red);
    assert_eq!(current_status(&mut r), ("playing", false));
}

#[test]
fn session_actions() {
    let none: Option<(String, Color)> = None;
    let some = Some(("ABCDEF".to_string(), Color::Black));
    assert!(matches!(session_action(&none, ClientMsg::Create { name: None }), SessionAction::CreateRoom));
    assert!(matches!(
        session_action(&some, ClientMsg::Create { name: None }),
        SessionAction::Reply("already in a room")
    ));
    match session_action(&none, ClientMsg::Join { room: "abcdef".into(), name: None }) {
        SessionAction::JoinRoom(c) => assert_eq!(c, "ABCDEF"),
        other => panic!("unexpected {:?}", other),
    }
    match session_action(&some, ClientMsg::Move { from: 3, to: 4 }) {
        SessionAction::PlayMove { room, color, from, to } => {
            assert_eq!((room.as_str(), color, from, to), ("ABCDEF", Color::Black, 3, 4))
        }
        other => panic!("unexpected {:?}", other),
    }
    assert!(matches!(
        session_action(&none, ClientMsg::Move { from: 3, to: 4 }),
        SessionAction::Reply("not in a room")
    ));
    assert!(matches!(session_action(&none, ClientMsg::Resign), SessionAction::Ignore));
    assert!(matches!(session_action(&some, ClientMsg::Resign), SessionAction::Resign { .. }));
    assert!(matches!(session_action(&none, ClientMsg::Ping), SessionAction::Pong));
}

#[test]
fn joining_seats() {
    assert_eq!(join_step(false, [true, false], Color::Black, true, true), (JoinStep::RoomNotFound, [true, false]));
    assert_eq!(join_step(true, [true, false], Color::Red, false, true), (JoinStep::SeatTaken, [true, false]));
    assert_eq!(
        join_step(true, [true, false], Color::Black, true, true),
        (JoinStep::Seated { notify_other: true, record_black: true }, [true, true])
    );
    assert_eq!(
        join_step(true, [false, false], Color::Red, true, true),
        (JoinStep::Seated { notify_other: false, record_black: false }, [true, false])
    );
    assert_eq!(
        join_step(true, [true, false], Color::Black, false, true),
        (JoinStep::Seated { notify_other: true, record_black: false }, [true, true])
    );
}

#[test]
fn rooms_dropped_when_both_leave() {
    let first = leave_step([true, true], Color::Red, false, true);
    assert_eq!(first.seats, [false, true]);
    assert!(!first.drop_room && !first.record_abandoned);
    let second = leave_step(first.seats, Color::Black, false, true);
    assert_eq!(second.seats, [false, false]);
    assert!(second.drop_room && second.record_abandoned);
    let finished = leave_step([false, true], Color::Black, true, true);
    assert!(finished.drop_room && !finished.record_abandoned);
    let unsaved = leave_step([true, false], Color::Red, false, false);
    assert!(unsaved.drop_room && !unsaved.record_abandoned);
}

#[test]
fn conflict_fields() {
    assert_eq!(conflict_field(true, true), "username");
    assert_eq!(conflict_field(false, true), "email");
    assert_eq!(conflict_field(false, false), "user");
}

#[test]
fn cookie_pairs_are_trimmed_of_unicode_space() {
    assert_eq!(
        session_token_from_header("a=1;\t\u{3000}cotuong_session=tok\u{a0} ; b=2").as_deref(),
        Some("tok")
    );
}
