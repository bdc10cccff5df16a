use argon2::{Argon2, PasswordHasher};
use literm::auth::{
    auth_status_json, clear_session_cookie, login_decision, login_failure_error, ok_true_json,
    session_cookie, session_id_from_cookie_header, LoginOutcome,
};
use literm::errors::AppError;

fn test_hash(password: &[u8]) -> String {
    Argon2::default()
        .hash_password_with_salt(password, b"testsalt12345678")
        .unwrap()
        .to_string()
}

#[test]
fn correct_password_succeeds_and_wrong_password_is_unauthorized() {
    let hash = test_hash(b"hunter2");
    assert!(matches!(login_decision(hash.as_str(), "hunter2"), LoginOutcome::Success));
    let wrong = login_decision(hash.as_str(), "hunter3");
    assert!(matches!(wrong, LoginOutcome::WrongPassword));
    match login_failure_error(&wrong) {
        Some(AppError::Unauthorized) => {}
        _ => panic!("expected unauthorized"),
    }
    assert!(login_failure_error(&LoginOutcome::Success).is_none());
}

#[test]
fn wrong_password_renders_as_401() {
    let hash = test_hash(b"hunter2");
    let outcome = login_decision(hash.as_str(), "nope");
    let err = login_failure_error(&outcome).unwrap();
    let (status, body) = err.response_parts();
    assert_eq!(status, 401);
    assert_eq!(body, "{\"error\":\"unauthorized\"}");
}

#[test]
fn malformed_hash_is_an_internal_error() {
    let outcome = login_decision("not a phc string", "whatever");
    assert!(matches!(outcome, LoginOutcome::InvalidHash));
    match login_failure_error(&outcome) {
        Some(AppError::Internal(m)) => assert_eq!(m, "invalid password hash"),
        _ => panic!("expected an internal error"),
    }
}

#[test]
fn session_cookie_has_the_exact_shape() {
    assert_eq!(
        session_cookie("00112233445566778899aabbccddeeff", 1800),
        "session=00112233445566778899aabbccddeeff; Path=/; HttpOnly; SameSite=Strict; Max-Age=1800"
    );
    assert_eq!(
        clear_session_cookie(),
        "session=; Path=/; HttpOnly; SameSite=Strict; Max-Age=0"
    );
}

#[test]
fn response_bodies_are_exact() {
    assert_eq!(ok_true_json(), "{\"ok\":true}");
    assert_eq!(auth_status_json(true), "{\"authenticated\":true}");
    assert_eq!(auth_status_json(false), "{\"authenticated\":false}");
}

#[test]
fn session_token_is_found_among_cookies() {
    assert_eq!(session_id_from_cookie_header("session=abc").unwrap(), "abc");
    assert_eq!(
        session_id_from_cookie_header("theme=dark; session=deadbeef; lang=en").unwrap(),
        "deadbeef"
    );
    assert_eq!(session_id_from_cookie_header(" session = xyz ").unwrap(), "xyz");
}

#[test]
fn cookie_pieces_without_exactly_one_equals_are_skipped() {
    // A value holding a second `=` splits into three parts and is skipped.
    assert!(session_id_from_cookie_header("session=a=b").is_none());
    assert!(session_id_from_cookie_header("session").is_none());
    assert!(session_id_from_cookie_header("").is_none());
    assert!(session_id_from_cookie_header("theme=dark; lang=en").is_none());
    // The first matching cookie wins.
    assert_eq!(session_id_from_cookie_header("session=first; session=second").unwrap(), "first");
}
