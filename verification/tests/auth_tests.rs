use spark_core::auth::AuthService;
use spark_core::error::AuthError;
use spark_core::store::Database;
use spark_core::users::CreateUserRequest;
use spark_core::users::LoginRequest;
use spark_core::users::parse_presence;
use spark_core::users::Presence;
use spark_core::SESSION_TTL_SECONDS;

fn register_req(username: &str, email: &str, password: &str) -> CreateUserRequest {
    CreateUserRequest {
        username: username.to_string(),
        email: email.to_string(),
        password: password.to_string(),
    }
}

#[test]
fn test_password_hashing() {
    // The digest round trip is observed through the public surface: a
    // registered password logs in, a wrong one does not.
    let db = Database::in_memory();
    let mut auth = AuthService::new(db);

    let password = "test_password_123";
    auth.register(register_req("testuser", "testemail@test.com", password), 1_000)
        .unwrap();

    let good = auth.login(
        LoginRequest { username: "testuser".to_string(), password: password.to_string() },
        1_001,
    );
    assert!(good.is_ok());

    let bad = auth.login(
        LoginRequest {
            username: "testuser".to_string(),
            password: "bad_password_321".to_string(),
        },
        1_002,
    );
    assert!(bad.is_err());
}

#[test]
fn test_register_and_login() {
    let db = Database::in_memory();
    let mut auth = AuthService::new(db);

    let register_response = auth
        .register(register_req("testuser", "testemail@test.com", "test_password_123"), 1_000)
        .unwrap();
    assert_eq!(register_response.user.username, "testuser");
    assert!(!register_response.token.is_empty());

    let login_response = auth
        .login(
            LoginRequest {
                username: "testuser".to_string(),
                password: "test_password_123".to_string(),
            },
            1_001,
        )
        .unwrap();
    assert_eq!(login_response.user.username, "testuser");
    assert!(!login_response.token.is_empty());
}

#[test]
fn test_session_validation() {
    let db = Database::in_memory();
    let mut auth = AuthService::new(db);

    let response = auth
        .register(register_req("testuser", "test_eamail@test.com", "test_password_123"), 1_000)
        .unwrap();
    let user = auth.validate_session(&response.token, 1_001).unwrap();

    assert_eq!(user.username, "testuser");
    auth.logout(&response.token).unwrap();

    assert!(auth.validate_session(&response.token, 1_002).is_err());
}

#[test]
fn test_register_token_is_64_alphanumeric() {
    let db = Database::in_memory();
    let mut auth = AuthService::new(db);
    let resp = auth
        .register(register_req("alice", "alice@x.com", "password123"), 1_000)
        .unwrap();
    assert_eq!(resp.token.len(), 64);
    assert!(resp.token.chars().all(|c| c.is_ascii_alphanumeric()));
}

#[test]
fn test_register_validation_errors() {
    let db = Database::in_memory();
    let mut auth = AuthService::new(db);

    let short_name = auth.register(register_req("ab", "a@b.com", "password123"), 1_000);
    assert!(matches!(short_name, Err(AuthError::InvalidInput(_))));

    let long_name: String = std::iter::repeat('x').take(51).collect();
    let too_long = auth.register(register_req(&long_name, "a@b.com", "password123"), 1_000);
    assert!(matches!(too_long, Err(AuthError::InvalidInput(_))));

    let bad_email = auth.register(register_req("alice", "nope", "password123"), 1_000);
    assert!(matches!(bad_email, Err(AuthError::InvalidInput(_))));

    let short_password = auth.register(register_req("alice", "alice@x.com", "short"), 1_000);
    assert!(matches!(short_password, Err(AuthError::InvalidInput(_))));
}

#[test]
fn test_duplicate_registration_and_wrong_password() {
    // Registering "alice" twice fails the second time with a user-exists
    // error; a wrong-password login fails and issues no session.
    let db = Database::in_memory();
    let mut auth = AuthService::new(db);

    auth.register(register_req("alice", "alice@x.com", "password123"), 1_000)
        .unwrap();
    let second = auth.register(register_req("alice", "other@x.com", "password456"), 1_001);
    assert!(matches!(second, Err(AuthError::UserExists)));

    let sessions_before = auth.db.sessions.len();
    let login = auth.login(
        LoginRequest { username: "alice".to_string(), password: "wrong_password".to_string() },
        1_002,
    );
    assert!(matches!(login, Err(AuthError::InvalidCredentials)));
    assert_eq!(auth.db.sessions.len(), sessions_before);

    let unknown = auth.login(
        LoginRequest { username: "nobody".to_string(), password: "password123".to_string() },
        1_003,
    );
    assert!(matches!(unknown, Err(AuthError::InvalidCredentials)));
    assert_eq!(auth.db.sessions.len(), sessions_before);
}

#[test]
fn test_expired_session_is_deleted_and_stays_invalid() {
    // A session is valid before its expiry; validating it after expiry
    // fails, deletes the session, and a second validation fails too.
    let db = Database::in_memory();
    let mut auth = AuthService::new(db);

    let resp = auth
        .register(register_req("alice", "alice@x.com", "password123"), 1_000)
        .unwrap();
    let expiry = 1_000 + SESSION_TTL_SECONDS;

    assert!(auth.validate_session(&resp.token, expiry - 1).is_ok());

    // the expiry instant itself is no longer valid
    let expired = auth.validate_session(&resp.token, expiry);
    assert!(matches!(expired, Err(AuthError::InvalidSession)));
    assert!(auth.db.sessions.is_empty());

    let again = auth.validate_session(&resp.token, expiry - 1);
    assert!(matches!(again, Err(AuthError::InvalidSession)));
}

#[test]
fn test_cleanup_expired_sessions() {
    let mut db = Database::in_memory();
    let alice = db.create_user("alice", "alice@x.com", "digest", 10).unwrap();
    db.create_session(alice.id, "token-early", 100, 10);
    db.create_session(alice.id, "token-late", 900, 10);
    let mut auth = AuthService::new(db);
    auth.cleanup_expired_sessions(500).unwrap();
    assert_eq!(auth.db.sessions.len(), 1);
    assert_eq!(auth.db.sessions[0].token, "token-late");
}

#[test]
fn test_logout_is_idempotent() {
    let db = Database::in_memory();
    let mut auth = AuthService::new(db);
    auth.logout("no-such-token").unwrap();
    auth.logout("no-such-token").unwrap();
}

#[test]
fn test_parse_presence_labels() {
    assert_eq!(parse_presence("Online"), Presence::Online);
    assert_eq!(parse_presence("Offline"), Presence::Offline);
    assert_eq!(parse_presence("Away"), Presence::Away);
    assert_eq!(parse_presence("DND"), Presence::DoNotDisturb);
    assert_eq!(parse_presence("AppearOffline"), Presence::AppearOffline);
    assert_eq!(parse_presence("anything-else"), Presence::Offline);
}
