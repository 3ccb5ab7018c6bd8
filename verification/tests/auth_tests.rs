//! Tests of tokens and the credential flows, run against the real hashing
//! and signing libraries.

use compute_deai::auth::{
    is_valid_account_id, login_user, near_wallet_login, parse_message_timestamp, register_user,
    verify_api_key_claims,
};
use compute_deai::errors::ErrorKind;
use compute_deai::models::{CreateUserRequest, NearWalletLoginRequest, User};
use compute_deai::token::{create_jwt_token, verify_jwt_token, Claims};

const SECRET: &str = "0123456789abcdef0123456789abcdef";

fn test_user() -> User {
    User {
        id: 42,
        near_account_id: Some("alice.testnet".to_string()),
        email: None,
        username: "alice".to_string(),
        password_hash: None,
        is_active: true,
        is_admin: false,
        created_at: 0,
        updated_at: 0,
        last_login_at: None,
    }
}

#[test]
fn test_jwt_round_trip() {
    // verify(create(claims)) yields the claims while they are unexpired
    let user = test_user();
    let now: u64 = 1_700_000_000;
    let token = create_jwt_token(&user, SECRET, "access", now).unwrap();

    let claims: Claims = verify_jwt_token(&token, SECRET, now + 10).unwrap();
    assert_eq!(claims.sub, "42");
    assert_eq!(claims.username, "alice");
    assert_eq!(claims.account_id.as_deref(), Some("alice.testnet"));
    assert_eq!(claims.iat, now);
    assert_eq!(claims.exp, now + 3600);
    assert_eq!(claims.token_type, "access");
}

#[test]
fn test_jwt_rejects_after_expiry() {
    let user = test_user();
    let now: u64 = 1_700_000_000;
    let token = create_jwt_token(&user, SECRET, "access", now).unwrap();

    // just before expiry: accepted; at and after expiry: refused
    assert!(verify_jwt_token(&token, SECRET, now + 3599).is_ok());
    assert!(matches!(
        verify_jwt_token(&token, SECRET, now + 3600),
        Err(ErrorKind::Unauthorized)
    ));
    assert!(matches!(
        verify_jwt_token(&token, SECRET, now + 7200),
        Err(ErrorKind::Unauthorized)
    ));
}

#[test]
fn test_jwt_rejects_wrong_key_and_tampering() {
    let user = test_user();
    let now: u64 = 1_700_000_000;
    let token = create_jwt_token(&user, SECRET, "access", now).unwrap();

    assert!(verify_jwt_token(&token, "another-secret-another-secret-xx", now).is_err());

    let mut tampered = token.clone();
    tampered.push('x');
    assert!(verify_jwt_token(&tampered, SECRET, now).is_err());

    assert!(verify_jwt_token("not-a-token", SECRET, now).is_err());
}

#[test]
fn test_jwt_interoperates_with_signing_library() {
    // a token this library mints passes the signing library's own decoder
    let user = test_user();
    let now: u64 = 1_700_000_000;
    let token = create_jwt_token(&user, SECRET, "access", now).unwrap();

    let mut validation = jsonwebtoken::Validation::new(jsonwebtoken::Algorithm::HS256);
    validation.validate_exp = false;
    validation.required_spec_claims.clear();
    let decoded = jsonwebtoken::decode::<serde_json::Value>(
        &token,
        &jsonwebtoken::DecodingKey::from_secret(SECRET.as_bytes()),
        &validation,
    )
    .expect("token must carry a valid HS256 signature");
    assert_eq!(decoded.claims["sub"], "42");
    assert_eq!(decoded.claims["username"], "alice");
    assert_eq!(decoded.claims["exp"], serde_json::Value::from(now + 3600));
    assert_eq!(decoded.claims["token_type"], "access");
}

#[test]
fn test_api_key_token_type() {
    let user = test_user();
    let now: u64 = 1_700_000_000;

    let api_key_token = create_jwt_token(&user, SECRET, "api_key", now).unwrap();
    let claims = verify_api_key_claims(&api_key_token, SECRET, now).unwrap();
    assert_eq!(claims.token_type, "api_key");
    // API-key tokens live thirty days
    assert_eq!(claims.exp, now + 720 * 3600);

    // an access token is not accepted where an API key is required
    let access_token = create_jwt_token(&user, SECRET, "access", now).unwrap();
    assert!(matches!(
        verify_api_key_claims(&access_token, SECRET, now),
        Err(ErrorKind::Unauthorized)
    ));
}

#[test]
fn test_register_and_login() {
    let now: u64 = 1_700_000_000;
    let request = CreateUserRequest {
        username: "carol".to_string(),
        email: Some("carol@example.com".to_string()),
        password: "correct horse".to_string(),
        near_account_id: None,
    };

    let (user, resp) = register_user(&request, false, false, 7, now, SECRET).unwrap();
    assert_eq!(user.username, "carol");
    assert!(user.is_active);
    assert!(!user.is_admin);
    assert_eq!(resp.token_type, "Bearer");
    assert_eq!(resp.expires_in, 3600);
    assert!(verify_jwt_token(&resp.access_token, SECRET, now).is_ok());

    // the stored hash verifies the password it was created from, no other
    let (logged_in, _) = login_user(Some(user.clone()), "correct horse", now + 5, SECRET).unwrap();
    assert_eq!(logged_in.last_login_at, Some(now + 5));
    assert!(matches!(
        login_user(Some(user.clone()), "wrong horse", now, SECRET),
        Err(ErrorKind::Unauthorized)
    ));
    assert!(matches!(
        login_user(None, "correct horse", now, SECRET),
        Err(ErrorKind::Unauthorized)
    ));
}

#[test]
fn test_register_conflicts() {
    let now: u64 = 1_700_000_000;
    let request = CreateUserRequest {
        username: "carol".to_string(),
        email: None,
        password: "longenough".to_string(),
        near_account_id: Some("carol.testnet".to_string()),
    };
    assert!(matches!(
        register_user(&request, true, false, 7, now, SECRET),
        Err(ErrorKind::Conflict)
    ));
    assert!(matches!(
        register_user(&request, false, true, 7, now, SECRET),
        Err(ErrorKind::Conflict)
    ));
    let short = CreateUserRequest {
        username: "cb".to_string(),
        email: None,
        password: "longenough".to_string(),
        near_account_id: None,
    };
    assert!(matches!(
        register_user(&short, false, false, 7, now, SECRET),
        Err(ErrorKind::BadRequest)
    ));
}

#[test]
fn test_message_timestamp_freshness_bounds() {
    assert_eq!(
        parse_message_timestamp("login to deai|1700000000"),
        Some(1_700_000_000)
    );
    assert_eq!(parse_message_timestamp("no separator"), None);
    assert_eq!(parse_message_timestamp("too|many|separators"), None);
    assert_eq!(parse_message_timestamp("x|not-a-number"), None);
}

#[test]
fn test_create_and_verify_user_api_key() {
    let user = test_user();
    let now: u64 = 1_700_000_000;

    let (key, token) =
        compute_deai::auth::create_user_api_key(&user, "ci".to_string(), Some(2), 9, now, SECRET)
            .unwrap();
    assert_eq!(key.user_id, user.id);
    assert_eq!(key.expires_at, Some(now + 2 * 86400));
    assert_eq!(key.key_hash, token);
    assert!(key.is_active);

    let claims = verify_api_key_claims(&token, SECRET, now + 100).unwrap();
    let (u, k) = compute_deai::auth::verify_user_api_key(
        &claims,
        Some(user.clone()),
        Some(key),
        now + 100,
    )
    .unwrap();
    assert_eq!(u.id, user.id);
    assert_eq!(k.id, 9);

    // a negative expiry is refused
    assert!(matches!(
        compute_deai::auth::create_user_api_key(&user, "ci".to_string(), Some(-1), 9, now, SECRET),
        Err(ErrorKind::BadRequest)
    ));
}

#[test]
fn test_login_with_corrupt_hash_is_internal() {
    let mut user = test_user();
    user.password_hash = Some("not a bcrypt hash".to_string());
    assert!(matches!(
        login_user(Some(user), "anything", 0, SECRET),
        Err(ErrorKind::Internal)
    ));
}

#[test]
fn test_login_inactive_user_refused() {
    let mut user = test_user();
    user.is_active = false;
    user.password_hash = Some("irrelevant".to_string());
    assert!(matches!(
        login_user(Some(user), "anything", 0, SECRET),
        Err(ErrorKind::Unauthorized)
    ));
}

#[test]
fn test_account_id_grammar() {
    assert!(is_valid_account_id("alice.testnet"));
    assert!(is_valid_account_id("a0"));
    assert!(is_valid_account_id("ok-name_0.near"));
    assert!(!is_valid_account_id(""));
    assert!(!is_valid_account_id("a"));
    assert!(!is_valid_account_id("Alice.testnet"));
    assert!(!is_valid_account_id(".alice"));
    assert!(!is_valid_account_id("alice."));
    assert!(!is_valid_account_id("al..ice"));
    assert!(!is_valid_account_id("has space"));
    assert!(!is_valid_account_id(&"a".repeat(65)));
    assert!(is_valid_account_id(&"a".repeat(64)));
}

#[test]
fn test_register_rejects_malformed_account_id() {
    let now: u64 = 1_700_000_000;
    let request = CreateUserRequest {
        username: "carol".to_string(),
        email: None,
        password: "longenough".to_string(),
        near_account_id: Some("Not A Valid Account".to_string()),
    };
    assert!(matches!(
        register_user(&request, false, false, 7, now, SECRET),
        Err(ErrorKind::BadRequest)
    ));
}

#[test]
fn test_near_wallet_login_round_trip() {
    let sk = near_crypto::SecretKey::from_random(near_crypto::KeyType::ED25519);
    let now: u64 = 1_700_000_000;
    let message = format!("login to deai|{}", now);
    let request = NearWalletLoginRequest {
        account_id: "alice.testnet".to_string(),
        public_key: sk.public_key().to_string(),
        signature: sk.sign(message.as_bytes()).to_string(),
        message: message.clone(),
    };

    // a fresh user is provisioned under the mapped name
    let (user, resp, created) =
        near_wallet_login(&request, None, 7, now + 10, SECRET).unwrap();
    assert!(created);
    assert_eq!(user.username, "near_alice_testnet");
    assert_eq!(user.near_account_id.as_deref(), Some("alice.testnet"));
    assert_eq!(resp.token_type, "Bearer");

    // a stale message is refused
    assert!(matches!(
        near_wallet_login(&request, None, 7, now + 301, SECRET),
        Err(ErrorKind::Unauthorized)
    ));

    // a signature over different bytes is refused
    let tampered = NearWalletLoginRequest {
        message: format!("something else|{}", now),
        account_id: request.account_id.clone(),
        public_key: request.public_key.clone(),
        signature: request.signature.clone(),
    };
    assert!(matches!(
        near_wallet_login(&tampered, None, 7, now, SECRET),
        Err(ErrorKind::Unauthorized)
    ));

    // an unparsable key is a bad request
    let bad_key = NearWalletLoginRequest {
        public_key: "not a key".to_string(),
        account_id: request.account_id.clone(),
        signature: request.signature.clone(),
        message: message.clone(),
    };
    assert!(matches!(
        near_wallet_login(&bad_key, None, 7, now, SECRET),
        Err(ErrorKind::BadRequest)
    ));

    // a malformed account id is a bad request
    let bad_account = NearWalletLoginRequest {
        account_id: "Bad Account".to_string(),
        public_key: request.public_key.clone(),
        signature: request.signature.clone(),
        message: message.clone(),
    };
    assert!(matches!(
        near_wallet_login(&bad_account, None, 7, now, SECRET),
        Err(ErrorKind::BadRequest)
    ));

    // a known but inactive user may not log in
    let (mut existing, _, _) = near_wallet_login(&request, None, 7, now, SECRET).unwrap();
    existing.is_active = false;
    assert!(matches!(
        near_wallet_login(&request, Some(existing), 8, now, SECRET),
        Err(ErrorKind::Forbidden)
    ));
}

#[test]
fn test_login_wallet_only_account_is_unauthorized() {
    // a user without a stored hash: the refusal does not reveal that
    let user = test_user();
    assert!(user.password_hash.is_none());
    assert!(matches!(
        login_user(Some(user), "anything", 0, SECRET),
        Err(ErrorKind::Unauthorized)
    ));
}
