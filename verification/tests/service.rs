use brigid::api::{
    admit_authenticated, uuid_to_string, AuthenticatedClaims,
    authenticate_bearer, bearer_token, BeginLoginRequest, BeginRegisterRequest, did_server_component, find_credential,
    issuer_from_base_url, login_identity, login_token, rate_limit_key, registration_identity,
    registration_store_error, reject_existing_user, ApiError, AppSessions, PendingAuthentication,
    PendingRegistration, TOKEN_TTL_SECS,
};
use brigid::jti::JtiStore;
use brigid::passkey::{counter_advanced, credential_id_from_json, require_credentials, PasskeyError};
use brigid::session::{PendingTable, PENDING_SESSION_TTL_MS};
use brigid::signing_key::OidcSigningKey;
use brigid::store::{
    check_credential_owner, classify_insert_error, update_outcome, username_index_input,
    StoreError,
};
use brigid::token::decode_token;
use brigid::vsid::compute_vsid;

// ---- pending ceremony sessions ----

fn registration(user: u128) -> PendingRegistration<&'static str> {
    PendingRegistration {
        user_id: user,
        username: "alice".to_string(),
        server: "example.com".to_string(),
        state: "reg-state",
    }
}

#[test]
fn registration_session_is_single_use() {
    let mut s: AppSessions<&str, &str> = AppSessions::new();
    s.begin_registration(1_000, 7, registration(42));
    let p = s.finish_registration(2_000, 7).unwrap();
    assert_eq!(p.user_id, 42);
    assert_eq!(p.state, "reg-state");
    match s.finish_registration(2_000, 7) {
        Err(ApiError::BadRequest(m)) => assert_eq!(m, "unknown session"),
        _ => panic!("second finish must be refused"),
    }
}

#[test]
fn expired_registration_session_is_refused_and_consumed() {
    let mut s: AppSessions<&str, &str> = AppSessions::new();
    s.begin_registration(1_000, 7, registration(1));
    match s.finish_registration(1_000 + PENDING_SESSION_TTL_MS + 1, 7) {
        Err(ApiError::BadRequest(m)) => assert_eq!(m, "session expired"),
        _ => panic!("expired session must be refused"),
    }
    assert!(matches!(
        s.finish_registration(1_000, 7),
        Err(ApiError::BadRequest(_))
    ));
}

#[test]
fn session_at_exact_ttl_is_still_usable() {
    let mut s: AppSessions<&str, &str> = AppSessions::new();
    s.begin_authentication(
        0,
        9,
        PendingAuthentication { user_id: 5, client_id: "rp".to_string(), state: "auth" },
    );
    let p = s.finish_authentication(PENDING_SESSION_TTL_MS, 9).unwrap();
    assert_eq!(p.client_id, "rp");
    assert_eq!(p.user_id, 5);
}

#[test]
fn beginning_a_ceremony_evicts_expired_ones() {
    let mut s: AppSessions<&str, &str> = AppSessions::new();
    s.begin_registration(0, 1, registration(1));
    s.begin_registration(PENDING_SESSION_TTL_MS, 2, registration(2));
    // Session 1 is exactly TTL old at the second begin, and is evicted.
    assert!(s.finish_registration(PENDING_SESSION_TTL_MS, 1).is_err());
    assert!(s.finish_registration(PENDING_SESSION_TTL_MS, 2).is_ok());
}

#[test]
fn pending_table_basic_operations() {
    let mut t: PendingTable<u8> = PendingTable::new();
    assert_eq!(t.len(), 0);
    t.insert(1, 10, 11);
    t.insert(2, 20, 22);
    t.insert(1, 30, 33);
    assert_eq!(t.len(), 2);
    assert_eq!(t.take(1), Some((30, 33)));
    assert_eq!(t.take(1), None);
    t.evict_expired(20 + PENDING_SESSION_TTL_MS);
    assert_eq!(t.take(2), None);
}

// ---- API errors and request handling ----

#[test]
fn api_error_status_and_body() {
    assert_eq!(ApiError::Internal("db down".into()).status_code(), 500);
    assert_eq!(ApiError::Internal("db down".into()).body_message(), "internal server error");
    assert_eq!(ApiError::NotFound.status_code(), 404);
    assert_eq!(ApiError::BadRequest("x".into()).status_code(), 400);
    assert_eq!(ApiError::BadRequest("x".into()).body_message(), "x");
    assert_eq!(ApiError::Conflict("c".into()).status_code(), 409);
    assert_eq!(ApiError::Unauthorized.status_code(), 401);
    assert_eq!(ApiError::Forbidden.status_code(), 403);
    assert_eq!(ApiError::TooManyRequests.status_code(), 429);
    assert_eq!(ApiError::ServiceUnavailable.status_code(), 503);
    assert_eq!(ApiError::ServiceUnavailable.body_message(), "service unavailable");
    assert_eq!(ApiError::BadRequest("x".into()).to_string(), "bad request: x");
    assert_eq!(ApiError::Conflict("y".into()).to_string(), "conflict: y");
    assert_eq!(ApiError::NotFound.to_string(), "not found");
}

#[test]
fn registration_identity_validates_username() {
    let reg = |u: &str| BeginRegisterRequest { username: u.to_string() };
    let id = registration_identity(&reg("alice@Example.COM")).unwrap();
    assert_eq!(id.username, "alice");
    assert_eq!(id.server, "example.com");
    match registration_identity(&reg("no-at-sign")) {
        Err(ApiError::BadRequest(m)) => {
            assert_eq!(m, "invalid identifier: missing '@' in 'no-at-sign'")
        }
        _ => panic!("must be a bad request"),
    }
}

#[test]
fn existing_user_is_a_conflict() {
    assert!(reject_existing_user("alice@example.com", false).is_ok());
    match reject_existing_user("alice@example.com", true) {
        Err(ApiError::Conflict(m)) => assert_eq!(m, "user alice@example.com already exists"),
        _ => panic!("must be a conflict"),
    }
    match registration_store_error(StoreError::Duplicate, "alice") {
        ApiError::Conflict(m) => assert_eq!(m, "user alice already exists"),
        _ => panic!("duplicate must be a conflict"),
    }
    assert!(matches!(
        registration_store_error(StoreError::NotFound, "alice"),
        ApiError::Internal(_)
    ));
}

#[test]
fn login_identity_requires_client_id() {
    let login = |u: &str, c: &str| BeginLoginRequest {
        username: u.to_string(),
        client_id: c.to_string(),
    };
    assert!(login_identity(&login("alice@example.com", "rp")).is_ok());
    match login_identity(&login("alice@example.com", "")) {
        Err(ApiError::BadRequest(m)) => assert_eq!(m, "client_id is required"),
        _ => panic!("missing client_id must be refused"),
    }
    match login_identity(&login("bad", "")) {
        Err(ApiError::BadRequest(m)) => assert_eq!(m, "invalid identifier: missing '@' in 'bad'"),
        _ => panic!("bad username must be refused first"),
    }
}

#[test]
fn credential_lookup_finds_first_match() {
    let ids = vec!["a".to_string(), "b".to_string(), "b".to_string()];
    assert_eq!(find_credential(&ids, "b"), Some(1));
    assert_eq!(find_credential(&ids, "c"), None);
}

#[test]
fn bearer_and_issuer_helpers() {
    assert_eq!(bearer_token(Some("Bearer abc.def")), Some("abc.def".to_string()));
    assert_eq!(bearer_token(Some("bearer abc")), None);
    assert_eq!(bearer_token(Some("Basic abc")), None);
    assert_eq!(bearer_token(None), None);
    assert_eq!(bearer_token(Some("Bearer ")), Some(String::new()));
    assert_eq!(issuer_from_base_url("https://example.com/"), "https://example.com");
    assert_eq!(issuer_from_base_url("https://example.com"), "https://example.com");
}

#[test]
fn rate_limit_keys() {
    assert_eq!(rate_limit_key(true, Some(" 1.2.3.4 , 5.6.7.8"), Some("9.9.9.9")), "1.2.3.4");
    assert_eq!(rate_limit_key(false, Some("1.2.3.4"), Some("9.9.9.9")), "9.9.9.9");
    assert_eq!(rate_limit_key(true, Some("  ,1.2.3.4"), Some("9.9.9.9")), "9.9.9.9");
    assert_eq!(rate_limit_key(true, None, None), "0.0.0.0");
}

#[test]
fn did_server_with_and_without_port() {
    assert_eq!(did_server_component("example.com", None), "example.com");
    assert_eq!(did_server_component("localhost", Some(8080)), "localhost%3A8080");
}

#[test]
fn login_token_carries_vsid_and_issuer() {
    let key = OidcSigningKey::generate();
    let salt = [3u8; 32];
    let now = std::time::SystemTime::now()
        .duration_since(std::time::UNIX_EPOCH)
        .unwrap()
        .as_secs() as i64;
    let resp = login_token(
        0x0123_4567_89ab_cdef_0011_2233_4455_6677,
        "https://example.com/",
        "rp-1",
        "did:web:example.com:u:alice",
        "example.com",
        &salt,
        &key,
        now,
    )
    .unwrap();
    assert_eq!(resp.user_id, "01234567-89ab-cdef-0011-223344556677");
    let t = resp.id_token;
    let store = JtiStore::new();
    let c = decode_token(&t, "https://example.com", Some("rp-1"), &key, &store).unwrap();
    let vsid = compute_vsid("did:web:example.com:u:alice", "rp-1", &salt).unwrap();
    assert_eq!(c.sub, vsid.to_string());
    assert_eq!(c.exp, now + TOKEN_TTL_SECS as i64);
    assert_eq!(c.did, "did:web:example.com:u:alice");
    assert!(matches!(
        login_token(1, "https://example.com", "rp", "not-a-did", "example.com", &salt, &key, now),
        Err(ApiError::Internal(_))
    ));
}

#[test]
fn bearer_authentication() {
    let key = OidcSigningKey::generate();
    let now = std::time::SystemTime::now()
        .duration_since(std::time::UNIX_EPOCH)
        .unwrap()
        .as_secs() as i64;
    let t = login_token(
        7,
        "https://example.com",
        "rp-2",
        "did:web:example.com",
        "example.com",
        &[1u8; 32],
        &key,
        now,
    )
    .unwrap()
    .id_token;
    let mut store = JtiStore::new();
    let header = format!("Bearer {t}");
    // The audience is not checked: any relying party's token is accepted by the issuer.
    let c = authenticate_bearer(Some(&header), "https://example.com/", &key, &store, now)
        .unwrap()
        .0;
    assert_eq!(c.aud, "rp-2");
    assert!(matches!(
        authenticate_bearer(None, "https://example.com", &key, &store, now),
        Err(ApiError::Unauthorized)
    ));
    assert!(matches!(
        authenticate_bearer(Some(&header), "https://other.example", &key, &store, now),
        Err(ApiError::Unauthorized)
    ));
    store.blacklist(&c.jti, c.exp);
    assert!(matches!(
        authenticate_bearer(Some(&header), "https://example.com", &key, &store, now),
        Err(ApiError::Unauthorized)
    ));
}

// ---- store decisions ----

#[test]
fn username_index_input_is_length_prefixed() {
    let v = username_index_input("a@b", "c");
    assert_eq!(v, vec![0, 0, 0, 3, b'a', b'@', b'b', 0, 0, 0, 1, b'c']);
    assert_ne!(username_index_input("a@b", "c"), username_index_input("a", "b@c"));
    // Lengths count UTF-8 bytes.
    assert_eq!(username_index_input("é", "")[..4], [0, 0, 0, 2]);
}

#[test]
fn store_outcomes() {
    assert!(check_credential_owner(1, 1).is_ok());
    assert!(matches!(check_credential_owner(1, 2), Err(StoreError::CredentialUserMismatch)));
    assert!(matches!(update_outcome(0), Err(StoreError::NotFound)));
    assert!(update_outcome(1).is_ok());
    assert!(matches!(classify_insert_error(true, "x".into()), StoreError::Duplicate));
    match classify_insert_error(false, "disk full".into()) {
        StoreError::Database(m) => assert_eq!(m, "disk full"),
        _ => panic!("must be a database error"),
    }
    assert_eq!(StoreError::Duplicate.to_string(), "duplicate row (unique constraint violated)");
    assert_eq!(StoreError::NotFound.to_string(), "row not found");
    assert_eq!(StoreError::Database("e".into()).to_string(), "database error: e");
}

// ---- passkey decisions ----

#[test]
fn passkey_decisions() {
    assert!(matches!(require_credentials(0), Err(PasskeyError::NoCredentials)));
    assert!(require_credentials(2).is_ok());
    assert!(!counter_advanced(&vec![]));
    assert!(!counter_advanced(&vec![None, Some(false)]));
    assert!(counter_advanced(&vec![None, Some(true), Some(false)]));
    assert_eq!(credential_id_from_json("\"abc-123\""), "abc-123");
    assert_eq!(credential_id_from_json("\"\"x\"\""), "x");
    assert_eq!(
        PasskeyError::NoCredentials.to_string(),
        "no credentials registered for this user"
    );
}

#[test]
fn user_id_text_matches_uuid_display() {
    for v in [0u128, 1, u128::MAX, 0x0123_4567_89ab_cdef_0011_2233_4455_6677] {
        assert_eq!(uuid_to_string(v), uuid::Uuid::from_u128(v).to_string());
    }
}

#[test]
fn login_token_fails_only_on_expiry_overflow_or_bad_did() {
    let key = OidcSigningKey::generate();
    let salt = [5u8; 32];
    let ok = login_token(9, "https://example.com", "rp", "did:web:example.com", "example.com", &salt, &key, i64::MAX - TOKEN_TTL_SECS as i64);
    assert!(ok.is_ok());
    let overflow = login_token(9, "https://example.com", "rp", "did:web:example.com", "example.com", &salt, &key, i64::MAX - 10);
    assert!(matches!(overflow, Err(ApiError::Internal(_))));
}

#[test]
fn bearer_blacklist_follows_the_given_clock() {
    let key = OidcSigningKey::generate();
    let now = std::time::SystemTime::now()
        .duration_since(std::time::UNIX_EPOCH)
        .unwrap()
        .as_secs() as i64;
    let t = login_token(3, "https://example.com", "rp", "did:web:example.com", "example.com", &[2u8; 32], &key, now)
        .unwrap()
        .id_token;
    let header = format!("Bearer {t}");
    let mut store = JtiStore::new();
    let c = authenticate_bearer(Some(&header), "https://example.com", &key, &store, now).unwrap().0;
    store.blacklist_at(&c.jti, now + 100, now);
    assert!(authenticate_bearer(Some(&header), "https://example.com", &key, &store, now + 99).is_err());
    assert!(authenticate_bearer(Some(&header), "https://example.com", &key, &store, now + 100).is_ok());
    let admitted = admit_authenticated(AuthenticatedClaims(c.clone()), Some(false)).unwrap();
    assert_eq!(admitted.0.jti, c.jti);
    assert!(matches!(admit_authenticated(AuthenticatedClaims(c.clone()), Some(true)), Err(ApiError::Unauthorized)));
    assert!(matches!(admit_authenticated(AuthenticatedClaims(c), None), Err(ApiError::Unauthorized)));
}

#[test]
fn whitespace_matches_std_for_every_char() {
    for v in 0u32..=0x10FFFF {
        if let Some(c) = char::from_u32(v) {
            let s = c.to_string();
            assert_eq!(brigid::text::trim_whitespace(&s).is_empty(), c.is_whitespace(), "{v:#x}");
        }
    }
}
