use brigid::claims::{read_claims_json, write_claims_json, Claims};
use brigid::jti::{JtiStore, OidcError};
use brigid::signing_key::OidcSigningKey;
use brigid::token::{
    accept_claims_at, build_claims, check_claims_at, decode_token, from_jwt_failure, issue_token,
    validate_token, IssuanceParams, JwtFailure,
};
use brigid::vsid::{compute_vsid, Vsid};

fn test_vsid() -> Vsid {
    let salt = [0x42u8; 32];
    compute_vsid("did:web:example.com", "test-client", &salt).unwrap()
}

fn test_key() -> OidcSigningKey {
    OidcSigningKey::generate()
}

fn now() -> i64 {
    std::time::SystemTime::now()
        .duration_since(std::time::UNIX_EPOCH)
        .unwrap()
        .as_secs() as i64
}

fn test_params<'a>(vsid: &'a Vsid, client_id: &'a str) -> IssuanceParams<'a> {
    IssuanceParams {
        vsid,
        issuer: "https://example.com",
        client_id,
        user_did: "did:web:example.com",
        server: "example.com",
        ttl_secs: 3600,
    }
}

fn sample_claims() -> Claims {
    Claims {
        sub: "vsid-value".to_string(),
        iss: "https://example.com".to_string(),
        aud: "my-client".to_string(),
        exp: 1_700_003_600,
        iat: 1_700_000_000,
        jti: "0b7e2c9a-1111-4222-8333-444455556666".to_string(),
        did: "did:web:example.com".to_string(),
        server: "example.com".to_string(),
        alias_type: "public".to_string(),
    }
}

#[test]
fn issue_and_validate_roundtrip() {
    let key = test_key();
    let vsid = test_vsid();
    let mut store = JtiStore::new();

    let token = issue_token(&test_params(&vsid, "my-client"), &key, now()).unwrap();

    let claims =
        validate_token(&token, "https://example.com", "my-client", &key, &mut store).unwrap();

    assert_eq!(claims.sub, vsid.to_string());
    assert_eq!(claims.aud, "my-client");
    assert_eq!(claims.iss, "https://example.com");
    assert_eq!(claims.did, "did:web:example.com");
    assert_eq!(claims.alias_type, "public");
}

#[test]
fn sub_is_vsid_not_username_or_did() {
    let key = test_key();
    let vsid = test_vsid();
    let vsid_str = vsid.to_string();
    let mut store = JtiStore::new();

    let token = issue_token(&test_params(&vsid, "my-client"), &key, now()).unwrap();

    let claims =
        validate_token(&token, "https://example.com", "my-client", &key, &mut store).unwrap();

    // sub must be the VSID, not the username, alias or raw DID
    assert_eq!(claims.sub, vsid_str);
    assert_ne!(claims.sub, "did:web:example.com");
    assert_ne!(claims.sub, "example.com");
}

#[test]
fn validate_expired_token() {
    let key = test_key();
    let vsid = test_vsid();
    let mut store = JtiStore::new();

    // Issued at the Unix epoch with a one-second lifetime: long expired.
    let params = IssuanceParams {
        vsid: &vsid,
        issuer: "https://example.com",
        client_id: "my-client",
        user_did: "did:web:example.com",
        server: "example.com",
        ttl_secs: 1,
    };
    let token = issue_token(&params, &key, 0).unwrap();

    let err = validate_token(&token, "https://example.com", "my-client", &key, &mut store)
        .unwrap_err();
    assert!(matches!(err, OidcError::Expired));
}

#[test]
fn validate_wrong_audience() {
    let key = test_key();
    let vsid = test_vsid();
    let mut store = JtiStore::new();

    let token = issue_token(&test_params(&vsid, "correct-client"), &key, now()).unwrap();

    let err = validate_token(
        &token,
        "https://example.com",
        "wrong-client",
        &key,
        &mut store,
    )
    .unwrap_err();
    assert!(matches!(err, OidcError::InvalidAudience));
}

#[test]
fn validate_jti_replay() {
    let key = test_key();
    let vsid = test_vsid();
    let mut store = JtiStore::new();

    let token = issue_token(&test_params(&vsid, "my-client"), &key, now()).unwrap();

    // First validation succeeds
    validate_token(&token, "https://example.com", "my-client", &key, &mut store).unwrap();

    // Second validation with the same token must fail (replay)
    let err = validate_token(&token, "https://example.com", "my-client", &key, &mut store)
        .unwrap_err();
    assert!(matches!(err, OidcError::JtiReplay));
}

#[test]
fn validate_invalid_signature() {
    let key = test_key();
    let vsid = test_vsid();
    let mut store = JtiStore::new();

    let mut token = issue_token(&test_params(&vsid, "my-client"), &key, now()).unwrap();

    // Tamper with the last character of the signature part
    let last = token.pop().unwrap();
    let replacement = if last == 'A' { 'B' } else { 'A' };
    token.push(replacement);

    let err = validate_token(&token, "https://example.com", "my-client", &key, &mut store)
        .unwrap_err();
    assert!(matches!(err, OidcError::Jwt(_)));
}

#[test]
fn key_roundtrip_from_raw_bytes() {
    let key = OidcSigningKey::generate();
    let kid = key.kid().to_string();
    let bytes = key.to_raw_bytes();

    let key2 = OidcSigningKey::from_raw_bytes(kid.clone(), &bytes);
    assert_eq!(key2.kid(), kid);

    let vsid = test_vsid();
    let mut store = JtiStore::new();
    let token = issue_token(&test_params(&vsid, "client"), &key2, now()).unwrap();
    validate_token(&token, "https://example.com", "client", &key2, &mut store).unwrap();
}

// ---- additional cases ----

#[test]
fn generated_key_id_is_a_version_4_uuid() {
    let key = OidcSigningKey::generate();
    let kid = key.kid();
    assert_eq!(kid.len(), 36);
    assert_eq!(&kid[14..15], "4");
    assert!(matches!(&kid[19..20], "8" | "9" | "a" | "b"));
    for (i, c) in kid.chars().enumerate() {
        if [8, 13, 18, 23].contains(&i) {
            assert_eq!(c, '-');
        } else {
            assert!(c.is_ascii_hexdigit() && !c.is_ascii_uppercase());
        }
    }
}

#[test]
fn verifying_key_matches_ed25519_dalek() {
    let seed = [7u8; 32];
    let key = OidcSigningKey::from_raw_bytes("k1".to_string(), &seed);
    let expected = ed25519_dalek::SigningKey::from_bytes(&seed)
        .verifying_key()
        .to_bytes();
    assert_eq!(key.verifying_key(), expected);
    assert_ne!(key.verifying_key(), seed);
    assert_eq!(key.to_raw_bytes(), seed);
}

#[test]
fn issued_token_header_names_the_key() {
    let key = OidcSigningKey::from_raw_bytes("kid-123".to_string(), &[9u8; 32]);
    let vsid = test_vsid();
    let token = issue_token(&test_params(&vsid, "my-client"), &key, now()).unwrap();
    let header = jsonwebtoken::decode_header(&token).unwrap();
    assert_eq!(header.kid.as_deref(), Some("kid-123"));
    assert_eq!(header.alg, jsonwebtoken::Algorithm::EdDSA);
}

#[test]
fn issued_claims_have_expected_times() {
    let key = test_key();
    let vsid = test_vsid();
    let t = now();
    let token = issue_token(&test_params(&vsid, "my-client"), &key, t).unwrap();
    let store = JtiStore::new();
    let claims = decode_token(&token, "https://example.com", Some("my-client"), &key, &store).unwrap();
    assert_eq!(claims.iat, t);
    assert_eq!(claims.exp, t + 3600);
    assert_eq!(claims.server, "example.com");
    assert_eq!(claims.jti.len(), 36);
}

#[test]
fn token_from_another_key_is_rejected() {
    let key = test_key();
    let other = test_key();
    let vsid = test_vsid();
    let mut store = JtiStore::new();
    let token = issue_token(&test_params(&vsid, "my-client"), &key, now()).unwrap();
    let err = validate_token(&token, "https://example.com", "my-client", &other, &mut store)
        .unwrap_err();
    assert!(matches!(err, OidcError::Jwt(_)));
}

#[test]
fn wrong_issuer_is_rejected() {
    let key = test_key();
    let vsid = test_vsid();
    let mut store = JtiStore::new();
    let token = issue_token(&test_params(&vsid, "my-client"), &key, now()).unwrap();
    let err = validate_token(&token, "https://other.example", "my-client", &key, &mut store)
        .unwrap_err();
    assert!(matches!(err, OidcError::Jwt(_)));
}

#[test]
fn garbage_token_is_rejected() {
    let key = test_key();
    let mut store = JtiStore::new();
    let err = validate_token("not.a.jwt", "https://example.com", "c", &key, &mut store).unwrap_err();
    assert!(matches!(err, OidcError::Jwt(_)));
}

#[test]
fn ttl_overflow_is_invalid_ttl() {
    let key = test_key();
    let vsid = test_vsid();
    let mut params = test_params(&vsid, "my-client");
    params.ttl_secs = u64::MAX;
    assert!(matches!(issue_token(&params, &key, 0), Err(OidcError::InvalidTtl)));
    params.ttl_secs = 10;
    assert!(matches!(issue_token(&params, &key, i64::MAX - 5), Err(OidcError::InvalidTtl)));
    assert!(issue_token(&params, &key, i64::MAX - 10).is_ok());
}

#[test]
fn build_claims_exact_values() {
    let vsid = test_vsid();
    let params = test_params(&vsid, "rp");
    let c = build_claims(&params, 1000, "jti-1".to_string()).unwrap();
    assert_eq!(c.sub, vsid.to_string());
    assert_eq!(c.iss, "https://example.com");
    assert_eq!(c.aud, "rp");
    assert_eq!(c.exp, 4600);
    assert_eq!(c.iat, 1000);
    assert_eq!(c.jti, "jti-1");
    assert_eq!(c.did, "did:web:example.com");
    assert_eq!(c.server, "example.com");
    assert_eq!(c.alias_type, "public");
    // A negative issuing time may carry a lifetime beyond the i64 range only if the sum fits;
    // lifetimes beyond i64::MAX are refused outright.
    let mut p2 = test_params(&vsid, "rp");
    p2.ttl_secs = i64::MAX as u64 + 1;
    assert!(matches!(build_claims(&p2, -10, "j".to_string()), Err(OidcError::InvalidTtl)));
}

#[test]
fn decode_token_is_reusable_but_respects_blacklist() {
    let key = test_key();
    let vsid = test_vsid();
    let token = issue_token(&test_params(&vsid, "my-client"), &key, now()).unwrap();
    let mut store = JtiStore::new();
    let c1 = decode_token(&token, "https://example.com", Some("my-client"), &key, &store).unwrap();
    let c2 = decode_token(&token, "https://example.com", None, &key, &store).unwrap();
    assert_eq!(c1.jti, c2.jti);
    store.blacklist(&c1.jti, c1.exp);
    let err = decode_token(&token, "https://example.com", None, &key, &store).unwrap_err();
    assert!(matches!(err, OidcError::JtiReplay));
    let err = decode_token(&token, "https://example.com", Some("other"), &key, &store).unwrap_err();
    assert!(matches!(err, OidcError::InvalidAudience));
}

#[test]
fn jwt_failures_map_to_library_errors() {
    assert!(matches!(from_jwt_failure(JwtFailure::Expired, "x".into()), OidcError::Expired));
    assert!(matches!(
        from_jwt_failure(JwtFailure::WrongAudience, "x".into()),
        OidcError::InvalidAudience
    ));
    match from_jwt_failure(JwtFailure::Other, "InvalidSignature".into()) {
        OidcError::Jwt(m) => assert_eq!(m, "InvalidSignature"),
        other => panic!("unexpected {other:?}"),
    }
}

#[test]
fn oidc_error_messages() {
    assert_eq!(OidcError::Jwt("bad".into()).to_string(), "JWT error: bad");
    assert_eq!(OidcError::Expired.to_string(), "token expired");
    assert_eq!(OidcError::InvalidAudience.to_string(), "invalid audience");
    assert_eq!(OidcError::JtiReplay.to_string(), "JTI replay detected");
    assert_eq!(
        OidcError::InvalidTtl.to_string(),
        "invalid token TTL (overflow or out of i64 range)"
    );
    assert_eq!(OidcError::Serialization("x".into()).to_string(), "serialization error: x");
}

#[test]
fn accept_claims_consumes_the_jwt_id() {
    let text = write_claims_json(&sample_claims());
    let mut store = JtiStore::new();
    let c = accept_claims_at(&text, &mut store, 1_700_000_100).unwrap();
    assert_eq!(c.jti, sample_claims().jti);
    assert!(matches!(
        accept_claims_at(&text, &mut store, 1_700_000_200),
        Err(OidcError::JtiReplay)
    ));
    // After expiry the ID is free again.
    assert!(accept_claims_at(&text, &mut store, 1_700_003_600).is_ok());
    assert!(matches!(
        accept_claims_at("{\"sub\":1}", &mut store, 0),
        Err(OidcError::Jwt(_))
    ));
}

#[test]
fn check_claims_does_not_consume() {
    let text = write_claims_json(&sample_claims());
    let mut store = JtiStore::new();
    assert!(check_claims_at(&text, &store, 10).is_ok());
    assert!(check_claims_at(&text, &store, 10).is_ok());
    store.blacklist_at(&sample_claims().jti, 100, 0);
    assert!(matches!(check_claims_at(&text, &store, 50), Err(OidcError::JtiReplay)));
    assert!(check_claims_at(&text, &store, 100).is_ok());
}

// ---- claims JSON ----

#[test]
fn claims_json_matches_serde_layout() {
    let c = sample_claims();
    let text = write_claims_json(&c);
    assert_eq!(
        text,
        "{\"sub\":\"vsid-value\",\"iss\":\"https://example.com\",\"aud\":\"my-client\",\
         \"exp\":1700003600,\"iat\":1700000000,\"jti\":\"0b7e2c9a-1111-4222-8333-444455556666\",\
         \"did\":\"did:web:example.com\",\"server\":\"example.com\",\"alias_type\":\"public\"}"
    );
    let parsed: serde_json::Value = serde_json::from_str(&text).unwrap();
    assert_eq!(parsed["exp"], 1_700_003_600i64);
    assert_eq!(parsed["alias_type"], "public");
}

#[test]
fn claims_json_roundtrip_with_escapes_and_negatives() {
    let mut c = sample_claims();
    c.sub = "quote\" back\\ nl\n tab\t ctrl\u{1} é 🦀".to_string();
    c.exp = -5;
    c.iat = i64::MIN;
    let text = write_claims_json(&c);
    // The string escapes are those serde_json writes.
    let expected_sub = serde_json::to_string(&serde_json::Value::String(c.sub.clone())).unwrap();
    assert!(text.contains(&expected_sub));
    let parsed: serde_json::Value = serde_json::from_str(&text).unwrap();
    assert_eq!(parsed["sub"], c.sub.as_str());
    assert_eq!(parsed["iat"], i64::MIN);
    let back = read_claims_json(&text).unwrap();
    assert_eq!(back.sub, c.sub);
    assert_eq!(back.exp, -5);
    assert_eq!(back.iat, i64::MIN);
    assert_eq!(back.jti, c.jti);
}

#[test]
fn read_claims_json_rejects_other_texts() {
    let text = write_claims_json(&sample_claims());
    assert!(read_claims_json(&text).is_some());
    assert!(read_claims_json(&format!("{text} ")).is_none());
    assert!(read_claims_json(&text[..text.len() - 1]).is_none());
    assert!(read_claims_json(&text.replace("\"iss\"", "\"ISS\"")).is_none());
    assert!(read_claims_json(&text.replace("1700003600", "01700003600")).is_none());
    assert!(read_claims_json(&text.replace("1700003600", "99999999999999999999")).is_none());
    assert!(read_claims_json("").is_none());
}
