use brigid::discovery::{build_jwks, build_openid_configuration, Jwk, JwkSet, OpenIDConfiguration};
use brigid::signing_key::OidcSigningKey;
use serde_json::Value;
use url::Url;

// The service serialises these types with serde's field order and `use` for `key_use`;
// the tests build the same JSON values field by field.
fn jwk_value(j: &Jwk) -> Value {
    let mut m = serde_json::Map::new();
    m.insert("kty".to_string(), Value::String(j.kty.clone()));
    m.insert("crv".to_string(), Value::String(j.crv.clone()));
    m.insert("x".to_string(), Value::String(j.x.clone()));
    m.insert("kid".to_string(), Value::String(j.kid.clone()));
    m.insert("alg".to_string(), Value::String(j.alg.clone()));
    m.insert("use".to_string(), Value::String(j.key_use.clone()));
    Value::Object(m)
}

fn jwk_set_value(s: &JwkSet) -> Value {
    let mut m = serde_json::Map::new();
    m.insert(
        "keys".to_string(),
        Value::Array(s.keys.iter().map(jwk_value).collect()),
    );
    Value::Object(m)
}

fn strings(v: &[String]) -> Value {
    Value::Array(v.iter().map(|s| Value::String(s.clone())).collect())
}

fn config_value(c: &OpenIDConfiguration) -> Value {
    let mut m = serde_json::Map::new();
    m.insert("issuer".to_string(), Value::String(c.issuer.clone()));
    if let Some(a) = &c.authorization_endpoint {
        m.insert("authorization_endpoint".to_string(), Value::String(a.clone()));
    }
    if let Some(t) = &c.token_endpoint {
        m.insert("token_endpoint".to_string(), Value::String(t.clone()));
    }
    m.insert("jwks_uri".to_string(), Value::String(c.jwks_uri.clone()));
    m.insert(
        "response_types_supported".to_string(),
        strings(&c.response_types_supported),
    );
    m.insert(
        "subject_types_supported".to_string(),
        strings(&c.subject_types_supported),
    );
    m.insert(
        "id_token_signing_alg_values_supported".to_string(),
        strings(&c.id_token_signing_alg_values_supported),
    );
    Value::Object(m)
}

#[test]
fn jwks_contains_correct_key() {
    let key = OidcSigningKey::generate();
    let set = build_jwks(&[&key]);

    assert_eq!(set.keys.len(), 1);
    let jwk = &set.keys[0];
    assert_eq!(jwk.kty, "OKP");
    assert_eq!(jwk.crv, "Ed25519");
    assert_eq!(jwk.alg, "EdDSA");
    assert_eq!(jwk.key_use, "sig");
    assert_eq!(jwk.kid, key.kid());

    // x must be base64url of the 32-byte verifying key
    let decoded = <base64ct::Base64UrlUnpadded as base64ct::Encoding>::decode_vec(&jwk.x).unwrap();
    assert_eq!(decoded, key.verifying_key().to_vec());
}

#[test]
fn jwks_serializes_to_valid_json() {
    let key = OidcSigningKey::generate();
    let set = build_jwks(&[&key]);
    let json = serde_json::to_string(&jwk_set_value(&set)).unwrap();
    let parsed: Value = serde_json::from_str(&json).unwrap();

    assert!(parsed["keys"].is_array());
    assert_eq!(parsed["keys"][0]["kty"], "OKP");
    assert_eq!(parsed["keys"][0]["alg"], "EdDSA");
    assert_eq!(parsed["keys"][0]["use"], "sig");
}

#[test]
fn openid_configuration_valid_json() {
    let base_url = Url::parse("https://example.com").unwrap();
    let config = build_openid_configuration(base_url.as_str());
    let json = serde_json::to_string(&config_value(&config)).unwrap();
    let parsed: Value = serde_json::from_str(&json).unwrap();

    assert_eq!(parsed["issuer"], "https://example.com");
    assert_eq!(
        parsed["jwks_uri"],
        "https://example.com/.well-known/jwks.json"
    );
    assert_eq!(parsed["id_token_signing_alg_values_supported"][0], "EdDSA");
}

#[test]
fn openid_configuration_trailing_slash() {
    let base_url = Url::parse("https://example.com/").unwrap();
    let config = build_openid_configuration(base_url.as_str());
    // Must not double-slash
    assert!(!config.jwks_uri.contains("//well-known"));
    assert_eq!(config.issuer, "https://example.com");
}

// ---- additional cases ----

#[test]
fn jwks_keeps_key_order_and_count() {
    let k1 = OidcSigningKey::from_raw_bytes("first".to_string(), &[1u8; 32]);
    let k2 = OidcSigningKey::from_raw_bytes("second".to_string(), &[2u8; 32]);
    let set = build_jwks(&[&k1, &k2, &k1]);
    assert_eq!(set.keys.len(), 3);
    assert_eq!(set.keys[0].kid, "first");
    assert_eq!(set.keys[1].kid, "second");
    assert_eq!(set.keys[2].x, set.keys[0].x);
    assert_ne!(set.keys[0].x, set.keys[1].x);
    // 32 bytes in unpadded base64url: 43 characters.
    assert_eq!(set.keys[0].x.len(), 43);
    assert!(build_jwks(&[]).keys.is_empty());
}

#[test]
fn jwk_x_is_exact_base64url_of_public_key() {
    let k = OidcSigningKey::from_raw_bytes("k".to_string(), &[0u8; 32]);
    let set = build_jwks(&[&k]);
    let expected = <base64ct::Base64UrlUnpadded as base64ct::Encoding>::encode_string(&k.verifying_key());
    assert_eq!(set.keys[0].x, expected);
    // RFC 8032 test vector 1: the public key of the all-zero seed is not the zero key.
    assert_ne!(set.keys[0].x, "AAAAAAAAAAAAAAAAAAAAAAAAAAAAAAAAAAAAAAAAAAA");
}

#[test]
fn openid_configuration_fields() {
    let config = build_openid_configuration("https://id.example.org:8443/base///");
    assert_eq!(config.issuer, "https://id.example.org:8443/base");
    assert_eq!(
        config.jwks_uri,
        "https://id.example.org:8443/base/.well-known/jwks.json"
    );
    assert!(config.authorization_endpoint.is_none());
    assert!(config.token_endpoint.is_none());
    assert_eq!(config.response_types_supported, vec!["id_token".to_string()]);
    assert_eq!(config.subject_types_supported, vec!["pairwise".to_string()]);
    assert_eq!(
        config.id_token_signing_alg_values_supported,
        vec!["EdDSA".to_string()]
    );
    let parsed = config_value(&config);
    assert!(parsed.get("authorization_endpoint").is_none());
}
