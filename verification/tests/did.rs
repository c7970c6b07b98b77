use brigid::did::{
    build_did_web, did_document_handler, did_web_to_url, generate_did_peer, resolve_did_peer, Did,
    DidError,
};
use brigid::did::{fetch_target, FetchTargetError};
use brigid::net_guard::{is_disallowed_target, IpAddress};
use serde_json::Value;

fn sample_key() -> [u8; 32] {
    let mut k = [0u8; 32];
    for (i, b) in k.iter_mut().enumerate() {
        *b = (i as u8).wrapping_add(1);
    }
    k
}

// ---- did:web ----

#[test]
fn build_did_web_format() {
    let did = build_did_web("alice", "example.com");
    assert_eq!(did.as_str(), "did:web:example.com:u:alice");
}

#[test]
fn did_web_to_url_with_path() {
    let did = build_did_web("alice", "example.com");
    let url = did_web_to_url(&did).unwrap();
    assert_eq!(url.as_str(), "https://example.com/u/alice/did.json");
}

#[test]
fn did_web_to_url_root_only() {
    let did = Did::new("did:web:example.com");
    let url = did_web_to_url(&did).unwrap();
    assert_eq!(url.as_str(), "https://example.com/.well-known/did.json");
}

#[test]
fn did_web_to_url_invalid_prefix() {
    let did = Did::new("did:key:abc");
    assert!(did_web_to_url(&did).is_err());
}

#[test]
fn did_web_to_url_decodes_port() {
    let did = Did::new("did:web:example.com%3A8443");
    let url = did_web_to_url(&did).unwrap();
    assert_eq!(url.as_str(), "https://example.com:8443/.well-known/did.json");
    let did = Did::new("did:web:example.com%3a8443:u:bob");
    let url = did_web_to_url(&did).unwrap();
    assert_eq!(url.as_str(), "https://example.com:8443/u/bob/did.json");
}

#[test]
fn did_web_to_url_invalid_prefix_message() {
    let did = Did::new("did:key:abc");
    match did_web_to_url(&did) {
        Err(DidError::InvalidDid(m)) => assert_eq!(m, "not a did:web DID: did:key:abc"),
        _ => panic!("expected InvalidDid"),
    }
}

#[test]
fn did_web_to_url_reports_bad_url() {
    let did = Did::new("did:web:exa mple.com");
    assert!(matches!(did_web_to_url(&did), Err(DidError::Url(_))));
}

// ---- did:peer ----

#[test]
fn generate_resolve_round_trip() {
    let key = sample_key();
    let did = generate_did_peer(&key).unwrap();
    let recovered = resolve_did_peer(&did).unwrap();
    assert_eq!(recovered, key);
}

#[test]
fn did_starts_with_prefix() {
    let did = generate_did_peer(&sample_key()).unwrap();
    assert!(did.as_str().starts_with("did:peer:2.z"));
}

#[test]
fn peer_wrong_key_length_is_rejected() {
    assert!(generate_did_peer(&[0u8; 31]).is_err());
    assert!(generate_did_peer(&[0u8; 33]).is_err());
    assert!(generate_did_peer(&[]).is_err());
}

#[test]
fn invalid_did_prefix_is_rejected() {
    let did = Did::new("did:web:example.com");
    assert!(resolve_did_peer(&did).is_err());
}

#[test]
fn invalid_multicodec_prefix_is_rejected() {
    let mut payload = vec![0x12u8, 0x34];
    payload.extend_from_slice(&[0u8; 32]);
    let encoded = bs58::encode(&payload).into_string();
    let did = Did::new(&format!("did:peer:2.z{encoded}"));
    let err = resolve_did_peer(&did).unwrap_err();
    assert!(
        err.to_string()
            .contains("invalid ed25519-pub multicodec prefix"),
        "unexpected error: {}",
        err.to_string()
    );
}

#[test]
fn wrong_decoded_key_length_is_rejected() {
    let mut payload = vec![0xed, 0x01];
    payload.extend_from_slice(&[0u8; 31]);
    let encoded = bs58::encode(&payload).into_string();
    let did = Did::new(&format!("did:peer:2.z{encoded}"));
    let err = resolve_did_peer(&did).unwrap_err();
    assert!(
        err.to_string().contains("expected 32 key bytes"),
        "unexpected error: {}",
        err.to_string()
    );
    assert_eq!(err.to_string(), "invalid public key: expected 32 key bytes, got 31");
}

#[test]
fn invalid_base58_suffix_is_rejected() {
    let did = Did::new("did:peer:2.z0OIl");
    let err = resolve_did_peer(&did).unwrap_err();
    assert!(
        !err.to_string().contains("not a did:peer:2.z"),
        "unexpected error: {}",
        err.to_string()
    );
}

#[test]
fn different_keys_produce_different_dids() {
    let k1 = [0u8; 32];
    let k2 = [1u8; 32];
    let d1 = generate_did_peer(&k1).unwrap();
    let d2 = generate_did_peer(&k2).unwrap();
    assert_ne!(d1, d2);
}

#[test]
fn generate_reports_length() {
    match generate_did_peer(&[0u8; 31]) {
        Err(DidError::InvalidKey(m)) => assert_eq!(m, "expected 32 bytes, got 31"),
        _ => panic!("expected InvalidKey"),
    }
}

#[test]
fn generate_matches_base58_of_multicodec_and_key() {
    let key = [0x42u8; 32];
    let mut payload = vec![0xed, 0x01];
    payload.extend_from_slice(&key);
    let expected = format!("did:peer:2.z{}", bs58::encode(&payload).into_string());
    assert_eq!(generate_did_peer(&key).unwrap().as_str(), expected);
}

// ---- DID documents ----

fn doc_key() -> [u8; 32] {
    [0x42u8; 32]
}

#[test]
fn handler_returns_valid_document() {
    let doc = did_document_handler("alice", "example.com", &doc_key()).unwrap();
    assert_eq!(doc.id, "did:web:example.com:u:alice");
    assert_eq!(
        doc.context,
        [
            "https://www.w3.org/ns/did/v1",
            "https://w3id.org/security/suites/ed25519-2020/v1"
        ]
    );
    assert_eq!(doc.verification_method.len(), 1);
    assert_eq!(doc.authentication.len(), 1);
    assert_eq!(
        doc.verification_method[0].key_type,
        "Ed25519VerificationKey2020"
    );
    assert_eq!(doc.verification_method[0].controller, doc.id);
    assert_eq!(doc.authentication[0], doc.verification_method[0].id);
}

// The service serialises DID documents with the DID Core member names; the test builds the
// same JSON value member by member.
fn document_value(doc: &brigid::did::DIDDocument) -> Value {
    let methods = doc
        .verification_method
        .iter()
        .map(|m| {
            let mut o = serde_json::Map::new();
            o.insert("id".to_string(), Value::String(m.id.clone()));
            o.insert("type".to_string(), Value::String(m.key_type.clone()));
            o.insert("controller".to_string(), Value::String(m.controller.clone()));
            o.insert(
                "publicKeyMultibase".to_string(),
                Value::String(m.public_key_multibase.clone()),
            );
            Value::Object(o)
        })
        .collect();
    let mut o = serde_json::Map::new();
    o.insert(
        "@context".to_string(),
        Value::Array(doc.context.iter().map(|c| Value::String(c.clone())).collect()),
    );
    o.insert("id".to_string(), Value::String(doc.id.clone()));
    o.insert("verificationMethod".to_string(), Value::Array(methods));
    o.insert(
        "authentication".to_string(),
        Value::Array(doc.authentication.iter().map(|a| Value::String(a.clone())).collect()),
    );
    Value::Object(o)
}

#[test]
fn document_serialises_to_valid_json() {
    let doc = did_document_handler("alice", "example.com", &doc_key()).unwrap();
    let json = serde_json::to_string(&document_value(&doc)).unwrap();
    assert!(json.contains("\"@context\""));
    assert!(json.contains("\"verificationMethod\""));
    assert!(json.contains("\"authentication\""));
    assert!(json.contains("did:web:example.com:u:alice"));
}

#[test]
fn public_key_multibase_starts_with_z() {
    let doc = did_document_handler("bob", "brig.id", &doc_key()).unwrap();
    assert!(
        doc.verification_method[0]
            .public_key_multibase
            .starts_with('z'),
        "publicKeyMultibase must use base58btc multibase prefix"
    );
}

#[test]
fn handler_wrong_key_length_is_rejected() {
    assert!(did_document_handler("alice", "example.com", &[0u8; 31]).is_err());
    assert!(did_document_handler("alice", "example.com", &[0u8; 33]).is_err());
}

#[test]
fn handler_method_id_and_multibase() {
    let doc = did_document_handler("alice", "example.com", &doc_key()).unwrap();
    assert_eq!(doc.verification_method[0].id, "did:web:example.com:u:alice#key-1");
    let mut payload = vec![0xed, 0x01];
    payload.extend_from_slice(&doc_key());
    assert_eq!(
        doc.verification_method[0].public_key_multibase,
        format!("z{}", bs58::encode(&payload).into_string())
    );
}

// ---- the resolver's address guard ----

fn v6(s: [u16; 8]) -> IpAddress {
    IpAddress::v6(s)
}

#[test]
fn is_disallowed_target_blocks_loopback() {
    assert!(is_disallowed_target(IpAddress::v4(127, 0, 0, 1)));
    assert!(is_disallowed_target(v6([0, 0, 0, 0, 0, 0, 0, 1])));
}

#[test]
fn is_disallowed_target_blocks_private_ranges() {
    assert!(is_disallowed_target(IpAddress::v4(10, 0, 0, 1)));
    assert!(is_disallowed_target(IpAddress::v4(172, 16, 0, 1)));
    assert!(is_disallowed_target(IpAddress::v4(192, 168, 1, 1)));
}

#[test]
fn is_disallowed_target_blocks_link_local_and_cloud_metadata() {
    assert!(is_disallowed_target(IpAddress::v4(169, 254, 169, 254)));
    assert!(is_disallowed_target(IpAddress::v4(169, 254, 0, 1)));
    assert!(is_disallowed_target(v6([0xfe80, 0, 0, 0, 0, 0, 0, 1])));
}

#[test]
fn is_disallowed_target_blocks_ipv6_unique_local() {
    assert!(is_disallowed_target(v6([0xfc00, 0, 0, 0, 0, 0, 0, 1])));
    assert!(is_disallowed_target(v6([0xfd12, 0x3456, 0x789a, 0, 0, 0, 0, 1])));
}

#[test]
fn is_disallowed_target_blocks_unspecified_and_multicast() {
    assert!(is_disallowed_target(IpAddress::v4(0, 0, 0, 0)));
    assert!(is_disallowed_target(v6([0, 0, 0, 0, 0, 0, 0, 0])));
    assert!(is_disallowed_target(IpAddress::v4(224, 0, 0, 1)));
    assert!(is_disallowed_target(v6([0xff02, 0, 0, 0, 0, 0, 0, 1])));
}

#[test]
fn is_disallowed_target_blocks_ipv4_mapped_and_compatible_ipv6() {
    // ::ffff:169.254.169.254
    assert!(is_disallowed_target(v6([0, 0, 0, 0, 0, 0xffff, 0xa9fe, 0xa9fe])));
    // ::ffff:127.0.0.1
    assert!(is_disallowed_target(v6([0, 0, 0, 0, 0, 0xffff, 0x7f00, 0x0001])));
    // ::127.0.0.1
    assert!(is_disallowed_target(v6([0, 0, 0, 0, 0, 0, 0x7f00, 0x0001])));
}

#[test]
fn is_disallowed_target_allows_public_addresses() {
    assert!(!is_disallowed_target(IpAddress::v4(93, 184, 216, 34)));
    assert!(!is_disallowed_target(IpAddress::v4(1, 1, 1, 1)));
    assert!(!is_disallowed_target(v6([0x2606, 0x4700, 0x4700, 0, 0, 0, 0, 0x1111])));
}

#[test]
fn is_disallowed_target_blocks_broadcast_and_documentation() {
    assert!(is_disallowed_target(IpAddress::v4(255, 255, 255, 255)));
    assert!(is_disallowed_target(IpAddress::v4(192, 0, 2, 7)));
    assert!(is_disallowed_target(IpAddress::v4(198, 51, 100, 7)));
    assert!(is_disallowed_target(IpAddress::v4(203, 0, 113, 7)));
    assert!(!is_disallowed_target(IpAddress::v4(172, 32, 0, 1)));
    assert!(!is_disallowed_target(IpAddress::v4(240, 0, 0, 1)));
}

#[test]
fn compatible_ipv6_of_public_or_small_value_is_allowed() {
    // ::2 unwraps to 0.0.0.2, which no IPv4 rule blocks.
    assert!(!is_disallowed_target(v6([0, 0, 0, 0, 0, 0, 0, 2])));
    // ::ffff:1.1.1.1
    assert!(!is_disallowed_target(v6([0, 0, 0, 0, 0, 0xffff, 0x0101, 0x0101])));
}

#[test]
fn fetch_target_host_and_port() {
    let (h, p) = fetch_target("https://example.com/.well-known/did.json").unwrap();
    assert_eq!((h.as_str(), p), ("example.com", 443));
    let (h, p) = fetch_target("http://peer.example:8080/u/a/did.json").unwrap();
    assert_eq!((h.as_str(), p), ("peer.example", 8080));
    let (h, p) = fetch_target("http://peer.example/").unwrap();
    assert_eq!((h.as_str(), p), ("peer.example", 80));
    let (_, p) = fetch_target("foo://host.example/").unwrap();
    assert_eq!(p, 443);
    assert!(matches!(fetch_target("not a url"), Err(FetchTargetError::Url(_))));
    assert!(matches!(fetch_target("mailto:a@b.example"), Err(FetchTargetError::NoHost)));
}
