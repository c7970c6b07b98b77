use brigid::alias::PrivateAlias;
use brigid::error::IdentityError;
use brigid::identifier::{parse_identifier, IdentifierKind};
use brigid::root_id::RootId;
use brigid::vsid::compute_vsid;

// ---- private aliases ----

#[test]
fn valid_alias() {
    assert!(PrivateAlias::is_valid("x8Fj_29K"));
}

#[test]
fn no_underscore_is_invalid() {
    assert!(!PrivateAlias::is_valid("noUnderscore"));
}

#[test]
fn empty_is_invalid() {
    assert!(!PrivateAlias::is_valid(""));
}

#[test]
fn at_sign_makes_invalid() {
    assert!(!PrivateAlias::is_valid("alias@domain_test"));
}

#[test]
fn new_returns_some_for_valid() {
    let a = PrivateAlias::new("valid_alias").unwrap();
    assert_eq!(a.as_str(), "valid_alias");
}

#[test]
fn new_returns_none_for_invalid() {
    assert!(PrivateAlias::new("nounderscore").is_none());
}

#[test]
fn to_did_peer_has_expected_prefix() {
    let a = PrivateAlias::new("x8Fj_29K").unwrap();
    let did = a.to_did_peer();
    assert!(did.starts_with("did:peer:2.z"), "got: {did}");
}

#[test]
fn to_did_peer_strips_underscores_deterministically() {
    let a1 = PrivateAlias::new("he_llo").unwrap();
    let a2 = PrivateAlias::new("h_ello").unwrap();
    // Both strip to "hello", so same DID
    assert_eq!(a1.to_did_peer(), a2.to_did_peer());
}

#[test]
fn to_did_peer_differs_for_different_aliases() {
    let a1 = PrivateAlias::new("he_llo").unwrap();
    let a2 = PrivateAlias::new("wor_ld").unwrap();
    assert_ne!(a1.to_did_peer(), a2.to_did_peer());
}

// ---- identifier kind detection ----

#[test]
fn at_sign_yields_root_public() {
    let kind = parse_identifier("berenger@brig.id").unwrap();
    assert!(matches!(kind, IdentifierKind::RootPublic(_)));
}

#[test]
fn underscore_yields_private_alias() {
    let kind = parse_identifier("x8Fj_29K").unwrap();
    assert!(matches!(kind, IdentifierKind::PrivateAlias(_)));
}

#[test]
fn neither_is_error() {
    assert!(parse_identifier("something").is_err());
}

#[test]
fn invalid_root_id_propagates_error() {
    // `@` present but username is empty -> parse fails
    assert!(parse_identifier("@brig.id").is_err());
}

#[test]
fn neither_reports_unknown_kind() {
    assert_eq!(
        parse_identifier("something").unwrap_err(),
        IdentityError::InvalidIdentifier("cannot determine identifier kind for 'something'".into())
    );
}

#[test]
fn at_sign_with_underscore_is_root_not_alias() {
    let kind = parse_identifier("a_b@brig.id").unwrap();
    match kind {
        IdentifierKind::RootPublic(id) => {
            assert_eq!(id.username, "a_b");
            assert_eq!(id.server, "brig.id");
        }
        IdentifierKind::PrivateAlias(_) => panic!("expected a root identity"),
    }
}

// ---- root identities ----

#[test]
fn valid_root_id() {
    let id = RootId::parse("berenger@brig.id").unwrap();
    assert_eq!(id.username, "berenger");
    assert_eq!(id.server, "brig.id");
    assert_eq!(id.to_string(), "berenger@brig.id");
    assert_eq!(id.to_did_web(), "did:web:brig.id:u:berenger");
}

#[test]
fn missing_at_sign() {
    assert!(RootId::parse("berenger").is_err());
}

#[test]
fn empty_username() {
    assert!(RootId::parse("@brig.id").is_err());
}

#[test]
fn username_too_short() {
    assert!(RootId::parse("ab@brig.id").is_err());
}

#[test]
fn username_too_long() {
    let long = "a".repeat(65);
    assert!(RootId::parse(&format!("{long}@brig.id")).is_err());
}

#[test]
fn username_invalid_char() {
    assert!(RootId::parse("inv!alid@brig.id").is_err());
}

#[test]
fn username_only_underscores() {
    assert!(RootId::parse("___@brig.id").is_err());
}

#[test]
fn server_empty() {
    assert!(RootId::parse("alice@").is_err());
}

#[test]
fn server_empty_label() {
    assert!(RootId::parse("alice@brig..id").is_err());
}

#[test]
fn server_invalid_char() {
    assert!(RootId::parse("alice@brig!id").is_err());
}

#[test]
fn server_label_starts_with_hyphen() {
    assert!(RootId::parse("alice@-brig.id").is_err());
}

#[test]
fn server_label_ends_with_hyphen() {
    assert!(RootId::parse("alice@brig-.id").is_err());
}

#[test]
fn server_is_lowercased() {
    let id = RootId::parse("alice@Example.COM").unwrap();
    assert_eq!(id.server, "example.com");
    assert_eq!(id.to_did_web(), "did:web:example.com:u:alice");
    // Case variants must map to the same canonical RootId.
    let other = RootId::parse("alice@EXAMPLE.com").unwrap();
    assert_eq!(id, other);
}

#[test]
fn server_label_too_long() {
    // Single label of 64 octets -- exceeds the limit of 63.
    let label = "a".repeat(64);
    assert!(RootId::parse(&format!("alice@{label}.id")).is_err());
}

#[test]
fn server_label_at_max_length_ok() {
    // Boundary: a 63-octet label must be accepted.
    let label = "a".repeat(63);
    assert!(RootId::parse(&format!("alice@{label}.id")).is_ok());
}

#[test]
fn server_hostname_too_long() {
    // 5 labels of 60 chars + 4 dots = 304 octets.
    let label = "a".repeat(60);
    let host = std::iter::repeat_n(label.as_str(), 5)
        .collect::<Vec<_>>()
        .join(".");
    assert!(host.len() > 253);
    assert!(RootId::parse(&format!("alice@{host}")).is_err());
}

fn message_of(input: &str) -> String {
    match RootId::parse(input) {
        Err(IdentityError::InvalidIdentifier(m)) => m,
        Ok(_) => panic!("expected {input} to be refused"),
    }
}

#[test]
fn each_rule_reports_its_fault() {
    assert_eq!(message_of("berenger"), "missing '@' in 'berenger'");
    assert_eq!(message_of("@brig.id"), "username is empty");
    assert_eq!(message_of("ab@brig.id"), "username length 2 out of range [3, 64]");
    assert_eq!(message_of("inv!alid@brig.id"), "invalid character in username 'inv!alid'");
    assert_eq!(message_of("___@brig.id"), "username cannot consist only of underscores");
    assert_eq!(message_of("alice@"), "server is empty");
    assert_eq!(message_of("alice@brig..id"), "empty label in server 'brig..id'");
    assert_eq!(message_of("alice@brig!id"), "invalid character in server 'brig!id'");
    assert_eq!(message_of("alice@-brig.id"), "label starts or ends with hyphen in '-brig.id'");
    let long_label = format!("{}.id", "a".repeat(64));
    assert_eq!(
        message_of(&format!("alice@{long_label}")),
        format!("label exceeds 63 octets in server '{long_label}'")
    );
    let host = vec!["a".repeat(60); 5].join(".");
    assert_eq!(
        message_of(&format!("alice@{host}")),
        format!("server hostname exceeds 253 octets in '{host}'")
    );
    let long_user = "a".repeat(65);
    assert_eq!(
        message_of(&format!("{long_user}@brig.id")),
        "username length 65 out of range [3, 64]"
    );
}

#[test]
fn identity_error_display() {
    let e = RootId::parse("berenger").unwrap_err();
    assert_eq!(e.to_string(), "invalid identifier: missing '@' in 'berenger'");
}

#[test]
fn username_length_counts_bytes() {
    // "éé" is two characters but four UTF-8 bytes: long enough, but not ASCII.
    assert_eq!(message_of("éé@brig.id"), "invalid character in username 'éé'");
    // "é" alone is two bytes: too short.
    assert_eq!(message_of("é@brig.id"), "username length 2 out of range [3, 64]");
}

#[test]
fn trailing_dot_leaves_an_empty_label() {
    assert_eq!(message_of("alice@brig.id."), "empty label in server 'brig.id.'");
}

#[test]
fn username_at_both_length_bounds() {
    assert!(RootId::parse("abc@brig.id").is_ok());
    assert!(RootId::parse(&format!("{}@brig.id", "a".repeat(64))).is_ok());
}

#[test]
fn only_first_at_splits() {
    // The server part keeps the second `@`, which is not a label character.
    assert_eq!(message_of("alice@brig@id"), "invalid character in server 'brig@id'");
}

// ---- VSIDs ----

const DID_ROOT: &str = "did:web:brig.id:u:berenger";

#[test]
fn vsid_is_stable() {
    let salt = [0x42u8; 32];
    let v1 = compute_vsid(DID_ROOT, "app1", &salt).unwrap();
    let v2 = compute_vsid(DID_ROOT, "app1", &salt).unwrap();
    assert_eq!(v1, v2, "same inputs must produce the same VSID");
}

#[test]
fn vsid_non_correlable_across_clients() {
    let salt = [0x42u8; 32];
    let v1 = compute_vsid(DID_ROOT, "app1", &salt).unwrap();
    let v2 = compute_vsid(DID_ROOT, "app2", &salt).unwrap();
    assert_ne!(v1, v2, "different client_id must yield different VSID");
}

#[test]
fn vsid_differs_across_salts() {
    let s1 = [0u8; 32];
    let s2 = [1u8; 32];
    let v1 = compute_vsid(DID_ROOT, "app1", &s1).unwrap();
    let v2 = compute_vsid(DID_ROOT, "app1", &s2).unwrap();
    assert_ne!(v1, v2, "different salt must yield different VSID");
}

#[test]
fn vsid_never_derived_from_alias() {
    let salt = [0x42u8; 32];
    assert!(
        compute_vsid("did:web:brig.id:u:berenger", "app1", &salt).is_ok(),
        "root did:web: DID must be accepted"
    );
    assert!(
        compute_vsid("_berenger_alias", "app1", &salt).is_err(),
        "non-DID alias must be rejected"
    );
}

#[test]
fn vsid_display_and_as_str() {
    let v = compute_vsid(DID_ROOT, "app1", &[0u8; 32]).unwrap();
    assert_eq!(v.as_str(), v.to_string());
    assert!(!v.as_str().is_empty());
}

#[test]
fn vsid_is_43_base64url_chars() {
    let v = compute_vsid(DID_ROOT, "app1", &[7u8; 32]).unwrap();
    assert_eq!(v.as_str().len(), 43);
    assert!(v
        .as_str()
        .chars()
        .all(|c| c.is_ascii_alphanumeric() || c == '-' || c == '_'));
}

#[test]
fn vsid_rejects_malformed_did_web() {
    let salt = [0u8; 32];
    for bad in ["did:web:", "did:web:a/b", "did:web::a", "did:web:a:", "did:web:a::b"] {
        assert!(matches!(
            compute_vsid(bad, "app1", &salt),
            Err(IdentityError::InvalidIdentifier(m)) if m == "did_root has malformed did:web syntax"
        ));
    }
    assert!(matches!(
        compute_vsid("did:peer:2.zabc", "app1", &salt),
        Err(IdentityError::InvalidIdentifier(m)) if m == "did_root must be a did:web: DID"
    ));
}

#[test]
fn alias_did_peer_is_refused_as_vsid_root() {
    let a = PrivateAlias::new("x8Fj_29K").unwrap();
    let did = a.to_did_peer();
    assert!(matches!(
        compute_vsid(&did, "app1", &[0u8; 32]),
        Err(IdentityError::InvalidIdentifier(m)) if m == "did_root must be a did:web: DID"
    ));
}

#[test]
fn root_id_display_parses_back() {
    for input in ["alice@example.com", "Bob_9@Sub.Example.ORG", "a-b@x.y.z"] {
        let id = RootId::parse(input).unwrap();
        let again = RootId::parse(&id.to_string()).unwrap();
        assert_eq!(again, id);
    }
}

#[test]
fn parsed_identity_did_roots_a_vsid() {
    for input in ["berenger@brig.id", "Bob_9@Sub.Example.ORG", "a-b@x.y.z"] {
        let id = RootId::parse(input).unwrap();
        let did = id.to_did_web();
        let v = compute_vsid(&did, "client", &[7u8; 32]).unwrap();
        assert_eq!(v.as_str().len(), 43);
    }
    assert_eq!(RootId::parse("berenger@brig.id").unwrap().to_did_web(), "did:web:brig.id:u:berenger");
}
