use brigid::jti::{JtiStore, OidcError};

#[test]
fn default_creates_empty_store() {
    let mut store = JtiStore::default();
    assert!(store.check_and_insert("jti-def", i64::MAX).is_ok());
}

#[test]
fn new_jti_is_accepted() {
    let mut store = JtiStore::new();
    assert!(store.check_and_insert("jti-1", i64::MAX).is_ok());
}

#[test]
fn replayed_jti_is_rejected() {
    let mut store = JtiStore::new();
    store.check_and_insert("jti-x", i64::MAX).unwrap();
    let err = store.check_and_insert("jti-x", i64::MAX).unwrap_err();
    assert!(matches!(err, OidcError::JtiReplay));
}

#[test]
fn expired_jti_is_evicted_and_reusable() {
    let mut store = JtiStore::new();
    // Insert with exp = 1 (already expired)
    store.check_and_insert("jti-old", 1).unwrap();
    // Same jti should now succeed because the old entry is evicted
    assert!(store.check_and_insert("jti-old", i64::MAX).is_ok());
}

#[test]
fn blacklist_then_check_at_fixed_times() {
    let mut store = JtiStore::new();
    store.blacklist_at("jti-b", 100, 10);
    assert!(store.is_blacklisted_at("jti-b", 99));
    assert!(!store.is_blacklisted_at("jti-b", 100));
    assert!(!store.is_blacklisted_at("other", 50));
    assert!(matches!(
        store.check_and_insert_at("jti-b", 200, 50),
        Err(OidcError::JtiReplay)
    ));
    // At time 100 the entry has expired and is evicted: the JWT ID is accepted again.
    assert!(store.check_and_insert_at("jti-b", 200, 100).is_ok());
    assert!(store.is_blacklisted_at("jti-b", 150));
}

#[test]
fn blacklist_replaces_expiry() {
    let mut store = JtiStore::new();
    store.blacklist_at("j", 100, 0);
    store.blacklist_at("j", 50, 0);
    assert!(!store.is_blacklisted_at("j", 60));
    assert!(store.is_blacklisted_at("j", 40));
}

#[test]
fn blacklist_with_clock_is_effective() {
    let mut store = JtiStore::new();
    store.blacklist("jti-logout", i64::MAX);
    assert!(store.is_blacklisted("jti-logout"));
    assert!(!store.is_blacklisted("jti-other"));
}

#[test]
fn many_distinct_ids_are_tracked() {
    let mut store = JtiStore::new();
    for i in 0..50 {
        assert!(store.check_and_insert_at(&format!("id-{i}"), 1000, 0).is_ok());
    }
    for i in 0..50 {
        assert!(store.is_blacklisted_at(&format!("id-{i}"), 999));
    }
    // Eviction at 1000 drops all of them.
    assert!(store.check_and_insert_at("id-0", 2000, 1000).is_ok());
    assert!(!store.is_blacklisted_at("id-1", 1000));
}

#[test]
fn blacklist_survives_other_updates_until_expiry() {
    let mut store = JtiStore::new();
    store.blacklist_at("revoked", 100, 0);
    store.check_and_insert_at("other-1", 50, 10).unwrap();
    store.blacklist_at("other-2", 200, 20);
    assert!(matches!(store.check_and_insert_at("revoked", 500, 30), Err(OidcError::JtiReplay)));
    store.check_and_insert_at("other-3", 300, 60).unwrap();
    assert!(store.is_blacklisted_at("revoked", 99));
    assert!(!store.is_blacklisted_at("revoked", 100));
}
