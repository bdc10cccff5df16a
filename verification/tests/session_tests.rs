use literm::session::SessionStore;

#[test]
fn token_validates_strictly_before_expiry_and_not_after() {
    // One minute of life: the token expires sixty seconds after creation.
    let mut store = SessionStore::new(1);
    let id = store.create_session(1000);
    assert!(store.validate(id.as_str(), 1000));
    assert!(store.validate(id.as_str(), 1059));
    // At the expiry instant and after it, validation fails.
    let mut store2 = SessionStore::new(1);
    let id2 = store2.create_session(1000);
    assert!(!store2.validate(id2.as_str(), 1060));
    assert!(!store2.validate(id2.as_str(), 1061));
}

#[test]
fn expired_entries_are_swept_out_by_validation() {
    let mut store = SessionStore::new(1);
    let id = store.create_session(0);
    // Sweep at a time past the expiry: the entry is gone for good, even
    // for a later check at an earlier clock value.
    assert!(!store.validate(id.as_str(), 100));
    assert!(!store.validate(id.as_str(), 10));
}

#[test]
fn removed_token_no_longer_validates() {
    let mut store = SessionStore::new(60);
    let id = store.create_session(500);
    assert!(store.validate(id.as_str(), 600));
    store.remove(id.as_str());
    assert!(!store.validate(id.as_str(), 600));
}

#[test]
fn tokens_are_32_hex_characters_and_fresh() {
    let mut store = SessionStore::new(60);
    let a = store.create_session(0);
    let b = store.create_session(0);
    assert_eq!(a.len(), 32);
    assert_eq!(b.len(), 32);
    assert!(a.chars().all(|c| c.is_ascii_hexdigit() && !c.is_ascii_uppercase()));
    // Two random 128-bit tokens colliding would mean the generator is broken.
    assert_ne!(a, b);
}

#[test]
fn unknown_token_never_validates() {
    let mut store = SessionStore::new(60);
    let _ = store.create_session(0);
    assert!(!store.validate("0123456789abcdef0123456789abcdef", 1));
}

#[test]
fn huge_lifetime_saturates_instead_of_overflowing() {
    let mut store = SessionStore::new(u64::MAX);
    let id = store.create_session(u64::MAX - 1);
    assert!(store.validate(id.as_str(), u64::MAX - 1));
}
