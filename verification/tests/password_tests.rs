use deckauth::{hash_password, verify_password};

#[test]
fn hash_round_trip() {
    let h = hash_password("correct horse battery staple").unwrap();
    assert!(verify_password("correct horse battery staple", &h));
    assert!(!verify_password("correct horse battery stale", &h));
    assert!(!verify_password("", &h));
}

#[test]
fn hash_is_self_describing_and_salted() {
    let h1 = hash_password("pw").unwrap();
    let h2 = hash_password("pw").unwrap();
    assert_eq!(h1.len(), 60);
    assert_eq!(h2.len(), 60);
    // A fresh salt each time: the hashes differ, yet both verify.
    assert_ne!(h1, h2);
    assert!(verify_password("pw", &h1));
    assert!(verify_password("pw", &h2));
}

#[test]
fn malformed_stored_hash_verifies_false() {
    assert!(!verify_password("pw", ""));
    assert!(!verify_password("pw", "not-a-hash"));
    assert!(!verify_password("pw", "$2b$12$tooshort"));
}

#[test]
fn agrees_with_stock_hasher() {
    let h = bcrypt::hash("swordfish", bcrypt::DEFAULT_COST).unwrap();
    assert!(verify_password("swordfish", &h));
    assert!(!verify_password("SWORDFISH", &h));
}
