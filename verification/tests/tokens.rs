use estuary::database::{DatabaseError, TestDatabase, UserRole};
use estuary::encoding::{decode_token, encode_token};

#[test]
fn token_codec_round_trips() {
    let token = encode_token("alice", "c2VjcmV0");
    let (name, secret) = decode_token(&token).unwrap();
    assert_eq!(name, "alice");
    assert_eq!(secret, b"c2VjcmV0");
}

#[test]
fn token_codec_splits_at_the_first_separator() {
    // a colon inside the username shifts the split: the round trip only
    // holds for colon-free names
    let token = encode_token("a:b", "xyz");
    let (name, secret) = decode_token(&token).unwrap();
    assert_eq!(name, "a");
    assert_eq!(secret, b"b:xyz");
}

#[test]
fn token_codec_rejects_undecodable_text() {
    assert!(decode_token("!!not base64!!").is_none());
    assert!(decode_token(&base64::encode("no separator")).is_none());
}

#[test]
fn generated_token_round_trips() {
    let mut db = TestDatabase::new();
    let alice = db
        .create_user("alice".to_owned(), "pw1".to_owned(), UserRole::Viewer)
        .unwrap();
    let token = db.generate_api_key("ci".to_owned(), &alice).unwrap();
    let resolved = db.verify_api_key(token).unwrap().unwrap();
    assert_eq!(resolved.id, alice.id);
    assert_eq!(resolved.name, "alice");
}

#[test]
fn token_wire_format_is_double_base64() {
    let mut db = TestDatabase::new();
    let alice = db
        .create_user("alice".to_owned(), "pw1".to_owned(), UserRole::Viewer)
        .unwrap();
    let token = db.generate_api_key("ci".to_owned(), &alice).unwrap();

    // the outer layer is base64 of "username:inner"
    let payload = base64::decode(&token).unwrap();
    let sep = payload.iter().position(|&b| b == b':').unwrap();
    assert_eq!(&payload[..sep], b"alice");

    // the inner layer is itself base64, of the 32 secret bytes
    let inner = std::str::from_utf8(&payload[sep + 1..]).unwrap();
    let secret = base64::decode(inner).unwrap();
    assert_eq!(secret.len(), 32);

    // the store holds a hash of the inner text, never the inner text
    let keys = db.get_api_keys(alice.id).unwrap();
    assert_eq!(keys.len(), 1);
    assert_eq!(keys[0].name, "ci");
    assert_eq!(keys[0].uid, alice.id);
    assert_ne!(keys[0].key, inner);
}

#[test]
fn duplicate_key_name_is_rejected() {
    let mut db = TestDatabase::new();
    let alice = db
        .create_user("alice".to_owned(), "pw1".to_owned(), UserRole::Viewer)
        .unwrap();
    let bob = db
        .create_user("bob".to_owned(), "pw2".to_owned(), UserRole::Viewer)
        .unwrap();
    db.generate_api_key("k".to_owned(), &alice).unwrap();
    assert!(matches!(
        db.generate_api_key("k".to_owned(), &alice),
        Err(DatabaseError::UniqueAlreadyExists)
    ));
    // key names are unique across users, not per owner
    assert!(matches!(
        db.generate_api_key("k".to_owned(), &bob),
        Err(DatabaseError::UniqueAlreadyExists)
    ));
    assert_eq!(db.api_key_count(), 1);
}

#[test]
fn two_keys_give_different_tokens() {
    let mut db = TestDatabase::new();
    let alice = db
        .create_user("alice".to_owned(), "pw1".to_owned(), UserRole::Viewer)
        .unwrap();
    let first = db.generate_api_key("k1".to_owned(), &alice).unwrap();
    let second = db.generate_api_key("k2".to_owned(), &alice).unwrap();
    assert_ne!(first, second);
    assert!(db.verify_api_key(first).unwrap().is_some());
    assert!(db.verify_api_key(second).unwrap().is_some());
}

#[test]
fn malformed_tokens_resolve_no_identity() {
    let mut db = TestDatabase::new();
    let alice = db
        .create_user("alice".to_owned(), "pw1".to_owned(), UserRole::Viewer)
        .unwrap();
    db.generate_api_key("ci".to_owned(), &alice).unwrap();

    // not base64 at all
    assert!(db.verify_api_key("!!not base64!!".to_owned()).unwrap().is_none());
    // decodes, but holds no separator
    let no_colon = base64::encode("aliceonly");
    assert!(db.verify_api_key(no_colon).unwrap().is_none());
    // well-shaped, but names an unknown user
    let ghost_token = base64::encode("ghost:c2VjcmV0");
    assert!(db.verify_api_key(ghost_token).unwrap().is_none());
    // names a known user, but carries the wrong secret
    let wrong_secret = base64::encode("alice:c2VjcmV0");
    assert!(db.verify_api_key(wrong_secret).unwrap().is_none());
    // the name part is not valid UTF-8
    let mut bad = vec![0xffu8, 0xfe];
    bad.push(b':');
    bad.extend_from_slice(b"c2VjcmV0");
    assert!(db.verify_api_key(base64::encode(bad)).unwrap().is_none());
    // empty token
    assert!(db.verify_api_key(String::new()).unwrap().is_none());
}

#[test]
fn revoked_key_no_longer_verifies() {
    let mut db = TestDatabase::new();
    let alice = db
        .create_user("alice".to_owned(), "pw1".to_owned(), UserRole::Viewer)
        .unwrap();
    let token = db.generate_api_key("ci".to_owned(), &alice).unwrap();
    assert!(db.verify_api_key(token.clone()).unwrap().is_some());

    let keys = db.get_api_keys(alice.id).unwrap();
    db.revoke_api_key(keys[0].id, alice.id).unwrap();
    assert_eq!(db.api_key_count(), 0);
    assert!(db.verify_api_key(token).unwrap().is_none());
}

#[test]
fn revocation_is_scoped_to_the_owner() {
    let mut db = TestDatabase::new();
    let alice = db
        .create_user("alice".to_owned(), "pw1".to_owned(), UserRole::Viewer)
        .unwrap();
    let bob = db
        .create_user("bob".to_owned(), "pw2".to_owned(), UserRole::Viewer)
        .unwrap();
    let token = db.generate_api_key("ci".to_owned(), &alice).unwrap();
    let key_id = db.get_api_keys(alice.id).unwrap()[0].id;

    // bob cannot revoke alice's key: silent no-op, key stays usable
    db.revoke_api_key(key_id, bob.id).unwrap();
    assert_eq!(db.api_key_count(), 1);
    let resolved = db.verify_api_key(token.clone()).unwrap().unwrap();
    assert_eq!(resolved.id, alice.id);

    // revoking a key that does not exist is also a silent no-op
    db.revoke_api_key(key_id + 100, alice.id).unwrap();
    assert_eq!(db.api_key_count(), 1);
    assert!(db.verify_api_key(token).unwrap().is_some());
}

#[test]
fn end_to_end_key_lifecycle() {
    let mut db = TestDatabase::new();
    let alice = db
        .create_user("alice".to_owned(), "pw1".to_owned(), UserRole::Viewer)
        .unwrap();
    let token = db.generate_api_key("ci".to_owned(), &alice).unwrap();
    let resolved = db.verify_api_key(token.clone()).unwrap().unwrap();
    assert_eq!(resolved.name, "alice");
    let key_id = db.get_api_keys(alice.id).unwrap()[0].id;
    db.revoke_api_key(key_id, alice.id).unwrap();
    assert!(db.verify_api_key(token).unwrap().is_none());
}
