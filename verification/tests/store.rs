use estuary::database::{
    id_type, role_code, role_from_code, unique, DatabaseError, DatabaseType, TestDatabase,
    UserRole,
};

#[test]
fn role_codes_round_trip() {
    assert_eq!(role_code(UserRole::Viewer), 0);
    assert_eq!(role_code(UserRole::Publisher), 1);
    assert_eq!(role_code(UserRole::Administrator), 2);
    assert!(matches!(role_from_code(0), Some(UserRole::Viewer)));
    assert!(matches!(role_from_code(1), Some(UserRole::Publisher)));
    assert!(matches!(role_from_code(2), Some(UserRole::Administrator)));
    assert!(role_from_code(3).is_none());
    assert!(role_from_code(-1).is_none());
}

#[test]
fn schema_fragments_per_backend() {
    assert_eq!(id_type(DatabaseType::PgSql), "SERIAL");
    assert_eq!(id_type(DatabaseType::MySql), "INTEGER AUTO_INCREMENT");
    assert_eq!(unique(DatabaseType::PgSql), "UNIQUE");
    assert_eq!(unique(DatabaseType::MySql), "UNIQUE KEY");
}

#[test]
fn error_messages() {
    assert_eq!(
        DatabaseError::UniqueAlreadyExists.message(),
        "Unique value already exists"
    );
    assert_eq!(DatabaseError::InvalidUri.message(), "Invalid URI");
    assert_eq!(DatabaseError::InvalidInput.message(), "Invalid input");
    assert_eq!(DatabaseError::SqlError.message(), "SqlError");
    assert_eq!(DatabaseError::PWHashError.message(), "HashError");
}

#[test]
fn created_password_verifies_and_others_fail() {
    let mut db = TestDatabase::new();
    let user = db
        .create_user("alice".to_owned(), "pw1".to_owned(), UserRole::Viewer)
        .unwrap();
    assert_eq!(user.name, "alice");
    assert!(matches!(user.role, UserRole::Viewer));
    // the stored hash is a self-describing hash string, never the password
    assert_ne!(user.password_hash, "pw1");
    assert!(db.verify_password(&user, "pw1".to_owned()).is_ok());
    assert!(matches!(
        db.verify_password(&user, "pw2".to_owned()),
        Err(DatabaseError::PWHashError)
    ));
    assert!(matches!(
        db.verify_password(&user, "".to_owned()),
        Err(DatabaseError::PWHashError)
    ));
}

#[test]
fn duplicate_user_name_is_rejected() {
    let mut db = TestDatabase::new();
    db.create_user("x".to_owned(), "a".to_owned(), UserRole::Viewer)
        .unwrap();
    let second = db.create_user("x".to_owned(), "b".to_owned(), UserRole::Publisher);
    assert!(matches!(second, Err(DatabaseError::UniqueAlreadyExists)));
    assert_eq!(db.user_count(), 1);
}

#[test]
fn user_lookups() {
    let mut db = TestDatabase::new();
    let alice = db
        .create_user("alice".to_owned(), "pw".to_owned(), UserRole::Viewer)
        .unwrap();
    let bob = db
        .create_user("bob".to_owned(), "pw".to_owned(), UserRole::Publisher)
        .unwrap();
    assert_ne!(alice.id, bob.id);
    let found = db.get_user("bob".to_owned()).unwrap().unwrap();
    assert_eq!(found.id, bob.id);
    let found = db.get_user_by_id(alice.id).unwrap().unwrap();
    assert_eq!(found.name, "alice");
    assert!(db.get_user("carol".to_owned()).unwrap().is_none());
    assert!(db.get_user_by_id(999).unwrap().is_none());
}

#[test]
fn migrate_is_idempotent() {
    let mut db = TestDatabase::new();
    db.migrate().unwrap();
    assert_eq!(db.user_count(), 1);
    let admin = db.get_user("admin".to_owned()).unwrap().unwrap();
    assert!(matches!(admin.role, UserRole::Administrator));
    // a second run neither fails nor creates a second administrator
    db.migrate().unwrap();
    assert_eq!(db.user_count(), 1);
    // the bootstrap account logs in with its default password
    assert!(db.verify_password(&admin, "admin".to_owned()).is_ok());
}

#[test]
fn migrate_keeps_existing_users() {
    let mut db = TestDatabase::new();
    db.create_user("alice".to_owned(), "pw".to_owned(), UserRole::Viewer)
        .unwrap();
    db.migrate().unwrap();
    assert_eq!(db.user_count(), 2);
    db.migrate().unwrap();
    assert_eq!(db.user_count(), 2);
}

#[test]
fn crate_ownership_edges() {
    let mut db = TestDatabase::new();
    let alice = db
        .create_user("alice".to_owned(), "pw".to_owned(), UserRole::Publisher)
        .unwrap();
    let bob = db
        .create_user("bob".to_owned(), "pw".to_owned(), UserRole::Publisher)
        .unwrap();
    let c = db.create_crate("my-crate".to_owned()).unwrap();
    assert_eq!(c.name, "my-crate");

    // unknown crates have no owners, and that is not an error
    assert!(db.get_crate_owners("other".to_owned()).unwrap().is_empty());

    db.add_crate_owner(c.id, alice.id).unwrap();
    db.add_crate_owner(c.id, bob.id).unwrap();
    let owners = db.get_crate_owners("my-crate".to_owned()).unwrap();
    assert_eq!(owners.len(), 2);
    assert_eq!(owners[0].name, "alice");
    assert_eq!(owners[1].name, "bob");

    db.remove_crate_owner(c.id, alice.id).unwrap();
    let owners = db.get_crate_owners("my-crate".to_owned()).unwrap();
    assert_eq!(owners.len(), 1);
    assert_eq!(owners[0].name, "bob");

    // removing an edge that is not there is a no-op
    db.remove_crate_owner(c.id, alice.id).unwrap();
    assert_eq!(db.owner_count(), 1);
}
