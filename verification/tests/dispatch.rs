use estuary::auth::{
    auth_method, authenticate_request, AuthError, AuthMethod, Authenticated,
    OptionalAuthenticated,
};
use estuary::database::{TestDatabase, UserRole};
use estuary::frontend::{login_user, LoginData, NewKey, OldKey};

#[test]
fn paths_classify_by_first_segment() {
    assert_eq!(auth_method("/git/index/info/refs"), AuthMethod::Http);
    assert_eq!(auth_method("/api/v1/crates/new"), AuthMethod::Http);
    assert_eq!(auth_method("/api"), AuthMethod::Http);
    assert_eq!(auth_method("/"), AuthMethod::Session);
    assert_eq!(auth_method("/login"), AuthMethod::Session);
    assert_eq!(auth_method("/crates/my-crate"), AuthMethod::Session);
    assert_eq!(auth_method("/gitx"), AuthMethod::Session);
    assert_eq!(auth_method("/apis/v1"), AuthMethod::Session);
    assert_eq!(auth_method(""), AuthMethod::Session);
}

#[test]
fn required_extraction_fails_channel_aware() {
    // a browser path redirects to the login page
    let r = Authenticated::from_identity(None, "/crates/my-crate");
    match r {
        Err(AuthError::Redirect(loc)) => assert_eq!(loc, "/login"),
        _ => panic!("expected a redirect"),
    }
    let e = Authenticated::from_identity(None, "/user").unwrap_err();
    assert_eq!(e.status_code(), 307);
    assert_eq!(e.location(), Some("/login"));
    assert!(e.error_body().is_none());

    // an API path gets a bare unauthorized answer, never a redirect
    let e = Authenticated::from_identity(None, "/api/v1/crates/new").unwrap_err();
    assert!(matches!(e, AuthError::Unauthorized));
    assert_eq!(e.status_code(), 403);
    assert!(e.location().is_none());
    assert_eq!(
        e.error_body(),
        Some("{\"errors\": [{\"detail\": \"Unauthorized user\"}]}")
    );
    let e = Authenticated::from_identity(None, "/git/index/info/refs").unwrap_err();
    assert!(matches!(e, AuthError::Unauthorized));
}

#[test]
fn required_extraction_passes_the_identity_through() {
    let mut db = TestDatabase::new();
    let alice = db
        .create_user("alice".to_owned(), "pw".to_owned(), UserRole::Viewer)
        .unwrap();
    let a = Authenticated::from_identity(Some(alice), "/api/v1/crates/new").unwrap();
    assert_eq!(a.user().name, "alice");
    let inner = a.0;
    assert_eq!(inner.name, "alice");
}

#[test]
fn optional_extraction_never_fails() {
    let r = OptionalAuthenticated::from_identity(None);
    assert!(r.user().is_none());
    let mut db = TestDatabase::new();
    let alice = db
        .create_user("alice".to_owned(), "pw".to_owned(), UserRole::Viewer)
        .unwrap();
    let r = OptionalAuthenticated::from_identity(Some(alice));
    assert_eq!(r.0.as_ref().unwrap().name, "alice");
}

#[test]
fn session_channel_resolves_by_session_uid() {
    let mut db = TestDatabase::new();
    let alice = db
        .create_user("alice".to_owned(), "pw".to_owned(), UserRole::Viewer)
        .unwrap();
    let token = db.generate_api_key("ci".to_owned(), &alice).unwrap();

    // a session value that resolves attaches the user
    let identity = authenticate_request(&db, "/user", Some(alice.id), None);
    assert_eq!(identity.unwrap().id, alice.id);
    // an absent or stale session value leaves the request anonymous
    assert!(authenticate_request(&db, "/user", None, None).is_none());
    assert!(authenticate_request(&db, "/user", Some(999), None).is_none());
    // a session-classified path never reads the bearer header
    assert!(authenticate_request(&db, "/user", None, Some(&token)).is_none());
}

#[test]
fn header_channel_resolves_by_bearer_token() {
    let mut db = TestDatabase::new();
    let alice = db
        .create_user("alice".to_owned(), "pw".to_owned(), UserRole::Viewer)
        .unwrap();
    let token = db.generate_api_key("ci".to_owned(), &alice).unwrap();

    let identity = authenticate_request(&db, "/api/v1/crates/new", None, Some(&token));
    assert_eq!(identity.unwrap().id, alice.id);
    // a missing or malformed header leaves the request anonymous
    assert!(authenticate_request(&db, "/api/v1/crates/new", None, None).is_none());
    assert!(authenticate_request(&db, "/api/v1/crates/new", None, Some("garbage")).is_none());
    // a header-classified path never reads the session
    assert!(authenticate_request(&db, "/api/v1/crates/new", Some(alice.id), None).is_none());
}

#[test]
fn login_outcomes() {
    let mut db = TestDatabase::new();
    db.create_user("alice".to_owned(), "pw1".to_owned(), UserRole::Viewer)
        .unwrap();
    let good = LoginData { username: "alice".to_owned(), password: "pw1".to_owned() };
    let user = login_user(&db, &good).unwrap().unwrap();
    assert_eq!(user.name, "alice");

    let wrong = LoginData { username: "alice".to_owned(), password: "pw2".to_owned() };
    assert!(login_user(&db, &wrong).is_err());

    let unknown = LoginData { username: "bob".to_owned(), password: "pw1".to_owned() };
    assert!(login_user(&db, &unknown).unwrap().is_none());
}

#[test]
fn handler_request_shapes_carry_plain_values() {
    let new_key = NewKey { name: "ci".to_owned() };
    assert_eq!(new_key.name, "ci");
    let old_key = OldKey { id: 7 };
    assert_eq!(old_key.id, 7);
    let form = LoginData { username: "alice".to_owned(), password: "pw".to_owned() };
    assert_eq!(form.username, "alice");
    assert_eq!(form.password, "pw");
}
