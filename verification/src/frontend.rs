//! Data shapes of the browser-facing handlers, and the login decision.

use vstd::prelude::*;
use vstd::utf8::encode_utf8;

use crate::crypto::argon2_verifies;
use crate::database::{find_user_by_name, user_view, DatabaseError, TestDatabase, User};

verus! {

/// The body of a request asking for a new API key.
pub struct NewKey {
    pub name: String,
}

/// The body of a request revoking an API key by its id.
pub struct OldKey {
    pub id: i32,
}

/// A submitted login form.
pub struct LoginData {
    pub username: String,
    pub password: String,
}

/// The login decision: the named user with a verifying password starts a
/// session; a stored user with any other password is a uniform hash
/// failure; an unknown name quietly shows the login page again.
pub fn login_user(db: &TestDatabase, data: &LoginData) -> (r: Result<Option<User>, DatabaseError>)
    ensures
        match find_user_by_name(db.users_view(), data.username@) {
            None => r matches Ok(found) && found is None,
            Some(i) => if argon2_verifies(
                encode_utf8(data.password@),
                db.users_view()[i].password_hash,
            ) {
                r matches Ok(found) && found matches Some(u) && user_view(u)
                    == db.users_view()[i]
            } else {
                r matches Err(e) && e == DatabaseError::PWHashError
            },
        },
{
    match db.get_user(data.username.clone()) {
        Ok(Some(user)) => match db.verify_password(&user, data.password.clone()) {
            Ok(_) => Ok(Some(user)),
            Err(e) => Err(e),
        },
        Ok(None) => Ok(None),
        Err(e) => Err(e),
    }
}

} // verus!
